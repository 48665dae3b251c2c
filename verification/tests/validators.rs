use file::vle::VariableLengthEncoding;
use file::vle::gb_sequence::GbSequence;
use file::vle::unicode::Endianness;
use file::vle::unicode::utf16sequence::Utf16Sequence;
use file::vle::unicode::utf16sequence::Utf16Type;
use file::vle::unicode::utf8sequence::Utf8Sequence;

#[test]
fn utf8_build_classifies_leads() {
    assert!(Utf8Sequence::build(0x41).is_some());
    assert!(Utf8Sequence::build(0xC2).is_some());
    assert!(Utf8Sequence::build(0xE0).is_some());
    assert!(Utf8Sequence::build(0xF4).is_some());
    assert!(Utf8Sequence::build(0x80).is_none());
    assert!(Utf8Sequence::build(0xBF).is_none());
    assert!(Utf8Sequence::build(0xC0).is_none());
    assert!(Utf8Sequence::build(0xC1).is_none());
    assert!(Utf8Sequence::build(0xF5).is_none());
    assert!(Utf8Sequence::build(0xFF).is_none());
}

#[test]
fn utf8_run_lengths_follow_lead() {
    let s = Utf8Sequence::build(0x41).unwrap();
    assert_eq!(s.full_len(), 1);
    assert_eq!(s.current_len(), 1);
    assert!(s.is_complete());
    let s = Utf8Sequence::build(0xC3).unwrap();
    assert_eq!(s.full_len(), 2);
    let s = Utf8Sequence::build(0xE4).unwrap();
    assert_eq!(s.full_len(), 3);
    let s = Utf8Sequence::build(0xF0).unwrap();
    assert_eq!(s.full_len(), 4);
    assert_eq!(s.current_len(), 1);
    assert!(!s.is_complete());
}

#[test]
fn utf8_three_byte_run_decodes() {
    let mut s = Utf8Sequence::build(0xE4).unwrap();
    assert!(s.add_point(0xB8));
    assert!(!s.is_complete());
    assert!(s.add_point(0xAD));
    assert!(s.is_complete());
    assert_eq!(s.get_codepoint(), 0x4E2D);
    assert!(s.is_valid());
    assert_eq!(s.get(0), Some(0xE4));
    assert_eq!(s.get(1), Some(0xB8));
    assert_eq!(s.get(2), Some(0xAD));
    assert_eq!(s.get(3), None);
}

#[test]
fn utf8_rejects_bad_continuation() {
    let mut s = Utf8Sequence::build(0xE4).unwrap();
    assert!(!s.add_point(0x41));
    assert!(!s.add_point(0xC0));
}

#[test]
fn utf8_overlong_run_is_invalid() {
    let mut s = Utf8Sequence::build(0xE0).unwrap();
    assert!(s.add_point(0x80));
    assert!(s.add_point(0x80));
    assert!(s.is_complete());
    assert_eq!(s.get_codepoint(), 0x0000);
    assert!(!s.is_valid());
}

#[test]
fn utf8_is_invalid_marks_impossible_leads() {
    assert!(Utf8Sequence::is_invalid(0xC0));
    assert!(Utf8Sequence::is_invalid(0xC1));
    assert!(Utf8Sequence::is_invalid(0xF5));
    assert!(!Utf8Sequence::is_invalid(0xC2));
    assert!(!Utf8Sequence::is_invalid(0x41));
}

#[test]
fn utf16_bytes_to_u16_respects_order() {
    assert_eq!(Utf16Sequence::bytes_to_u16([0xFE, 0xFF], Endianness::BigEndian), 0xFEFF);
    assert_eq!(Utf16Sequence::bytes_to_u16([0xFE, 0xFF], Endianness::LittleEndian), 0xFFFE);
    assert_eq!(Utf16Sequence::bytes_to_u16([0x3D, 0xD8], Endianness::LittleEndian), 0xD83D);
}

#[test]
fn utf16_bmp_unit_is_complete_and_valid() {
    let s = Utf16Sequence::new([0x00, 0x41], Endianness::BigEndian);
    assert!(!s.is_surrogate());
    assert!(s.is_complete());
    assert!(s.is_valid());
    assert_eq!(s.get_codepoint(), Utf16Type::Bmp(0x41));
}

#[test]
fn utf16_surrogate_pair_decodes() {
    let mut s = Utf16Sequence::new([0xD8, 0x3D], Endianness::BigEndian);
    assert!(s.is_surrogate());
    assert!(!s.is_complete());
    assert!(!s.add_point([0x00, 0x41]));
    assert!(s.add_point([0xDE, 0x00]));
    assert!(s.is_complete());
    assert!(s.is_valid());
    assert_eq!(s.get_codepoint(), Utf16Type::Surrogate(0x1F600));
}

#[test]
fn utf16_orphan_low_surrogate_is_invalid() {
    let s = Utf16Sequence::new([0xDC, 0x00], Endianness::BigEndian);
    assert!(!s.is_surrogate());
    assert!(s.is_complete());
    assert!(!s.is_valid());
}

#[test]
fn gb_build_classifies_leads() {
    assert!(GbSequence::build(0x80).is_none());
    assert!(GbSequence::build(0xFF).is_none());
    let g = GbSequence::build(0x41).unwrap();
    assert!(g.is_complete());
    let g = GbSequence::build(0x81).unwrap();
    assert!(!g.is_complete());
}

#[test]
fn gb_two_byte_run_completes() {
    let mut g = GbSequence::build(0xC0).unwrap();
    assert!(g.add_codepoint(0x80));
    assert!(g.is_complete());
    let mut g = GbSequence::build(0xC0).unwrap();
    assert!(!g.add_codepoint(0x7F));
    // 0xC0 may also open a four-byte run, so a digit extends it ...
    let mut g = GbSequence::build(0xC0).unwrap();
    assert!(g.add_codepoint(0x30));
    assert!(!g.is_complete());
    // ... while 0xE9 may not, so a digit falsifies the run.
    let mut g = GbSequence::build(0xE9).unwrap();
    assert!(!g.add_codepoint(0x30));
}

#[test]
fn gb_four_byte_run_completes() {
    let mut g = GbSequence::build(0x81).unwrap();
    assert!(g.add_codepoint(0x30));
    assert!(!g.is_complete());
    assert!(g.add_codepoint(0x81));
    assert!(!g.is_complete());
    assert!(g.add_codepoint(0x30));
    assert!(g.is_complete());
}

#[test]
fn trait_drives_all_three_validators() {
    let mut s = <Utf8Sequence as VariableLengthEncoding>::build(0xC3).unwrap();
    assert!(!VariableLengthEncoding::is_complete(&s));
    assert!(VariableLengthEncoding::add_point(&mut s, 0xA9));
    assert!(VariableLengthEncoding::is_complete(&s));
    assert!(VariableLengthEncoding::is_valid(&s));

    let mut s = <Utf16Sequence as VariableLengthEncoding>::build(0xD83D).unwrap();
    assert!(!VariableLengthEncoding::is_complete(&s));
    assert!(VariableLengthEncoding::add_point(&mut s, 0xDE00));
    assert!(VariableLengthEncoding::is_complete(&s));
    assert!(VariableLengthEncoding::is_valid(&s));

    let mut g = <GbSequence as VariableLengthEncoding>::build(0xB0).unwrap();
    assert!(!VariableLengthEncoding::is_complete(&g));
    assert!(VariableLengthEncoding::add_point(&mut g, 0xA1));
    assert!(VariableLengthEncoding::is_complete(&g));
    assert!(VariableLengthEncoding::is_valid(&g));
}
