use file::BufferType;
use file::classify_file;
use file::is_byte_ascii;
use file::is_byte_latin1;
use file::scan::dedup_paths;

#[test]
fn scenario_hello_is_ascii() {
    assert_eq!(classify_file(b"Hello"), BufferType::Ascii);
}

#[test]
fn scenario_le_bom_and_letter_is_utf16() {
    assert_eq!(classify_file(&[0xFF, 0xFE, 0x41, 0x00]), BufferType::Utf16);
}

#[test]
fn scenario_three_byte_scalar_is_utf8() {
    assert_eq!(classify_file(&[0xE4, 0xB8, 0xAD]), BufferType::Utf8);
}

#[test]
fn empty_input_is_empty() {
    assert_eq!(classify_file(&[]), BufferType::Empty);
}

#[test]
fn lone_high_byte_is_data() {
    assert_eq!(classify_file(&[0x80]), BufferType::Data);
}

#[test]
fn lone_delete_byte_is_data() {
    assert_eq!(classify_file(&[0x7F]), BufferType::Data);
}

#[test]
fn overlong_two_byte_form_is_gb_run() {
    // 0xC0 0x80 is rejected by every Unicode hypothesis as an overlong
    // form, but it is a well-formed two-byte GB 18030 run.
    assert_eq!(classify_file(&[0xC0, 0x80]), BufferType::Gb);
}

#[test]
fn overlong_three_byte_form_is_data() {
    assert_eq!(classify_file(&[0xE0, 0x80, 0x80]), BufferType::Data);
}

#[test]
fn utf8_encoded_surrogate_is_data() {
    assert_eq!(classify_file(&[0xED, 0xA0, 0x80]), BufferType::Data);
}

#[test]
fn utf8_low_control_scalar_fails_text_filter() {
    // U+0001 encoded in one byte is structurally fine but is not an
    // acceptable text value, so the stream is not UTF-8 text.
    assert_eq!(classify_file(&[0x41, 0x01]), BufferType::Data);
}

#[test]
fn bom_alone_is_utf16() {
    assert_eq!(classify_file(&[0xFE, 0xFF]), BufferType::Utf16);
    assert_eq!(classify_file(&[0xFF, 0xFE]), BufferType::Utf16);
}

#[test]
fn utf16_tolerates_trailing_lone_byte() {
    assert_eq!(classify_file(&[0xFF, 0xFE, 0x41, 0x00, 0x42]), BufferType::Utf16);
}

#[test]
fn truncated_surrogate_pair_is_not_utf16() {
    let whole: &[u8] = &[0xFF, 0xFE, 0x3D, 0xD8, 0x00, 0xDE];
    assert_eq!(classify_file(whole), BufferType::Utf16);
    let truncated = &whole[..whole.len() - 2];
    assert_eq!(classify_file(truncated), BufferType::Latin1);
}

#[test]
fn missing_bom_is_never_utf16() {
    assert_eq!(classify_file(&[0x00, 0x41, 0x00, 0x42]), BufferType::Data);
}

#[test]
fn classification_is_idempotent() {
    let inputs: [&[u8]; 5] = [
        b"Hello",
        &[0xFF, 0xFE, 0x41, 0x00],
        &[0xE4, 0xB8, 0xAD],
        &[0x80],
        &[],
    ];
    for bytes in inputs {
        assert_eq!(classify_file(bytes), classify_file(bytes));
    }
}

#[test]
fn ascii_byte_edges() {
    assert!(is_byte_ascii(0x08));
    assert!(is_byte_ascii(0x0D));
    assert!(is_byte_ascii(0x1B));
    assert!(is_byte_ascii(0x20));
    assert!(is_byte_ascii(0x7E));
    assert!(!is_byte_ascii(0x07));
    assert!(!is_byte_ascii(0x0E));
    assert!(!is_byte_ascii(0x1F));
    assert!(!is_byte_ascii(0x7F));
    assert!(!is_byte_ascii(0x80));
}

#[test]
fn latin1_byte_edges() {
    assert!(is_byte_latin1(0x41));
    assert!(is_byte_latin1(0xA0));
    assert!(is_byte_latin1(0xFF));
    assert!(!is_byte_latin1(0x9F));
    assert!(!is_byte_latin1(0x80));
    assert!(!is_byte_latin1(0x00));
}

#[test]
fn duplicate_keys_yield_one_entry() {
    let items = vec![
        ("./a".to_string(), "k1".to_string()),
        ("a".to_string(), "k1".to_string()),
        ("b".to_string(), "k2".to_string()),
    ];
    let kept = dedup_paths(items);
    assert_eq!(kept.len(), 2);
    assert_eq!(kept[0].0, "./a");
    assert_eq!(kept[0].1, "k1");
    assert_eq!(kept[1].0, "b");
    assert_eq!(kept[1].1, "k2");
}

#[test]
fn distinct_keys_all_survive() {
    let items = vec![
        ("x".to_string(), "k1".to_string()),
        ("y".to_string(), "k2".to_string()),
        ("z".to_string(), "k3".to_string()),
    ];
    let kept = dedup_paths(items);
    assert_eq!(kept.len(), 3);
}
