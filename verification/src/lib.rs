//! Classification of a byte stream's textual encoding.
//!
//! The classifier runs one hypothesis per candidate encoding — ASCII,
//! ISO 8859-1, UTF-8, UTF-16 and GB 18030 — over a single pass of the
//! stream. A hypothesis that sees a contradicting code unit is falsified
//! for good, and the verdict is resolved by a fixed priority.

use vstd::prelude::*;

pub mod scan;
pub mod vle;

use crate::vle::gb_sequence::GbSequence;
use crate::vle::gb_sequence::gb_advance;
use crate::vle::gb_sequence::gb_machine_inv;
use crate::vle::gb_sequence::gb_ok;
use crate::vle::gb_sequence::lemma_gb_final;
use crate::vle::gb_sequence::lemma_gb_not_ok;
use crate::vle::unicode::Endianness;
use crate::vle::unicode::utf16sequence::Utf16Sequence;
use crate::vle::unicode::utf16sequence::bom_of;
use crate::vle::unicode::utf16sequence::is_high_surrogate;
use crate::vle::unicode::utf16sequence::lemma_utf16_final;
use crate::vle::unicode::utf16sequence::lemma_utf16_not_ok;
use crate::vle::unicode::utf16sequence::lemma_utf16_truncated_pair;
use crate::vle::unicode::utf16sequence::unit_val;
use crate::vle::unicode::utf16sequence::utf16_advance;
use crate::vle::unicode::utf16sequence::utf16_machine_inv;
use crate::vle::unicode::utf16sequence::utf16_ok;
use crate::vle::unicode::utf8sequence::Utf8Sequence;
use crate::vle::unicode::utf8sequence::lemma_utf8_final;
use crate::vle::unicode::utf8sequence::lemma_utf8_not_ok;
use crate::vle::unicode::utf8sequence::utf8_advance;
use crate::vle::unicode::utf8sequence::utf8_machine_inv;
use crate::vle::unicode::utf8sequence::utf8_ok;

verus! {

/// The possible verdicts for one byte stream, one per candidate encoding,
/// plus `Empty` for a zero-length stream and `Data` for arbitrary binary.
#[derive(Clone, Copy, Debug, PartialEq, Eq, Structural)]
pub enum BufferType {
    Empty,
    Ascii,
    Latin1,
    Utf8,
    Utf16,
    Gb,
    Data,
}

/// A byte that may appear in plain ASCII text: the usual control
/// characters (backspace through carriage return), escape, and the
/// printable range.
pub open spec fn ascii_byte(b: u8) -> bool {
    (0x08 <= b && b <= 0x0D) || b == 0x1B || (0x20 <= b && b <= 0x7E)
}

/// A byte that may appear in ISO 8859-1 text: ASCII text, or any byte in
/// the upper Latin-1 range.
pub open spec fn latin1_byte(b: u8) -> bool {
    ascii_byte(b) || b >= 0xA0
}

pub open spec fn all_ascii(s: Seq<u8>) -> bool {
    forall|j: int| 0 <= j < s.len() ==> ascii_byte(#[trigger] s[j])
}

pub open spec fn all_latin1(s: Seq<u8>) -> bool {
    forall|j: int| 0 <= j < s.len() ==> latin1_byte(#[trigger] s[j])
}

/// The verdict for a byte stream: the first hypothesis, in fixed
/// priority order, that the whole stream satisfies. ASCII comes first
/// because ASCII bytes satisfy every other hypothesis; the three strict
/// multi-byte grammars come before the permissive Latin-1 fallback.
pub open spec fn classification(s: Seq<u8>) -> BufferType {
    if s.len() == 0 {
        BufferType::Empty
    } else if all_ascii(s) {
        BufferType::Ascii
    } else if utf16_ok(s) {
        BufferType::Utf16
    } else if utf8_ok(s) {
        BufferType::Utf8
    } else if all_latin1(s) {
        BufferType::Latin1
    } else if gb_ok(s) {
        BufferType::Gb
    } else {
        BufferType::Data
    }
}

pub fn is_byte_ascii(byte: u8) -> (r: bool)
    ensures
        r == ascii_byte(byte),
{
    (0x08 <= byte && byte <= 0x0D) || byte == 0x1B || (0x20 <= byte && byte <= 0x7E)
}

pub fn is_byte_latin1(byte: u8) -> (r: bool)
    ensures
        r == latin1_byte(byte),
{
    is_byte_ascii(byte) || byte >= 0xA0
}

/// Classifies one byte stream, in a single forward pass over the bytes.
///
/// All five hypotheses start out alive; each code unit is fed to every
/// hypothesis that is still alive, and the scan stops early the moment
/// the four non-ASCII hypotheses are all falsified, since ASCII bytes
/// satisfy all of them and so ASCII is falsified too. At end of stream a
/// live but unfinished multi-byte run falsifies its hypothesis, and the
/// verdict is the first surviving hypothesis in priority order.
pub fn classify_file(bytes: &[u8]) -> (r: BufferType)
    ensures
        r == classification(bytes@),
{
    let ghost s = bytes@;
    let n = bytes.len();
    if n == 0 {
        return BufferType::Empty;
    }
    let mut is_ascii = true;
    let mut is_latin1 = true;
    let mut is_utf8 = true;
    let mut is_utf16 = true;
    let mut is_gb = true;
    let mut utf8_sequence: Option<Utf8Sequence> = None;
    let mut utf16_sequence: Option<Utf16Sequence> = None;
    let mut gb_sequence: Option<GbSequence> = None;
    let mut endianness: Option<Endianness> = None;
    let mut i: usize = 0;
    while i < n
        invariant
            s == bytes@,
            n == s.len(),
            0 < n,
            0 <= i <= n,
            is_ascii == (forall|j: int| 0 <= j < i ==> ascii_byte(#[trigger] s[j])),
            is_latin1 == (forall|j: int| 0 <= j < i ==> latin1_byte(#[trigger] s[j])),
            utf8_machine_inv(is_utf8, utf8_sequence, s.take(i as int)),
            gb_machine_inv(is_gb, gb_sequence, s.take(i as int)),
            utf16_machine_inv(is_utf16, endianness, utf16_sequence, s.take(2 * ((i as int) / 2))),
        decreases n - i,
    {
        let byte = bytes[i];
        if is_ascii && !is_byte_ascii(byte) {
            is_ascii = false;
        }
        if i % 2 == 1 {
            let first = bytes[i - 1];
            let stepped = utf16_advance(
                is_utf16,
                endianness,
                utf16_sequence,
                first,
                byte,
                Ghost(s.take(i as int - 1)),
            );
            is_utf16 = stepped.0;
            endianness = stepped.1;
            utf16_sequence = stepped.2;
            proof {
                assert(s.take(i as int - 1).push(s[i as int - 1]).push(s[i as int]) =~= s.take(
                    i as int + 1,
                ));
            }
        }
        let stepped8 = utf8_advance(is_utf8, utf8_sequence, byte, Ghost(s.take(i as int)));
        is_utf8 = stepped8.0;
        utf8_sequence = stepped8.1;
        let stepped_gb = gb_advance(is_gb, gb_sequence, byte, Ghost(s.take(i as int)));
        is_gb = stepped_gb.0;
        gb_sequence = stepped_gb.1;
        if is_latin1 && !is_byte_latin1(byte) {
            is_latin1 = false;
        }
        proof {
            assert(s.take(i as int).push(s[i as int]) =~= s.take(i as int + 1));
        }
        i = i + 1;
        if !is_utf16 && !is_utf8 && !is_gb && !is_latin1 {
            proof {
                assert(!all_ascii(s)) by {
                    if all_ascii(s) {
                        assert forall|j: int| 0 <= j < i implies latin1_byte(#[trigger] s[j]) by {
                            assert(ascii_byte(s[j]));
                        }
                    }
                }
                lemma_utf16_not_ok(s, 2 * ((i as int) / 2));
                lemma_utf8_not_ok(s, i as int);
                lemma_gb_not_ok(s, i as int);
            }
            return BufferType::Data;
        }
    }
    proof {
        assert(s.take(n as int) =~= s);
        lemma_utf8_final(is_utf8, utf8_sequence, s);
        lemma_gb_final(is_gb, gb_sequence, s);
        lemma_utf16_final(is_utf16, endianness, utf16_sequence, s);
    }
    let utf16_stands = is_utf16 && utf16_sequence.is_none() && n >= 2;
    let utf8_stands = is_utf8 && utf8_sequence.is_none();
    let gb_stands = is_gb && gb_sequence.is_none();
    if is_ascii {
        BufferType::Ascii
    } else if utf16_stands {
        BufferType::Utf16
    } else if utf8_stands {
        BufferType::Utf8
    } else if is_latin1 {
        BufferType::Latin1
    } else if gb_stands {
        BufferType::Gb
    } else {
        BufferType::Data
    }
}

/// A non-empty stream of ASCII text bytes is classified `Ascii`, and
/// nothing else: ASCII stands first in the priority order.
pub proof fn lemma_ascii_classification(s: Seq<u8>)
    requires
        s.len() > 0,
        all_ascii(s),
    ensures
        classification(s) == BufferType::Ascii,
{
}

/// A non-empty stream that parses completely as UTF-8 text and holds at
/// least one byte above the ASCII range is classified `Utf8`: such a
/// stream cannot be all ASCII, and it cannot open with a byte-order mark,
/// since 0xFE and 0xFF never occur in well-formed UTF-8.
pub proof fn lemma_utf8_classification(s: Seq<u8>)
    requires
        s.len() > 0,
        utf8_ok(s),
        exists|j: int| 0 <= j < s.len() && #[trigger] s[j] >= 0x80,
    ensures
        classification(s) == BufferType::Utf8,
{
    let j = choose|j: int| 0 <= j < s.len() && #[trigger] s[j] >= 0x80;
    assert(!ascii_byte(s[j]));
    assert(!all_ascii(s));
    assert(!utf16_ok(s)) by {
        if s.len() >= 2 {
            assert(crate::vle::unicode::utf8sequence::utf8_len_of(s[0]) >= 1);
            assert(s[0] != 0xFE && s[0] != 0xFF);
        }
    }
}

/// A stream that is well-formed UTF-16 is classified `Utf16`: it opens
/// with a byte-order mark, whose bytes are not ASCII text, so only the
/// higher-priority ASCII hypothesis is excluded.
pub proof fn lemma_utf16_classification(s: Seq<u8>)
    requires
        utf16_ok(s),
    ensures
        classification(s) == BufferType::Utf16,
{
    assert(!ascii_byte(s[0]));
    assert(!all_ascii(s));
}

/// A stream of Latin-1 bytes that is not all ASCII and satisfies none of
/// the three strict multi-byte grammars is classified `Latin1`.
pub proof fn lemma_latin1_classification(s: Seq<u8>)
    requires
        s.len() > 0,
        all_latin1(s),
        !all_ascii(s),
        !utf16_ok(s),
        !utf8_ok(s),
        !gb_ok(s),
    ensures
        classification(s) == BufferType::Latin1,
{
}

/// A well-formed UTF-16 stream ending in a surrogate pair is classified
/// `Utf16`, and removing the pair's trailing low surrogate changes the
/// classification away from `Utf16`: the pair's high surrogate is then
/// left pending at end of stream, which falsifies the hypothesis.
pub proof fn lemma_utf16_pair_truncation(s: Seq<u8>, e: Endianness)
    requires
        utf16_ok(s),
        bom_of(s[0], s[1]) == Some(e),
        s.len() % 2 == 0,
        s.len() >= 6,
        is_high_surrogate(unit_val(s[s.len() - 4], s[s.len() - 3], e)),
    ensures
        classification(s) == BufferType::Utf16,
        classification(s.take(s.len() - 2)) != BufferType::Utf16,
{
    lemma_utf16_classification(s);
    lemma_utf16_truncated_pair(s, e);
}

/// Classification is deterministic: it is a function of the bytes alone,
/// so classifying the same stream twice yields the same verdict. This is
/// what the contract of `classify_file` pins down — the result equals
/// `classification` of the input, which carries no hidden state.
pub proof fn lemma_classification_deterministic(s: Seq<u8>, r1: BufferType, r2: BufferType)
    requires
        r1 == classification(s),
        r2 == classification(s),
    ensures
        r1 == r2,
{
}

} // verus!
