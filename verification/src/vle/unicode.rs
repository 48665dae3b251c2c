//! Shared Unicode notions: scalar values, the text-acceptability filter,
//! and the byte order of UTF-16 streams.

use vstd::prelude::*;

pub mod utf16sequence;
pub mod utf8sequence;

verus! {

/// A Unicode scalar value: any code point up to U+10FFFF that is not a
/// surrogate.
pub open spec fn is_scalar_value(c: int) -> bool {
    (0 <= c < 0xD800) || (0xDFFF < c <= 0x10FFFF)
}

/// The text-acceptability filter: a decoded value is acceptable as text
/// when it is a scalar value and, if it lies below U+00FF, additionally
/// falls in the ASCII text ranges or the upper Latin-1 range.
pub open spec fn is_text_value(c: int) -> bool {
    &&& is_scalar_value(c)
    &&& (c < 0xFF ==> ((0x08 <= c && c <= 0x0D) || c == 0x1B || (0x20 <= c && c <= 0x7E) || c
        >= 0xA0))
}

/// Whether `codepoint` is a Unicode scalar value.
pub fn is_valid_codepoint(codepoint: u32) -> (r: bool)
    ensures
        r == is_scalar_value(codepoint as int),
{
    codepoint < 0xD800 || (0xDFFF < codepoint && codepoint <= 0x10FFFF)
}

/// Whether `codepoint` passes the text-acceptability filter.
pub fn is_text(codepoint: u32) -> (r: bool)
    ensures
        r == is_text_value(codepoint as int),
{
    if !is_valid_codepoint(codepoint) {
        return false;
    }
    !((codepoint < 0xFF) && !(0x08 <= codepoint && 0x0D >= codepoint) && codepoint != 0x1B && !(0x20
        <= codepoint && 0x7E >= codepoint) && 0xA0 > codepoint)
}

/// The byte order of a UTF-16 stream, fixed once by its byte-order mark.
#[derive(Clone, Copy, Debug, PartialEq, Eq, Structural)]
pub enum Endianness {
    BigEndian,
    LittleEndian,
}

} // verus!
