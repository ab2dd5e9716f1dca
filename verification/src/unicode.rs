use vstd::prelude::*;
use vstd::utf8::{
    codepoint_width_1,
    codepoint_width_2,
    codepoint_width_3,
    is_continuation_byte,
    is_leading_byte_width_1,
    is_leading_byte_width_2,
    is_leading_byte_width_3,
    is_leading_byte_width_4,
    is_scalar,
};

verus! {

/// The char whose code is `code`, or `None` when `code` is not a Unicode
/// scalar value (a surrogate, or above `0x10FFFF`).
pub open spec fn char_of(code: u32) -> Option<char> {
    if is_scalar(code) {
        Some(code as char)
    } else {
        None
    }
}

/// Calls `char::from_u32`, which returns the char with the given code, or
/// `None` when the code is a surrogate or above `0x10FFFF`.
#[verifier::external_body]
pub(crate) fn char_from_u32(code: u32) -> (r: Option<char>)
    ensures
        r == char_of(code),
{
    char::from_u32(code)
}

/// The number of bytes of the UTF-8 sequence whose leading byte is `first`,
/// by its bit pattern; 0 when it is no leading byte.
pub open spec fn utf8_width(first: u8) -> int {
    if is_leading_byte_width_1(first) {
        1
    } else if is_leading_byte_width_2(first) {
        2
    } else if is_leading_byte_width_3(first) {
        3
    } else if is_leading_byte_width_4(first) {
        4
    } else {
        0
    }
}

/// The number of bytes of the UTF-8 sequence whose leading byte is `first`,
/// by its bit pattern; 0 when it is no leading byte.
pub fn utf8_char_width(first: u8) -> (r: usize)
    ensures
        r == utf8_width(first),
{
    if first <= 0x7f {
        1
    } else if 0xc0 <= first && first <= 0xdf {
        2
    } else if 0xe0 <= first && first <= 0xef {
        3
    } else if 0xf0 <= first && first <= 0xf7 {
        4
    } else {
        0
    }
}

/// Whether `b` has the bit pattern of a UTF-8 continuation byte, `10xxxxxx`.
pub fn is_utf8_continuation(b: u8) -> (r: bool)
    ensures
        r == is_continuation_byte(b),
{
    0x80 <= b && b <= 0xbf
}

/// The value bits of an ASCII byte are the byte itself.
pub proof fn lemma_ascii_code(b: u8)
    by (bit_vector)
    requires
        b <= 0x7f,
    ensures
        codepoint_width_1(b) == b as u32,
{
}

/// Codes of two- and three-byte UTF-8 sequences have at most 11 and 16 bits.
pub proof fn lemma_utf8_code_bounds(b1: u8, b2: u8, b3: u8)
    by (bit_vector)
    ensures
        codepoint_width_2(b1, b2) <= 0x7ff,
        codepoint_width_3(b1, b2, b3) <= 0xffff,
{
}

/// The code of the surrogate pair `high`, `low` in UTF-16.
pub open spec fn surrogate_pair_code(high: u16, low: u16) -> u32 {
    (0x10000 + (high - 0xd800) * 0x400 + (low - 0xdc00)) as u32
}

} // verus!
