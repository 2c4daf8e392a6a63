//! Decoding one UTF-8 scalar value from the head of a byte sequence.

use vstd::prelude::*;
use vstd::utf8::*;

verus! {

/// Reads the scalar value whose encoding starts at `pos`.
///
/// Returns the value and the number of bytes that encode it, or `None` when
/// no well-formed encoding starts at `pos`: the input ends there or before, or
/// what follows is a truncated or stray byte, an overlong form, a surrogate,
/// or a value beyond the last code point.
pub fn decode_scalar(bytes: &[u8], pos: usize) -> (r: Option<(u32, usize)>)
    ensures
        r is Some <==> pos < bytes@.len() && valid_first_scalar(bytes@.skip(pos as int)),
        r matches Some((v, w)) ==> {
            &&& v == decode_first_scalar(bytes@.skip(pos as int))
            &&& w == length_of_first_scalar(bytes@.skip(pos as int))
            &&& pos + w <= bytes@.len()
            &&& is_scalar(v)
        },
{
    if pos >= bytes.len() {
        return None;
    }
    let ghost s = bytes@.skip(pos as int);
    let left: usize = bytes.len() - pos;
    let b0: u8 = bytes[pos];
    assert(s[0] == b0);
    if b0 <= 0x7f {
        let v: u32 = (b0 & 0x7F) as u32;
        assert(b0 & 0x7F <= 0x7F) by (bit_vector);
        Some((v, 1))
    } else if 0xc0 <= b0 && b0 <= 0xdf {
        if left < 2 {
            return None;
        }
        let b1: u8 = bytes[pos + 1];
        assert(s[1] == b1);
        if !is_continuation(b1) {
            return None;
        }
        let v: u32 = (((b0 & 0x1F) as u32) << 6) | ((b1 & 0x3f) as u32);
        assert((((b0 & 0x1F) as u32) << 6) | ((b1 & 0x3f) as u32) <= 0x7FF) by (bit_vector);
        if v < 0x80 {
            None
        } else {
            Some((v, 2))
        }
    } else if 0xe0 <= b0 && b0 <= 0xef {
        if left < 3 {
            return None;
        }
        let b1: u8 = bytes[pos + 1];
        let b2: u8 = bytes[pos + 2];
        assert(s[1] == b1 && s[2] == b2);
        if !is_continuation(b1) || !is_continuation(b2) {
            return None;
        }
        let v: u32 = (((b0 & 0x0F) as u32) << 12) | (((b1 & 0x3f) as u32) << 6) | ((b2
            & 0x3f) as u32);
        assert((((b0 & 0x0F) as u32) << 12) | (((b1 & 0x3f) as u32) << 6) | ((b2 & 0x3f) as u32)
            <= 0xFFFF) by (bit_vector);
        if v < 0x800 || (0xD800 <= v && v <= 0xDFFF) {
            None
        } else {
            Some((v, 3))
        }
    } else if 0xf0 <= b0 && b0 <= 0xf7 {
        if left < 4 {
            return None;
        }
        let b1: u8 = bytes[pos + 1];
        let b2: u8 = bytes[pos + 2];
        let b3: u8 = bytes[pos + 3];
        assert(s[1] == b1 && s[2] == b2 && s[3] == b3);
        if !is_continuation(b1) || !is_continuation(b2) || !is_continuation(b3) {
            return None;
        }
        let v: u32 = (((b0 & 0x07) as u32) << 18) | (((b1 & 0x3f) as u32) << 12) | (((b2
            & 0x3f) as u32) << 6) | ((b3 & 0x3f) as u32);
        if v < 0x10000 || v > 0x10ffff {
            None
        } else {
            Some((v, 4))
        }
    } else {
        None
    }
}

/// Decides whether `byte` has the form of a continuation byte, `10xxxxxx`.
pub fn is_continuation(byte: u8) -> (r: bool)
    ensures
        r == is_continuation_byte(byte),
{
    0x80 <= byte && byte <= 0xbf
}

} // verus!
