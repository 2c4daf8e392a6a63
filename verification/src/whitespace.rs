//! The characters that separate words.

use vstd::prelude::*;

verus! {

/// True when the scalar value `v` carries the Unicode `White_Space` property.
pub open spec fn is_whitespace_scalar(v: u32) -> bool {
    ||| 0x09 <= v <= 0x0D
    ||| v == 0x20
    ||| v == 0x85
    ||| v == 0xA0
    ||| v == 0x1680
    ||| 0x2000 <= v <= 0x200A
    ||| v == 0x2028
    ||| v == 0x2029
    ||| v == 0x202F
    ||| v == 0x205F
    ||| v == 0x3000
}

/// True when `c` is a whitespace character, that is, one that ends a word.
pub open spec fn is_whitespace(c: char) -> bool {
    is_whitespace_scalar(c as u32)
}

/// Decides whether the scalar value `v` is whitespace.
pub fn scalar_is_whitespace(v: u32) -> (r: bool)
    ensures
        r == is_whitespace_scalar(v),
{
    if v < 0x80 {
        (0x09 <= v && v <= 0x0D) || v == 0x20
    } else if v < 0x1680 {
        v == 0x85 || v == 0xA0
    } else {
        v == 0x1680 || (0x2000 <= v && v <= 0x200A) || v == 0x2028 || v == 0x2029 || v == 0x202F
            || v == 0x205F || v == 0x3000
    }
}

/// Decides whether `c` is a whitespace character.
pub fn char_is_whitespace(c: char) -> (r: bool)
    ensures
        r == is_whitespace(c),
{
    scalar_is_whitespace(c as u32)
}

} // verus!
