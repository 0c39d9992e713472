//! What this crate assumes of two functions of the standard library that `vstd`
//! leaves without a specification.

use vstd::prelude::*;

verus! {

/// `String::push` appends the character to the end of the string.
pub assume_specification[ String::push ](s: &mut String, ch: char)
    ensures
        final(s)@ == old(s)@.push(ch),
;

/// `char::from_u32` returns the character with the given code where there is one,
/// that is, where the number is a Unicode scalar value: at most `0x10FFFF` and
/// outside the surrogate range `0xD800..=0xDFFF`. Otherwise it returns `None`.
pub assume_specification[ char::from_u32 ](i: u32) -> (result: Option<char>)
    ensures
        result == (if i <= 0xD7FF || 0xE000 <= i <= 0x10FFFF {
            Some(i as char)
        } else {
            None::<char>
        }),
;

} // verus!
