//! What this crate assumes of the standard library where `vstd` is silent.
//! Nothing here is proved: each item states what the named function of `std`
//! is documented to do.

use vstd::prelude::*;

verus! {

/// Whether `c` has the Unicode property `Alphabetic`, as
/// `char::is_alphabetic` reports it. The property is a table of the Unicode
/// Character Database; nothing more is assumed of it than that it depends on
/// the character alone.
pub uninterp spec fn alphabetic(c: char) -> bool;

/// `char::is_alphabetic` answers by the character's `Alphabetic` property.
pub assume_specification[ char::is_alphabetic ](c: char) -> (b: bool)
    ensures
        b == alphabetic(c),
;

/// The Unicode scalar values: the code points up to `0x10FFFF` without the
/// surrogates `0xD800..=0xDFFF`.
pub open spec fn is_scalar_value(v: u32) -> bool {
    v <= 0xD7FF || 0xE000 <= v <= 0x10FFFF
}

/// `char::from_u32` returns the character with the number `i` where `i` is a
/// Unicode scalar value, and `None` for every other number.
pub assume_specification[ char::from_u32 ](i: u32) -> (c: Option<char>)
    ensures
        c == (if is_scalar_value(i) {
            Some(i as char)
        } else {
            None::<char>
        }),
;

/// `String::push` appends the one character `ch` to the end of the string.
pub assume_specification[ String::push ](s: &mut String, ch: char)
    ensures
        final(s)@ == old(s)@.push(ch),
;

} // verus!
