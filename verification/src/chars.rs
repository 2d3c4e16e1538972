//! Character classes and digit values.

use vstd::prelude::*;
use crate::std_ext::alphabetic;
use crate::std_ext::is_scalar_value;

verus! {

/// The characters that make up whitespace: space, tab and newline.
pub open spec fn is_space(c: char) -> bool {
    c == ' ' || c == '\t' || c == '\n'
}

/// The decimal digits `0` to `9`.
pub open spec fn is_decimal_digit(c: char) -> bool {
    '0' <= c <= '9'
}

/// The value of `c` as a hexadecimal digit, in either case of the letters.
pub open spec fn hex_digit_value(c: char) -> Option<u32> {
    if '0' <= c <= '9' {
        Some((c as u32 - '0' as u32) as u32)
    } else if 'a' <= c <= 'f' {
        Some((c as u32 - 'a' as u32 + 10) as u32)
    } else if 'A' <= c <= 'F' {
        Some((c as u32 - 'A' as u32 + 10) as u32)
    } else {
        None
    }
}

/// The character whose code point is written by four hexadecimal digits, the
/// most significant first. There is none where a digit is missing or the
/// number is a surrogate.
pub open spec fn code_point(
    d1: Option<u32>,
    d2: Option<u32>,
    d3: Option<u32>,
    d4: Option<u32>,
) -> Option<char> {
    if d1 is Some && d2 is Some && d3 is Some && d4 is Some {
        let v = ((d1->0 * 16 + d2->0) * 16 + d3->0) * 16 + d4->0;
        if 0 <= v <= u32::MAX && is_scalar_value(v as u32) {
            Some(v as char)
        } else {
            None
        }
    } else {
        None
    }
}

/// The classes of characters that a run of the input may be made of.
#[derive(Debug, Clone, Copy)]
pub enum CharClass {
    /// Space, tab, newline.
    Space,
    /// Decimal digits.
    Decimal,
    /// Hexadecimal digits.
    Hex,
    /// What a name may continue with: alphabetic characters and decimal
    /// digits.
    Name,
    /// As `Name`, and the dollar sign.
    DollarName,
}

impl CharClass {
    /// The character `c` belongs to the class.
    pub open spec fn holds(self, c: char) -> bool {
        match self {
            CharClass::Space => is_space(c),
            CharClass::Decimal => is_decimal_digit(c),
            CharClass::Hex => hex_digit_value(c) is Some,
            CharClass::Name => alphabetic(c) || is_decimal_digit(c),
            CharClass::DollarName => alphabetic(c) || is_decimal_digit(c) || c == '$',
        }
    }
}

/// Tells whether `c` is a space, a tab or a newline.
pub fn space(c: char) -> (b: bool)
    ensures
        b == is_space(c),
{
    c == ' ' || c == '\t' || c == '\n'
}

/// Tells whether `c` is a decimal digit.
pub fn decimal_digit(c: char) -> (b: bool)
    ensures
        b == is_decimal_digit(c),
{
    '0' <= c && c <= '9'
}

/// The value of `d` as a hexadecimal digit, `None` where it is none.
pub fn to_digit_16(d: char) -> (v: Option<u32>)
    ensures
        v == hex_digit_value(d),
        v matches Some(n) ==> n < 16,
{
    if '0' <= d && d <= '9' {
        Some(d as u32 - '0' as u32)
    } else if 'a' <= d && d <= 'f' {
        Some(d as u32 - 'a' as u32 + 10)
    } else if 'A' <= d && d <= 'F' {
        Some(d as u32 - 'A' as u32 + 10)
    } else {
        None
    }
}

} // verus!
