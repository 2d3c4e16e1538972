//! The value of a run of digits, and its reduction to 64 bits.

use vstd::prelude::*;
use vstd::arithmetic::div_mod::lemma_fundamental_div_mod;
use vstd::arithmetic::div_mod::lemma_mod_bound;
use vstd::arithmetic::div_mod::lemma_mod_multiples_vanish;
use vstd::arithmetic::div_mod::lemma_small_mod;
use vstd::wrapping::i64_specs::wrapping_add;
use vstd::wrapping::i64_specs::wrapping_mul;
use crate::chars::hex_digit_value;
use crate::chars::CharClass;

verus! {

/// The radix of the numbers that digits of `class` write: 10 for the
/// decimal digits, 16 for every other class.
pub open spec fn radix_of(class: CharClass) -> i64 {
    match class {
        CharClass::Decimal => 10,
        _ => 16,
    }
}

/// The value of `c` as a digit; 0 where it is none.
pub open spec fn digit_value(c: char) -> int {
    match hex_digit_value(c) {
        Some(d) => d as int,
        None => 0,
    }
}

/// The number that `digits` write in the given radix, the most significant
/// digit first; 0 for no digits.
pub open spec fn radix_value(digits: Seq<char>, radix: int) -> int
    decreases digits.len(),
{
    if digits.len() == 0 {
        0
    } else {
        radix_value(digits.drop_last(), radix) * radix + digit_value(digits.last())
    }
}

/// The signed 64-bit integer that differs from `v` by a multiple of 2^64:
/// what is left of `v` in two's-complement arithmetic.
pub open spec fn wrap_i64(v: int) -> i64 {
    let r = v % 0x1_0000_0000_0000_0000;
    if r > i64::MAX {
        (r - 0x1_0000_0000_0000_0000) as i64
    } else {
        r as i64
    }
}

/// A number that fits in 64 bits is left as it is.
pub proof fn lemma_wrap_fits(v: int)
    requires
        i64::MIN <= v <= i64::MAX,
    ensures
        wrap_i64(v) == v,
{
    lemma_wrap_unique(v, v, 0);
}

/// `wrap_i64(v)` is `v` less a multiple of 2^64; the multiple is returned.
pub proof fn lemma_wrap_congruent(v: int) -> (q: int)
    ensures
        wrap_i64(v) == v - 0x1_0000_0000_0000_0000 * q,
{
    let m = 0x1_0000_0000_0000_0000int;
    lemma_fundamental_div_mod(v, m);
    lemma_mod_bound(v, m);
    if v % m > i64::MAX {
        assert(m * (v / m + 1) == m * (v / m) + m) by (nonlinear_arith);
        v / m + 1
    } else {
        v / m
    }
}

/// The only signed 64-bit integer that differs from `v` by a multiple of
/// 2^64 is `wrap_i64(v)`.
pub proof fn lemma_wrap_unique(y: int, v: int, q: int)
    requires
        i64::MIN <= y <= i64::MAX,
        y == v - 0x1_0000_0000_0000_0000 * q,
    ensures
        wrap_i64(v) == y,
{
    let m = 0x1_0000_0000_0000_0000int;
    if y >= 0 {
        lemma_mod_multiples_vanish(q, y, m);
        lemma_small_mod(y as nat, m as nat);
    } else {
        assert(m * (q - 1) + (y + m) == m * q + y) by (nonlinear_arith);
        lemma_mod_multiples_vanish(q - 1, y + m, m);
        lemma_small_mod((y + m) as nat, m as nat);
    }
}

/// One step of reading a number in 64-bit arithmetic keeps the reduction of
/// the number read so far.
pub proof fn lemma_accumulate(a: int, radix: i64, d: i64)
    requires
        0 <= d < 16,
    ensures
        wrapping_add(wrapping_mul(wrap_i64(a), radix), d) == wrap_i64(a * radix + d),
{
    let m = 0x1_0000_0000_0000_0000int;
    let x = wrap_i64(a);
    let q1 = lemma_wrap_congruent(a);
    let y = wrapping_mul(x, radix);
    let q2 = lemma_wrap_congruent(x * radix);
    assert(y == wrap_i64(x * radix));
    let z = wrapping_add(y, d);
    let q3: int = if y + d > i64::MAX {
        1
    } else {
        0
    };
    assert(z == y + d - m * q3);
    assert(z == (a * radix + d) - m * (q1 * radix + q2 + q3)) by (nonlinear_arith)
        requires
            z == y + d - m * q3,
            y == x * radix - m * q2,
            x == a - m * q1,
    ;
    lemma_wrap_unique(z as int, a * radix + d, q1 * radix + q2 + q3);
}

/// The number read so far, `value`, with one more digit behind it, in
/// two's-complement 64-bit arithmetic.
pub fn accumulate(value: i64, radix: i64, digit: u32) -> (r: i64)
    requires
        digit < 16,
    ensures
        r == wrapping_add(wrapping_mul(value, radix), digit as i64),
{
    value.wrapping_mul(radix).wrapping_add(digit as i64)
}

} // verus!
