//! Integer helpers shared by every stage: clamping and rounded division.

use vstd::prelude::*;

verus! {

/// `value` moved into the closed range from `low` to `high`.
pub open spec fn clamp_int(value: int, low: int, high: int) -> int {
    if value < low {
        low
    } else if value > high {
        high
    } else {
        value
    }
}

/// Quotient of `n` by `d`, rounded to the nearest integer with halves going
/// up; zero when either operand is not positive.
pub open spec fn round_div_int(n: int, d: int) -> int {
    if n <= 0 || d <= 0 {
        0
    } else {
        (n + d / 2) / d
    }
}

/// The rounded quotient never exceeds a positive numerator.
pub proof fn round_div_at_most_numerator(n: int, d: int)
    requires
        n > 0,
        d > 0,
    ensures
        0 <= round_div_int(n, d) <= n,
{
    if d == 1 {
        assert((n + 0) / 1 == n);
    } else {
        assert(n + d / 2 <= n * d) by (nonlinear_arith)
            requires
                n >= 1,
                d >= 2,
        ;
        assert((n + d / 2) / d <= n) by (nonlinear_arith)
            requires
                n + d / 2 <= n * d,
                d >= 2,
        ;
        assert((n + d / 2) / d >= 0) by (nonlinear_arith)
            requires
                n >= 1,
                d >= 2,
        ;
    }
}

/// The rounded quotient is the integer nearest to the exact quotient: it is
/// off by at most half a denominator, and an exact half is rounded up.
pub proof fn round_div_is_nearest(n: int, d: int)
    requires
        n > 0,
        d > 0,
    ensures
        2 * (round_div_int(n, d) * d - n) <= d,
        2 * (n - round_div_int(n, d) * d) < d,
{
    let q = (n + d / 2) / d;
    assert(q * d <= n + d / 2 < q * d + d) by (nonlinear_arith)
        requires
            q == (n + d / 2) / d,
            d > 0,
    ;
}

/// Whether `v` can be held in 64 bits.
pub open spec fn fits_i64(v: int) -> bool {
    i64::MIN <= v <= i64::MAX
}

/// The product of a 64-bit number and a number of slightly more than 64
/// bits stays well inside 128 bits.
pub proof fn product_is_narrow(a: int, b: int)
    requires
        fits_i64(a),
        -0x8000_0000_0000_2710 <= b <= 0x8000_0000_0000_2710,
    ensures
        -0x4000_0000_0000_1388_0000_0000_0000_0000 <= a * b
            <= 0x4000_0000_0000_1388_0000_0000_0000_0000,
{
    assert(-0x4000_0000_0000_1388_0000_0000_0000_0000 <= a * b
        <= 0x4000_0000_0000_1388_0000_0000_0000_0000) by (nonlinear_arith)
        requires
            -0x8000_0000_0000_0000 <= a <= 0x8000_0000_0000_0000,
            -0x8000_0000_0000_2710 <= b <= 0x8000_0000_0000_2710,
    ;
}

/// The 64-bit form of `v`, if it has one.
pub fn narrow(v: i128) -> (r: Option<i64>)
    ensures
        r == (if fits_i64(v as int) {
            Some(v as i64)
        } else {
            None::<i64>
        }),
{
    if v < -0x8000_0000_0000_0000 || v > 0x7fff_ffff_ffff_ffff {
        None
    } else {
        Some(v as i64)
    }
}

/// `value * factor / denominator`, rounded, if that can be held in 64
/// bits. The factor may lie up to 10000 outside the 64-bit range on either
/// side, which leaves room for the difference of 10000 and a 64-bit number.
pub fn scale(value: i64, factor: i128, denominator: i64) -> (r: Option<i64>)
    requires
        -0x8000_0000_0000_2710 <= factor <= 0x8000_0000_0000_2710,
    ensures
        r == (if fits_i64(round_div_int(value * factor, denominator as int)) {
            Some(round_div_int(value * factor, denominator as int) as i64)
        } else {
            None::<i64>
        }),
{
    proof {
        product_is_narrow(value as int, factor as int);
    }
    let product: i128 = (value as i128) * factor;
    narrow(round_div_wide(product, denominator as i128))
}

/// Moves `value` into the closed range from `low` to `high`.
pub fn clamp_i64(value: i64, low: i64, high: i64) -> (r: i64)
    ensures
        r == clamp_int(value as int, low as int, high as int),
{
    if value < low {
        low
    } else if value > high {
        high
    } else {
        value
    }
}

/// Rounded division on 128-bit operands.
pub fn round_div_wide(numerator: i128, denominator: i128) -> (r: i128)
    requires
        numerator + denominator / 2 <= i128::MAX,
    ensures
        r == round_div_int(numerator as int, denominator as int),
{
    if numerator <= 0 || denominator <= 0 {
        return 0;
    }
    (numerator + denominator / 2) / denominator
}

/// Divides `numerator` by `denominator` and rounds to the nearest integer,
/// halves up. A numerator or denominator that is not positive gives zero.
pub fn round_div(numerator: i64, denominator: i64) -> (r: i64)
    ensures
        r == round_div_int(numerator as int, denominator as int),
        numerator > 0 && denominator > 0 ==> r == (numerator + denominator / 2) / (denominator
            as int),
        numerator <= 0 || denominator <= 0 ==> r == 0,
{
    if numerator <= 0 || denominator <= 0 {
        return 0;
    }
    proof {
        round_div_at_most_numerator(numerator as int, denominator as int);
    }
    let wide: i128 = round_div_wide(numerator as i128, denominator as i128);
    wide as i64
}

} // verus!
