//! Fixed-point quantities with nine fractional decimal digits.
//!
//! A raw integer `r` stands for the rational `r / SCALE`.  Products are
//! rounded toward zero, so that the product with a negated factor is the
//! negated product.

use vstd::prelude::*;
use vstd::arithmetic::div_mod::lemma_div_is_ordered;
use vstd::arithmetic::div_mod::lemma_fundamental_div_mod;

verus! {

/// Number of raw units in one whole unit.
pub const SCALE: u64 = 1_000_000_000;

/// Absolute value.
pub open spec fn magnitude(x: int) -> int {
    if x < 0 {
        -x
    } else {
        x
    }
}

/// Quotient of `x` by a positive `d`, rounded toward zero.
pub open spec fn trunc_div(x: int, d: int) -> int {
    if x >= 0 {
        x / d
    } else {
        -((-x) / d)
    }
}

/// Product of two fixed-point quantities, rounded toward zero.
pub open spec fn fixed_mul(a: int, b: int) -> int {
    trunc_div(a * b, SCALE as int)
}

/// Rounding toward zero keeps the order of the numerators.
pub proof fn lemma_trunc_div_monotone(x: int, y: int, d: int)
    requires
        x <= y,
        d > 0,
    ensures
        trunc_div(x, d) <= trunc_div(y, d),
{
    if x >= 0 {
        lemma_div_is_ordered(x, y, d);
    } else if y < 0 {
        lemma_div_is_ordered(-y, -x, d);
    } else {
        lemma_div_is_ordered(0, -x, d);
        lemma_div_is_ordered(0, y, d);
    }
}

/// The rounded quotient lies between zero and the numerator, and scaling it
/// back by the divisor never exceeds the numerator in magnitude.
pub proof fn lemma_trunc_div_bound(x: int, d: int)
    requires
        d > 0,
    ensures
        x >= 0 ==> 0 <= trunc_div(x, d) <= x,
        x <= 0 ==> x <= trunc_div(x, d) <= 0,
        magnitude(trunc_div(x, d)) * d <= magnitude(x),
        magnitude(x) < (magnitude(trunc_div(x, d)) + 1) * d,
{
    let m = magnitude(x);
    lemma_fundamental_div_mod(m, d);
    lemma_div_is_ordered(0, m, d);
    let q = m / d;
    assert(q <= m && q * d <= m && m < (q + 1) * d) by (nonlinear_arith)
        requires
            d > 0,
            q >= 0,
            m >= 0,
            d * q <= m,
            m - d * q < d,
    ;
}

/// A fixed-point product grows with its left factor when the right factor is
/// not negative.
pub proof fn lemma_fixed_mul_monotone(a1: int, a2: int, b: int)
    requires
        a1 <= a2,
        b >= 0,
    ensures
        fixed_mul(a1, b) <= fixed_mul(a2, b),
{
    assert(a1 * b <= a2 * b) by (nonlinear_arith)
        requires
            a1 <= a2,
            b >= 0,
    ;
    lemma_trunc_div_monotone(a1 * b, a2 * b, SCALE as int);
}

/// A fixed-point product shrinks with its left factor when the right factor
/// is not positive.
pub proof fn lemma_fixed_mul_antitone(a1: int, a2: int, b: int)
    requires
        a1 <= a2,
        b <= 0,
    ensures
        fixed_mul(a1, b) >= fixed_mul(a2, b),
{
    assert(a1 * b >= a2 * b) by (nonlinear_arith)
        requires
            a1 <= a2,
            b <= 0,
    ;
    lemma_trunc_div_monotone(a2 * b, a1 * b, SCALE as int);
}

/// A fixed-point product is bounded by the magnitudes of its factors.
pub proof fn lemma_fixed_mul_bound(a: int, b: int, ma: int, mb: int)
    requires
        magnitude(a) <= ma,
        magnitude(b) <= mb,
    ensures
        magnitude(a * b) <= ma * mb,
        magnitude(fixed_mul(a, b)) * SCALE <= ma * mb,
        magnitude(fixed_mul(a, b)) <= ma * mb,
        a >= 0 && b >= 0 ==> fixed_mul(a, b) >= 0,
{
    assert(magnitude(a * b) <= ma * mb && (a >= 0 && b >= 0 ==> a * b >= 0)) by (nonlinear_arith)
        requires
            magnitude(a) <= ma,
            magnitude(b) <= mb,
    ;
    lemma_trunc_div_bound(a * b, SCALE as int);
}

pub(crate) fn mul_fixed(a: i128, b: i128) -> (r: i128)
    requires
        i128::MIN <= a * b <= i128::MAX,
    ensures
        r == fixed_mul(a as int, b as int),
{
    (a * b) / (SCALE as i128)
}

} // verus!
