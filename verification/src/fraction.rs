//! Fractions with a positive denominator, written as (numerator, denominator).

use vstd::prelude::*;

verus! {

/// `numerator / denominator` rounded to the nearest whole number, halves up.
pub open spec fn rounded(numerator: int, denominator: int) -> int {
    (2 * numerator + denominator) / (2 * denominator)
}

/// Whether the first fraction is smaller than the second.
pub open spec fn less(a: (int, int), b: (int, int)) -> bool {
    a.0 * b.1 < b.0 * a.1
}

/// The smaller of two fractions, the first of equal ones.
pub open spec fn least(a: (int, int), b: (int, int)) -> (int, int) {
    if less(b, a) {
        b
    } else {
        a
    }
}

/// The greater of two fractions, the first of equal ones.
pub open spec fn greatest(a: (int, int), b: (int, int)) -> (int, int) {
    if less(a, b) {
        b
    } else {
        a
    }
}

/// A rounded fraction is a whole number no further from it than a half, and the upper one of two
/// that are a half away.
pub proof fn law_rounded_is_nearest(numerator: int, denominator: int)
    requires
        denominator > 0,
    ensures
        2 * (denominator * rounded(numerator, denominator)) - denominator <= 2 * numerator,
        2 * numerator < 2 * (denominator * rounded(numerator, denominator)) + denominator,
{
    let n = 2 * numerator + denominator;
    let d = 2 * denominator;
    let r = n / d;
    assert(d * r <= n < d * r + d) by (nonlinear_arith)
        requires
            d > 0,
            r == n / d,
    ;
    assert(d * r == 2 * (denominator * r)) by (nonlinear_arith)
        requires
            d == 2 * denominator,
    ;
}

/// The smaller and the greater of two fractions are those two fractions, and multiplied out the
/// smaller is no greater than either and the greater no smaller.
pub proof fn law_least_and_greatest(a: (int, int), b: (int, int))
    requires
        a.1 > 0,
        b.1 > 0,
    ensures
        least(a, b) == a || least(a, b) == b,
        greatest(a, b) == a || greatest(a, b) == b,
        least(a, b).0 * a.1 <= a.0 * least(a, b).1,
        least(a, b).0 * b.1 <= b.0 * least(a, b).1,
        greatest(a, b).0 * a.1 >= a.0 * greatest(a, b).1,
        greatest(a, b).0 * b.1 >= b.0 * greatest(a, b).1,
{
}

} // verus!
