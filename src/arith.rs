use vstd::prelude::*;

verus! {

/// `q * d <= n` and `n < (q + 1) * d` for the floor quotient `q = n / d`.
pub proof fn lemma_div_bounds(n: int, d: int)
    requires
        n >= 0,
        d > 0,
    ensures
        (n / d) * d <= n,
        n < (n / d + 1) * d,
        n / d >= 0,
{
    vstd::arithmetic::div_mod::lemma_fundamental_div_mod(n, d);
    assert(n / d >= 0) by {
        vstd::arithmetic::div_mod::lemma_div_pos_is_pos(n, d);
    }
    assert((n / d) * d == d * (n / d)) by (nonlinear_arith);
    assert(n < (n / d + 1) * d) by (nonlinear_arith)
        requires
            n == d * (n / d) + n % d,
            n % d < d,
    ;
}

/// Floor division is monotone in the exact quotient: `n1/d1 <= n2/d2` as
/// rationals gives the same order on the floors.
pub proof fn lemma_floor_monotone(n1: int, d1: int, n2: int, d2: int)
    requires
        n1 >= 0,
        n2 >= 0,
        d1 > 0,
        d2 > 0,
        n1 * d2 <= n2 * d1,
    ensures
        n1 / d1 <= n2 / d2,
{
    lemma_div_bounds(n1, d1);
    lemma_div_bounds(n2, d2);
    let q1 = n1 / d1;
    let q2 = n2 / d2;
    assert(q1 * d1 * d2 <= n1 * d2) by (nonlinear_arith)
        requires
            q1 * d1 <= n1,
            d2 > 0,
    ;
    assert(q1 * d2 * d1 <= n2 * d1) by (nonlinear_arith)
        requires
            q1 * d1 * d2 <= n1 * d2,
            n1 * d2 <= n2 * d1,
    ;
    assert(q1 * d2 <= n2) by (nonlinear_arith)
        requires
            q1 * d2 * d1 <= n2 * d1,
            d1 > 0,
    ;
    assert(q1 <= q2) by (nonlinear_arith)
        requires
            q1 * d2 <= n2,
            n2 < (q2 + 1) * d2,
            d2 > 0,
    ;
}

/// A floor quotient is bounded by any `b` with `n <= b * d`.
pub proof fn lemma_div_le_bound(n: int, d: int, b: int)
    requires
        n >= 0,
        d > 0,
        n <= b * d,
    ensures
        n / d <= b,
{
    lemma_div_bounds(n, d);
    let q = n / d;
    assert(q <= b) by (nonlinear_arith)
        requires
            q * d <= n,
            n <= b * d,
            d > 0,
    ;
}

} // verus!

verus! {

/// Products of bounded non-negative numbers are bounded by the product of the bounds.
pub proof fn lemma_mul_bounded(a: int, b: int, ba: int, bb: int)
    requires
        0 <= a <= ba,
        0 <= b <= bb,
    ensures
        0 <= a * b <= ba * bb,
{
    assert(0 <= a * b <= ba * bb) by (nonlinear_arith)
        requires
            0 <= a <= ba,
            0 <= b <= bb,
    ;
}

} // verus!
