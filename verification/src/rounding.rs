//! Quotients of whole numbers, rounded to the nearest or rounded down, and
//! the bounds that hold of them.

use vstd::prelude::*;

verus! {

/// `n / d` rounded to the nearest integer, halves upward.
pub open spec fn round_div(n: int, d: int) -> int
    recommends
        n >= 0,
        d > 0,
{
    (2 * n + d) / (2 * d)
}

/// A rounded quotient is `q` when the numerator lies within half a
/// denominator of `q` denominators.
pub proof fn lemma_round_div_is(n: int, d: int, q: int)
    requires
        d > 0,
        2 * (q * d) <= 2 * n + d < 2 * (q * d) + 2 * d,
    ensures
        round_div(n, d) == q,
{
    let r = 2 * n + d - 2 * (q * d);
    assert(2 * n + d == q * (2 * d) + r) by (nonlinear_arith)
        requires
            r == 2 * n + d - 2 * (q * d),
    ;
    vstd::arithmetic::div_mod::lemma_fundamental_div_mod_converse_div(2 * n + d, 2 * d, q, r);
}

/// If `x < bound * d` then `scale * x / d < scale * bound`.
pub proof fn lemma_scaled_quotient_below(x: int, d: int, bound: int, scale: int)
    requires
        0 <= x < bound * d,
        d > 0,
        scale > 0,
    ensures
        0 <= (scale * x) / d < scale * bound,
{
    assert(scale * x < (scale * bound) * d && 0 <= scale * bound) by (nonlinear_arith)
        requires
            0 <= x < bound * d,
            d > 0,
            scale > 0,
    ;
    assert(0 <= scale * x) by (nonlinear_arith)
        requires
            0 <= x,
            scale > 0,
    ;
    vstd::arithmetic::div_mod::lemma_div_pos_is_pos(scale * x, d);
    vstd::arithmetic::div_mod::lemma_div_by_multiple_is_strongly_ordered(
        scale * x,
        (scale * bound) * d,
        scale * bound,
        d,
    );
    vstd::arithmetic::div_mod::lemma_div_by_multiple(scale * bound, d);
}

/// If `x <= bound * d` then `scale * x / d <= scale * bound`.
pub proof fn lemma_scaled_quotient_at_most(x: int, d: int, bound: int, scale: int)
    requires
        0 <= x <= bound * d,
        d > 0,
        scale >= 0,
    ensures
        0 <= (scale * x) / d <= scale * bound,
{
    assert(scale * x <= (scale * bound) * d && 0 <= scale * bound) by (nonlinear_arith)
        requires
            0 <= x <= bound * d,
            d > 0,
            scale >= 0,
    ;
    assert(0 <= scale * x) by (nonlinear_arith)
        requires
            0 <= x,
            scale >= 0,
    ;
    vstd::arithmetic::div_mod::lemma_div_pos_is_pos(scale * x, d);
    vstd::arithmetic::div_mod::lemma_div_is_ordered(scale * x, (scale * bound) * d, d);
    vstd::arithmetic::div_mod::lemma_div_by_multiple(scale * bound, d);
}

/// A rounded quotient is at most `bound` when the numerator is at most
/// `bound` denominators.
pub proof fn lemma_round_div_at_most(n: int, d: int, bound: int)
    requires
        0 <= n <= bound * d,
        d > 0,
    ensures
        0 <= round_div(n, d) <= bound,
{
    assert(2 * n + d < (bound + 1) * (2 * d) && bound >= 0) by (nonlinear_arith)
        requires
            0 <= n <= bound * d,
            d > 0,
    ;
    vstd::arithmetic::div_mod::lemma_div_pos_is_pos(2 * n + d, 2 * d);
    vstd::arithmetic::div_mod::lemma_div_by_multiple_is_strongly_ordered(
        2 * n + d,
        (bound + 1) * (2 * d),
        bound + 1,
        2 * d,
    );
    vstd::arithmetic::div_mod::lemma_div_by_multiple(bound + 1, 2 * d);
}

/// A rounded quotient grows with its numerator.
pub proof fn lemma_round_div_monotone(n1: int, n2: int, d: int)
    requires
        n1 <= n2,
        d > 0,
    ensures
        round_div(n1, d) <= round_div(n2, d),
{
    vstd::arithmetic::div_mod::lemma_div_is_ordered(2 * n1 + d, 2 * n2 + d, 2 * d);
}

/// A rounded quotient is unchanged when numerator and denominator are
/// multiplied by the same positive factor.
pub proof fn lemma_round_div_scaled(n: int, d: int, k: int)
    requires
        0 <= n,
        d > 0,
        k > 0,
    ensures
        round_div(n * k, d * k) == round_div(n, d),
{
    assert(2 * (n * k) + d * k == k * (2 * n + d) && 2 * (d * k) == k * (2 * d)) by (nonlinear_arith);
    vstd::arithmetic::div_mod::lemma_div_multiples_vanish_quotient(k, 2 * n + d, 2 * d);
}

} // verus!
