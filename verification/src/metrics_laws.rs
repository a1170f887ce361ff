//! What rounding and capping do to a number.

use vstd::prelude::*;
use crate::metrics::{capped, counter_increase, counter_sum, rated, round_div};

verus! {

/// `q` is the whole number nearest to `n / d`, the upper one of two.
pub open spec fn is_nearest(q: int, n: int, d: int) -> bool {
    2 * q * d <= 2 * n + d < 2 * q * d + 2 * d
}

/// A rounded quotient is the nearest whole number, as long as it fits.
pub proof fn lemma_rated(n: nat, d: nat)
    requires
        d > 0,
    ensures
        rated(n, d) < u64::MAX ==> is_nearest(rated(n, d) as int, n as int, d as int),
        2 * n + d < 2 * u64::MAX * d ==> rated(n, d) < u64::MAX,
        rated(0, d) == 0,
{
    let q = round_div(n, d) as int;
    assert(2 * q * d <= 2 * n + d < 2 * q * d + 2 * d) by (nonlinear_arith)
        requires
            q == (2 * n + d) / (2 * d),
            d > 0,
    ;
    if 2 * n + d < 2 * u64::MAX * d {
        assert(q < u64::MAX) by (nonlinear_arith)
            requires
                2 * q * d <= 2 * n + d,
                2 * n + d < 2 * u64::MAX * d,
                d > 0,
        ;
    }
    assert(d / (2 * d) == 0) by (nonlinear_arith)
        requires
            d > 0,
    ;
}

/// Nothing divided by nothing is nothing.
pub proof fn lemma_rated_by_zero(n: nat)
    ensures
        rated(n, 0) == 0,
{
}

/// There is only one nearest number.
pub proof fn lemma_nearest_once(a: int, b: int, n: int, d: int)
    requires
        d > 0,
        is_nearest(a, n, d),
        is_nearest(b, n, d),
    ensures
        a == b,
{
    assert(a == b) by (nonlinear_arith)
        requires
            d > 0,
            2 * a * d <= 2 * n + d < 2 * a * d + 2 * d,
            2 * b * d <= 2 * n + d < 2 * b * d + 2 * d,
    ;
}

/// A multiple is divided without a rest.
pub proof fn lemma_rated_multiple(q: u64, d: nat)
    requires
        d > 0,
    ensures
        rated(q as nat * d, d) == q,
{
    assert((2 * (q * d) + d) / (2 * d as int) == q) by (nonlinear_arith)
        requires
            d > 0,
    ;
}

/// A larger dividend gives no smaller quotient.
pub proof fn lemma_rated_grows(a: nat, b: nat, d: nat)
    requires
        a <= b,
    ensures
        rated(a, d) <= rated(b, d),
{
    if d > 0 {
        assert((2 * a + d) as int / (2 * d as int) <= (2 * b + d) as int / (2 * d as int))
            by (nonlinear_arith)
            requires
                a <= b,
                d > 0,
        ;
    }
}

/// A capped count is the count, or the largest number.
pub proof fn lemma_capped(n: nat)
    ensures
        n <= u64::MAX ==> capped(n) == n,
        n > u64::MAX ==> capped(n) == u64::MAX,
{
}

/// Counters add up, and an increase is the difference of a counter that went up.
pub proof fn lemma_counters(a: u64, b: u64)
    ensures
        a + b <= u64::MAX ==> counter_sum(a, b) == a + b,
        a + b > u64::MAX ==> counter_sum(a, b) == u64::MAX,
        a <= b ==> a + counter_increase(a, b) == b,
        a > b ==> counter_increase(a, b) == 0,
{
}

/// Capping early and capping late are the same.
pub proof fn lemma_capped_sum(a: nat, b: nat)
    ensures
        capped(capped(a) as nat + b) == capped(a + b),
{
}

} // verus!
