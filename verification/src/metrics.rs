//! Counters that stop at the largest machine number, and quotients rounded to a
//! fixed number of decimals.
//!
//! A measured quantity with `k` decimals is held as a whole number of its
//! smallest unit: a field whose name ends in `_tenths` counts tenths, one that
//! ends in `_e4` counts ten-thousandths.

use vstd::prelude::*;

verus! {

/// A count, or the largest machine number where the count is above that.
pub open spec fn capped(n: nat) -> u64 {
    if n <= u64::MAX {
        n as u64
    } else {
        u64::MAX
    }
}

/// The sum of two counters, capped.
pub open spec fn counter_sum(a: u64, b: u64) -> u64 {
    capped((a + b) as nat)
}

/// The increase of a counter; a counter that went down has not increased.
pub open spec fn counter_increase(before: u64, after: u64) -> u64 {
    if after >= before {
        (after - before) as u64
    } else {
        0
    }
}

/// `n / d` rounded to the nearest whole number, a half upwards.
pub open spec fn round_div(n: nat, d: nat) -> nat {
    (2 * n + d) / (2 * d)
}

/// `n / d` rounded and capped; zero where there is nothing to divide by.
pub open spec fn rated(n: nat, d: nat) -> u64 {
    if d == 0 {
        0
    } else {
        capped(round_div(n, d))
    }
}

pub fn add_counter(counter: &mut u64, value: u64)
    ensures
        *final(counter) == counter_sum(*old(counter), value),
{
    *counter = (*counter).saturating_add(value);
}

pub fn increase(before: u64, after: u64) -> (delta: u64)
    ensures
        delta == counter_increase(before, after),
{
    after.saturating_sub(before)
}

/// The product of two machine numbers, which always fits in the wider type.
pub fn wide_product(a: u64, b: u64) -> (product: u128)
    ensures
        product == a * b,
        product <= u64::MAX * u64::MAX,
{
    proof {
        vstd::arithmetic::mul::lemma_mul_upper_bound(
            a as int,
            u64::MAX as int,
            b as int,
            u64::MAX as int,
        );
        vstd::arithmetic::mul::lemma_mul_nonnegative(a as int, b as int);
    }
    (a as u128) * (b as u128)
}

proof fn lemma_round_div(n: nat, d: nat, q: nat, r: nat)
    by (nonlinear_arith)
    requires
        d > 0,
        n == q * d + r,
        r < d,
    ensures
        2 * r >= d ==> (2 * n + d) / (2 * d) == q + 1,
        2 * r < d ==> (2 * n + d) / (2 * d) == q,
{
    if 2 * r >= d {
        assert(2 * n + d == (q + 1) * (2 * d) + (2 * r - d));
        assert(0 <= 2 * r - d < 2 * d);
    } else {
        assert(2 * n + d == q * (2 * d) + (2 * r + d));
        assert(0 <= 2 * r + d < 2 * d);
    }
}

/// A quotient rounded to the nearest whole number.
pub fn rate(numerator: u128, denominator: u128) -> (value: u64)
    ensures
        value == rated(numerator as nat, denominator as nat),
{
    if denominator == 0 {
        return 0;
    }
    let q = numerator / denominator;
    let r = numerator % denominator;
    proof {
        vstd::arithmetic::div_mod::lemma_fundamental_div_mod(numerator as int, denominator as int);
        vstd::arithmetic::mul::lemma_mul_is_commutative(q as int, denominator as int);
        lemma_round_div(numerator as nat, denominator as nat, q as nat, r as nat);
    }
    let up = r >= denominator - r;
    if q >= u64::MAX as u128 {
        u64::MAX
    } else if up {
        q as u64 + 1
    } else {
        q as u64
    }
}

} // verus!
