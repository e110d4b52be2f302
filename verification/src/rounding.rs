//! Division rounded to the nearest integer, ties away from zero.

use vstd::prelude::*;
use vstd::arithmetic::div_mod::lemma_fundamental_div_mod_converse;
use vstd::arithmetic::div_mod::lemma_fundamental_div_mod;
use vstd::arithmetic::div_mod::lemma_div_is_ordered;

verus! {

/// The absolute value of `n`.
pub open spec fn magnitude(n: int) -> nat {
    if n < 0 {
        (-n) as nat
    } else {
        n as nat
    }
}

/// The quotient of two magnitudes, rounded to the nearest natural number,
/// halves upwards.
pub open spec fn round_div_nat(n: nat, d: nat) -> nat
    recommends
        d > 0,
{
    (2 * n + d) / (2 * d)
}

/// `n / d` rounded to the nearest integer; a quotient that lies exactly
/// between two integers goes to the one further from zero.
pub open spec fn round_div(n: int, d: int) -> int
    recommends
        d != 0,
{
    let q = round_div_nat(magnitude(n), magnitude(d)) as int;
    if (n < 0) == (d < 0) {
        q
    } else {
        -q
    }
}

/// The rounded quotient of magnitudes is the floor of the quotient, plus one
/// where twice the remainder reaches the divisor.
pub proof fn lemma_round_div_nat_by_remainder(n: nat, d: nat)
    requires
        d > 0,
    ensures
        round_div_nat(n, d) == (if 2 * (n % d) >= d {
            n / d + 1
        } else {
            n / d
        }),
{
    let q = (n / d) as int;
    let r = (n % d) as int;
    let n = n as int;
    let d = d as int;
    lemma_fundamental_div_mod(n, d);
    assert(n == d * q + r);
    assert(0 <= r < d);
    if 2 * r >= d {
        assert(2 * n + d == (q + 1) * (2 * d) + (2 * r - d)) by (nonlinear_arith)
            requires
                n == d * q + r,
        ;
        lemma_fundamental_div_mod_converse(2 * n + d, 2 * d, q + 1, 2 * r - d);
    } else {
        assert(2 * n + d == q * (2 * d) + (2 * r + d)) by (nonlinear_arith)
            requires
                n == d * q + r,
        ;
        lemma_fundamental_div_mod_converse(2 * n + d, 2 * d, q, 2 * r + d);
    }
}

/// The rounded quotient of magnitudes, times the divisor, is within half the
/// divisor of the dividend.
pub proof fn lemma_round_div_nat_error(n: nat, d: nat)
    requires
        d > 0,
    ensures
        -(d as int) < 2 * (round_div_nat(n, d) * d - n) <= d,
{
    let q = round_div_nat(n, d) as int;
    let n = n as int;
    let d = d as int;
    lemma_fundamental_div_mod(2 * n + d, 2 * d);
    let r = (2 * n + d) % (2 * d);
    assert(2 * n + d == (2 * d) * q + r);
    assert(0 <= r < 2 * d);
    assert(2 * (q * d - n) == d - r) by (nonlinear_arith)
        requires
            2 * n + d == (2 * d) * q + r,
    ;
}

/// Rounding error of `round_div`: the rounded quotient times the divisor
/// differs from the dividend by at most half the divisor's magnitude.
pub proof fn lemma_round_div_error(n: int, d: int)
    requires
        d != 0,
    ensures
        2 * magnitude(round_div(n, d) * d - n) <= magnitude(d),
{
    let q = round_div_nat(magnitude(n), magnitude(d)) as int;
    let mn = magnitude(n) as int;
    let md = magnitude(d) as int;
    lemma_round_div_nat_error(magnitude(n), magnitude(d));
    assert(-md < 2 * (q * md - mn) <= md);
    let e = q * md - mn;
    if (n < 0) == (d < 0) {
        if d < 0 {
            assert(q * d - n == -e) by (nonlinear_arith)
                requires
                    md == -d,
                    mn == -n,
                    e == q * md - mn,
            ;
        } else {
            assert(q * d - n == e) by (nonlinear_arith)
                requires
                    md == d,
                    mn == n,
                    e == q * md - mn,
            ;
        }
    } else {
        if d < 0 {
            assert((-q) * d - n == e) by (nonlinear_arith)
                requires
                    md == -d,
                    mn == n,
                    e == q * md - mn,
            ;
        } else {
            assert((-q) * d - n == -e) by (nonlinear_arith)
                requires
                    md == d,
                    mn == -n,
                    e == q * md - mn,
            ;
        }
    }
}

/// Zero rounds to zero.
pub proof fn lemma_round_div_nat_zero(d: nat)
    requires
        d > 0,
    ensures
        round_div_nat(0, d) == 0,
{
    lemma_fundamental_div_mod_converse(d as int, 2 * d as int, 0, d as int);
}

/// For a fixed positive divisor, a larger magnitude never rounds to less.
pub proof fn lemma_round_div_nat_monotonic(a: nat, b: nat, d: nat)
    requires
        a <= b,
        d > 0,
    ensures
        round_div_nat(a, d) <= round_div_nat(b, d),
{
    lemma_div_is_ordered(2 * a + d as int, 2 * b + d as int, 2 * d as int);
}

/// The magnitude of a signed machine integer other than the least.
pub fn magnitude_of(n: i128) -> (m: u128)
    requires
        n > i128::MIN,
    ensures
        m == magnitude(n as int),
{
    if n < 0 {
        (-n) as u128
    } else {
        n as u128
    }
}

/// Divides magnitudes, rounding to the nearest, halves upwards.
pub fn div_round_nat(n: u128, d: u128) -> (q: u128)
    requires
        d > 0,
    ensures
        q == round_div_nat(n as nat, d as nat),
        q <= n,
{
    let floor: u128 = n / d;
    let rest: u128 = n % d;
    proof {
        lemma_round_div_nat_by_remainder(n as nat, d as nat);
        lemma_fundamental_div_mod(n as int, d as int);
        assert(floor <= n) by (nonlinear_arith)
            requires
                n == d * floor + rest,
                0 <= rest,
                d > 0,
                floor >= 0,
        ;
    }
    if rest >= d - rest {
        assert(d >= 2 ==> floor + 1 <= n) by (nonlinear_arith)
            requires
                n == d * floor + rest,
                2 * rest >= d,
                rest < d,
                d > 0,
                floor >= 0,
        ;
        floor + 1
    } else {
        floor
    }
}

/// Divides `n` by `d`, rounding to the nearest integer, ties away from zero.
pub fn div_round(n: i128, d: i128) -> (q: i128)
    requires
        d != 0,
        n > i128::MIN,
        d > i128::MIN,
    ensures
        q == round_div(n as int, d as int),
        magnitude(q as int) <= magnitude(n as int),
{
    let q: u128 = div_round_nat(magnitude_of(n), magnitude_of(d));
    if (n < 0) == (d < 0) {
        q as i128
    } else {
        -(q as i128)
    }
}

} // verus!
