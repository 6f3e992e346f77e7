//! Integer helpers for the fixed-point arithmetic of the simulation.
//!
//! Positions are measured in micro-pixels (1/1 000 000 of a pixel), time in
//! microseconds.  Division in contracts is the Euclidean division of `int`;
//! with a positive divisor it coincides with flooring.

use vstd::prelude::*;

verus! {

/// Quotient of `n` by `d`, rounded up (for positive `d`).
pub open spec fn ceil_div(n: int, d: int) -> int {
    (n + d - 1) / d
}

/// The floor quotient times the divisor brackets the dividend from below.
pub proof fn lemma_floor_mul(n: int, d: int)
    requires
        d > 0,
    ensures
        (n / d) * d <= n < (n / d) * d + d,
{
    vstd::arithmetic::div_mod::lemma_fundamental_div_mod(n, d);
    vstd::arithmetic::div_mod::lemma_mod_division_less_than_divisor(n, d);
    assert((n / d) * d == d * (n / d)) by (nonlinear_arith);
}

/// The ceiling quotient times the divisor brackets the dividend from above.
pub proof fn lemma_ceil_mul(n: int, d: int)
    requires
        d > 0,
    ensures
        n <= ceil_div(n, d) * d < n + d,
{
    vstd::arithmetic::div_mod::lemma_fundamental_div_mod(n + d - 1, d);
    vstd::arithmetic::div_mod::lemma_mod_division_less_than_divisor(n + d - 1, d);
    assert(ceil_div(n, d) * d == d * ((n + d - 1) / d)) by (nonlinear_arith);
}

/// Multiplying both sides of `a <= b` by a positive factor keeps the order.
pub proof fn lemma_mul_mono(a: int, b: int, d: int)
    requires
        a <= b,
        d > 0,
    ensures
        a * d <= b * d,
{
    assert(a * d <= b * d) by (nonlinear_arith)
        requires
            a <= b,
            d > 0,
    ;
}

/// A multiple reaches `n` exactly when its factor reaches the ceiling
/// quotient, and stays under `n + d` exactly when it stays under the floor
/// quotient plus one.
pub proof fn lemma_div_threshold(k: int, n: int, d: int)
    requires
        d > 0,
    ensures
        k * d >= n <==> k >= ceil_div(n, d),
        k * d <= n <==> k <= n / d,
{
    lemma_ceil_mul(n, d);
    lemma_floor_mul(n, d);
    if k >= ceil_div(n, d) {
        lemma_mul_mono(ceil_div(n, d), k, d);
    }
    if k * d >= n {
        if k < ceil_div(n, d) {
            lemma_mul_mono(k, ceil_div(n, d) - 1, d);
            assert((ceil_div(n, d) - 1) * d == ceil_div(n, d) * d - d) by (nonlinear_arith);
        }
    }
    if k <= n / d {
        lemma_mul_mono(k, n / d, d);
    }
    if k * d <= n {
        if k > n / d {
            lemma_mul_mono(n / d + 1, k, d);
            assert((n / d + 1) * d == (n / d) * d + d) by (nonlinear_arith);
        }
    }
}

/// Adding one divisor advances the ceiling quotient by exactly one.
pub proof fn lemma_ceil_add_divisor(n: int, d: int)
    requires
        d > 0,
    ensures
        ceil_div(n + d, d) == ceil_div(n, d) + 1,
{
    let m = n + d - 1;
    vstd::arithmetic::div_mod::lemma_fundamental_div_mod(m, d);
    vstd::arithmetic::div_mod::lemma_mod_division_less_than_divisor(m, d);
    assert((m / d + 1) * d + m % d == d * (m / d) + m % d + d) by (nonlinear_arith);
    vstd::arithmetic::div_mod::lemma_fundamental_div_mod_converse(m + d, d, m / d + 1, m % d);
}

/// Adding one divisor advances the floor quotient by exactly one.
pub proof fn lemma_floor_add_divisor(n: int, d: int)
    requires
        d > 0,
    ensures
        (n + d) / d == n / d + 1,
{
    vstd::arithmetic::div_mod::lemma_fundamental_div_mod(n, d);
    vstd::arithmetic::div_mod::lemma_mod_division_less_than_divisor(n, d);
    assert((n / d + 1) * d + n % d == d * (n / d) + n % d + d) by (nonlinear_arith);
    vstd::arithmetic::div_mod::lemma_fundamental_div_mod_converse(n + d, d, n / d + 1, n % d);
}

/// Adding a whole number of divisors advances the floor quotient by that
/// number.
pub proof fn lemma_div_add_multiple(n: int, k: int, d: int)
    requires
        d > 0,
        k >= 0,
    ensures
        (n + k * d) / d == n / d + k,
    decreases k,
{
    if k > 0 {
        lemma_div_add_multiple(n, k - 1, d);
        lemma_floor_add_divisor(n + (k - 1) * d, d);
        assert(n + k * d == (n + (k - 1) * d) + d) by (nonlinear_arith);
    } else {
        assert(k * d == 0) by (nonlinear_arith)
            requires
                k == 0,
        ;
    }
}

/// Floor division of a signed dividend by a positive divisor.
///
/// Matches the Euclidean `/` of specifications: the result is the largest
/// integer not above the exact quotient.
pub fn div_floor_i64(n: i64, d: u64) -> (r: i64)
    requires
        1 <= d <= i64::MAX,
        n > i64::MIN,
    ensures
        r == n as int / d as int,
{
    if n >= 0 {
        let q = (n as u64) / d;
        proof {
            assert(q == n as int / d as int);
        }
        q as i64
    } else {
        let m = (-n) as u64;
        let q = (m - 1) / d + 1;
        proof {
            let mi = m as int;
            let di = d as int;
            vstd::arithmetic::div_mod::lemma_fundamental_div_mod(mi - 1, di);
            let qq = (mi - 1) / di;
            let rr = (mi - 1) % di;
            // m - 1 == qq * di + rr with 0 <= rr < di, so -m == -(qq + 1) * di + (di - 1 - rr).
            assert((-(qq + 1)) * di == -(qq * di) - di) by (nonlinear_arith);
            vstd::arithmetic::div_mod::lemma_fundamental_div_mod_converse(
                -mi,
                di,
                -(qq + 1),
                di - 1 - rr,
            );
            assert(n as int / d as int == -(qq + 1));
        }
        -(q as i64)
    }
}

/// Clamps a value into the symmetric range `[-lim, lim]`.
pub fn clamp_i64(x: i64, lim: i64) -> (r: i64)
    requires
        lim >= 0,
    ensures
        r == spec_clamp(x as int, lim as int),
{
    if x > lim {
        lim
    } else if x < -lim {
        -lim
    } else {
        x
    }
}

/// Value of `x` clamped into `[-lim, lim]`.
pub open spec fn spec_clamp(x: int, lim: int) -> int {
    if x > lim {
        lim
    } else if x < -lim {
        -lim
    } else {
        x
    }
}

} // verus!
