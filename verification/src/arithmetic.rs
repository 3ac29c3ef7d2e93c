//! Arithmetic on 64-bit integers with a sign, as the language defines it:
//! results that do not fit wrap around.

use vstd::prelude::*;
use vstd::arithmetic::div_mod::{lemma_mod_multiples_vanish, lemma_mul_mod_noop_left};

verus! {

/// The 64-bit integer with a sign that differs from `x` by a multiple of
/// 2^64: what is left of `x` when arithmetic wraps around.
pub open spec fn wrap64(x: int) -> i64 {
    if x % 0x1_0000_0000_0000_0000 > i64::MAX {
        (x % 0x1_0000_0000_0000_0000 - 0x1_0000_0000_0000_0000) as i64
    } else {
        (x % 0x1_0000_0000_0000_0000) as i64
    }
}

/// The quotient of `a` by `b`, rounded toward zero.
pub open spec fn truncated_quotient(a: int, b: int) -> int
    recommends
        b != 0,
{
    if a >= 0 && b > 0 {
        a / b
    } else if a < 0 && b < 0 {
        (-a) / (-b)
    } else if a < 0 {
        -((-a) / b)
    } else {
        -(a / (-b))
    }
}

/// `base` multiplied by itself `exponent` times.
pub open spec fn power(base: int, exponent: nat) -> int
    decreases exponent,
{
    if exponent == 0 {
        1
    } else {
        base * power(base, (exponent - 1) as nat)
    }
}

/// To wrap around twice is to wrap around once.
pub proof fn lemma_wrap64_idempotent(x: int)
    ensures
        wrap64(wrap64(x) as int) == wrap64(x),
        i64::MIN <= x <= i64::MAX ==> wrap64(x) == x,
{
    let m = 0x1_0000_0000_0000_0000int;
    if x % m > i64::MAX {
        lemma_mod_multiples_vanish(-1, x % m, m);
    }
}

/// In a product, a factor may be wrapped around first.
pub proof fn lemma_wrap64_mul(x: int, y: int)
    ensures
        wrap64(wrap64(x) * y) == wrap64(x * y),
{
    let m = 0x1_0000_0000_0000_0000int;
    lemma_mul_mod_noop_left(x, y, m);
    if x % m > i64::MAX {
        assert((x % m - m) * y == (-y) * m + (x % m) * y) by (nonlinear_arith);
        lemma_mod_multiples_vanish(-y, (x % m) * y, m);
    }
}

/// Factors that wrap around to the same have products that do.
pub proof fn lemma_wrap64_mul_congruent(x1: int, x2: int, y1: int, y2: int)
    requires
        wrap64(x1) == wrap64(x2),
        wrap64(y1) == wrap64(y2),
    ensures
        wrap64(x1 * y1) == wrap64(x2 * y2),
{
    lemma_wrap64_mul(x1, y1);
    lemma_wrap64_mul(x2, y1);
    assert(x2 * y1 == y1 * x2) by (nonlinear_arith);
    assert(x2 * y2 == y2 * x2) by (nonlinear_arith);
    lemma_wrap64_mul(y1, x2);
    lemma_wrap64_mul(y2, x2);
}

/// Bases that wrap around to the same have powers that do.
pub proof fn lemma_power_congruent(a: int, b: int, n: nat)
    requires
        wrap64(a) == wrap64(b),
    ensures
        wrap64(power(a, n)) == wrap64(power(b, n)),
    decreases n,
{
    if n > 0 {
        lemma_power_congruent(a, b, (n - 1) as nat);
        lemma_wrap64_mul_congruent(a, b, power(a, (n - 1) as nat), power(b, (n - 1) as nat));
    }
}

/// A power with an even exponent is a power of the square; with an odd
/// exponent, one more factor stands before it.
pub proof fn lemma_power_halves(b: int, n: nat)
    ensures
        n % 2 == 0 ==> power(b, n) == power(b * b, n / 2),
        n % 2 == 1 ==> power(b, n) == b * power(b * b, n / 2),
    decreases n,
{
    if n >= 2 {
        lemma_power_halves(b, (n - 2) as nat);
        assert(power(b, n) == b * power(b, (n - 1) as nat));
        assert(power(b, (n - 1) as nat) == b * power(b, (n - 2) as nat));
        assert((n - 2) / 2 == n / 2 - 1);
        assert(power(b * b, n / 2) == (b * b) * power(b * b, (n / 2 - 1) as nat));
        if n % 2 == 0 {
            assert(b * (b * power(b * b, (n / 2 - 1) as nat)) == (b * b) * power(
                b * b,
                (n / 2 - 1) as nat,
            )) by (nonlinear_arith);
        } else {
            assert(b * (b * (b * power(b * b, (n / 2 - 1) as nat))) == b * ((b * b) * power(
                b * b,
                (n / 2 - 1) as nat,
            ))) by (nonlinear_arith);
        }
    } else if n == 1 {
        assert(power(b, 1) == b * power(b, 0));
        assert(power(b * b, 0) == 1);
    }
}

/// The quotient rounded toward zero leaves a remainder that is smaller
/// than the divisor and has the sign of the dividend.
pub proof fn lemma_truncated_quotient(a: int, b: int)
    requires
        b != 0,
    ensures
        ({
            let r = a - truncated_quotient(a, b) * b;
            &&& (a >= 0 ==> 0 <= r)
            &&& (a <= 0 ==> r <= 0)
            &&& (b > 0 ==> -b < r < b)
            &&& (b < 0 ==> b < r < -b)
        }),
{
    if a >= 0 && b > 0 {
        vstd::arithmetic::div_mod::lemma_fundamental_div_mod(a, b);
        vstd::arithmetic::div_mod::lemma_mod_bound(a, b);
        assert((a / b) * b == b * (a / b)) by (nonlinear_arith);
    } else if a < 0 && b < 0 {
        vstd::arithmetic::div_mod::lemma_fundamental_div_mod(-a, -b);
        vstd::arithmetic::div_mod::lemma_mod_bound(-a, -b);
        assert(((-a) / (-b)) * b == -((-b) * ((-a) / (-b)))) by (nonlinear_arith);
    } else if a < 0 {
        vstd::arithmetic::div_mod::lemma_fundamental_div_mod(-a, b);
        vstd::arithmetic::div_mod::lemma_mod_bound(-a, b);
        assert((-((-a) / b)) * b == -(b * ((-a) / b))) by (nonlinear_arith);
    } else {
        vstd::arithmetic::div_mod::lemma_fundamental_div_mod(a, -b);
        vstd::arithmetic::div_mod::lemma_mod_bound(a, -b);
        assert((-(a / (-b))) * b == (-b) * (a / (-b))) by (nonlinear_arith);
    }
}

/// The sum of two integers, wrapped around.
pub fn wrapping_sum(l: i64, r: i64) -> (s: i64)
    ensures
        s == wrap64(l + r),
{
    l.wrapping_add(r)
}

/// The difference of two integers, wrapped around.
pub fn wrapping_difference(l: i64, r: i64) -> (d: i64)
    ensures
        d == wrap64(l - r),
{
    l.wrapping_sub(r)
}

/// The product of two integers, wrapped around.
pub fn wrapping_product(l: i64, r: i64) -> (p: i64)
    ensures
        p == wrap64(l * r),
{
    l.wrapping_mul(r)
}

/// The quotient of two integers, rounded toward zero and wrapped around.
pub fn wrapping_quotient(l: i64, r: i64) -> (q: i64)
    requires
        r != 0,
    ensures
        q == wrap64(truncated_quotient(l as int, r as int)),
{
    proof {
        lemma_truncated_quotient(l as int, r as int);
    }
    match l.checked_div(r) {
        Some(q) => {
            proof {
                lemma_wrap64_idempotent(q as int);
            }
            q
        },
        None => i64::MIN,
    }
}

/// An integer raised to a power that is not negative, wrapped around.
pub fn wrapping_power(base: i64, exponent: i64) -> (p: i64)
    requires
        exponent >= 0,
    ensures
        p == wrap64(power(base as int, exponent as nat)),
{
    let mut result: i64 = 1;
    let mut b: i64 = base;
    let mut e: u64 = exponent as u64;
    proof {
        assert(1 * power(base as int, exponent as nat) == power(base as int, exponent as nat));
    }
    while e > 0
        invariant
            wrap64(result * power(b as int, e as nat)) == wrap64(
                power(base as int, exponent as nat),
            ),
        decreases e,
    {
        let ghost old_result = result as int;
        let ghost old_b = b as int;
        let ghost old_e = e as nat;
        let ghost half = (old_e / 2) as nat;
        let odd = e % 2 == 1;
        if odd {
            result = result.wrapping_mul(b);
        }
        b = b.wrapping_mul(b);
        e = e / 2;
        proof {
            lemma_power_halves(old_b, old_e);
            lemma_wrap64_idempotent(old_b * old_b);
            lemma_power_congruent(b as int, old_b * old_b, half);
            if odd {
                lemma_wrap64_idempotent(old_result * old_b);
                lemma_wrap64_mul_congruent(
                    result as int,
                    old_result * old_b,
                    power(b as int, half),
                    power(old_b * old_b, half),
                );
                assert((old_result * old_b) * power(old_b * old_b, half) == old_result * (old_b
                    * power(old_b * old_b, half))) by (nonlinear_arith);
            } else {
                lemma_wrap64_mul_congruent(
                    result as int,
                    old_result,
                    power(b as int, half),
                    power(old_b * old_b, half),
                );
            }
        }
    }
    proof {
        assert(power(b as int, 0) == 1);
        assert(result * 1 == result);
        lemma_wrap64_idempotent(result as int);
    }
    result
}

} // verus!
