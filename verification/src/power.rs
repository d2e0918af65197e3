//! Integer powers by repeated squaring.

use vstd::arithmetic::power::{
    lemma0_pow,
    lemma1_pow,
    lemma_pow0,
    lemma_pow1,
    lemma_pow_adds,
    lemma_pow_strictly_increases,
    pow,
};
use vstd::math::abs;
use vstd::prelude::*;

verus! {

/// Whether `x` is the value of some `i32`.
pub open spec fn fits_i32(x: int) -> bool {
    i32::MIN <= x <= i32::MAX
}

/// The magnitude of a power is the power of the magnitude.
pub proof fn lemma_pow_abs(base: int, e: nat)
    ensures
        abs(pow(base, e)) == pow(abs(base) as int, e),
    decreases e,
{
    reveal(pow);
    if e > 0 {
        lemma_pow_abs(base, (e - 1) as nat);
        let rest = pow(base, (e - 1) as nat);
        assert(abs(base * rest) == abs(base) * abs(rest)) by (nonlinear_arith);
    }
}

/// Where a power fits in an `i32`, so does every power of the same base with
/// a smaller exponent.
pub proof fn lemma_lower_power_fits(base: int, e1: nat, e2: nat)
    requires
        e1 <= e2,
        fits_i32(pow(base, e2)),
    ensures
        fits_i32(pow(base, e1)),
{
    if e1 < e2 {
        let magnitude = abs(base);
        lemma_pow_abs(base, e1);
        lemma_pow_abs(base, e2);
        if magnitude >= 2 {
            lemma_pow_strictly_increases(magnitude, e1, e2);
        } else if magnitude == 1 {
            lemma1_pow(e1);
        } else if e1 == 0 {
            lemma_pow0(0);
        } else {
            lemma0_pow(e1);
        }
    }
}

/// Raises `value` to `power` by squaring the power of half the exponent, and
/// multiplying once more by `value` where `power` is odd.
///
/// The exponent is not negative and the result fits in an `i32`: then so does
/// every product on the way.
pub fn recursive_pow(value: i32, power: i32) -> (result: i32)
    requires
        0 <= power,
        fits_i32(pow(value as int, power as nat)),
    ensures
        result == pow(value as int, power as nat),
    decreases power,
{
    if power == 0 {
        proof {
            lemma_pow0(value as int);
        }
        1
    } else if power == 1 {
        proof {
            lemma_pow1(value as int);
        }
        value
    } else {
        let half_power: i32 = power / 2;
        proof {
            lemma_lower_power_fits(value as int, half_power as nat, power as nat);
            lemma_lower_power_fits(value as int, (2 * half_power) as nat, power as nat);
            lemma_pow_adds(value as int, half_power as nat, half_power as nat);
            lemma_pow_adds(value as int, (2 * half_power) as nat, 1);
            lemma_pow1(value as int);
        }
        let half: i32 = recursive_pow(value, half_power);
        let square: i32 = half * half;
        if power % 2 == 0 {
            square
        } else {
            square * value
        }
    }
}

/// The power is a function of base and exponent: two calls on one pair cannot
/// return different values.
pub proof fn lemma_recursive_pow_deterministic(value: i32, power: i32, first: i32, second: i32)
    requires
        call_requires(recursive_pow, (value, power)),
        call_ensures(recursive_pow, (value, power), first),
        call_ensures(recursive_pow, (value, power), second),
    ensures
        first == second,
{
}

} // verus!
