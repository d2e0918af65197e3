//! Karatsuba multiplication of signed 64-bit integers, splitting the operands
//! by decimal digits.

use vstd::arithmetic::div_mod::{
    lemma_div_non_zero,
    lemma_div_pos_is_pos,
    lemma_fundamental_div_mod,
    lemma_mod_pos_bound,
};
use vstd::arithmetic::mul::{lemma_mul_nonnegative, lemma_mul_upper_bound};
use vstd::arithmetic::power::{lemma_pow0, lemma_pow_adds, lemma_pow_increases, pow};
use vstd::prelude::*;

verus! {

/// The number of decimal digits of `x`; zero has one digit.
pub open spec fn digit_count(x: nat) -> nat
    decreases x,
{
    if x < 10 {
        1
    } else {
        1 + digit_count(x / 10)
    }
}

/// The largest exponent `e` for which `10^e` fits in an `i64`.
pub const MAX_POW10_EXPONENT: u32 = 18;

/// A number with `d` digits lies below `10^d`, and, unless it is zero, at or
/// above `10^(d-1)`.
pub proof fn lemma_digit_count_bounds(x: nat)
    ensures
        digit_count(x) >= 1,
        x < pow(10, digit_count(x)),
        x > 0 ==> pow(10, (digit_count(x) - 1) as nat) <= x,
    decreases x,
{
    reveal_with_fuel(pow, 2);
    if x >= 10 {
        lemma_digit_count_bounds(x / 10);
    }
}

/// The powers of ten at the edge of the `i64` range.
pub proof fn lemma_pow10_i64_boundary()
    ensures
        pow(10, 9) == 1_000_000_000,
        pow(10, 18) == 1_000_000_000_000_000_000,
        pow(10, 19) == 10_000_000_000_000_000_000,
{
    assert(pow(10, 9) == 1_000_000_000) by {
        reveal_with_fuel(pow, 10);
    }
    lemma_pow_adds(10, 9, 9);
    lemma_pow_adds(10, 18, 1);
    assert(pow(10, 1) == 10) by {
        reveal_with_fuel(pow, 2);
    }
}

/// No non-negative `i64` has more than nineteen digits.
pub proof fn lemma_digit_count_i64(x: i64)
    requires
        x >= 0,
    ensures
        1 <= digit_count(x as nat) <= 19,
{
    let d = digit_count(x as nat);
    lemma_digit_count_bounds(x as nat);
    lemma_pow10_i64_boundary();
    if d >= 20 {
        lemma_pow_increases(10, 19, (d - 1) as nat);
    }
}

/// Counts the decimal digits of a non-negative integer.
pub fn decimal_digits(x: i64) -> (count: u32)
    requires
        x >= 0,
    ensures
        count == digit_count(x as nat),
        1 <= count <= 19,
{
    proof {
        lemma_digit_count_i64(x);
    }
    let mut rest: i64 = x;
    let mut count: u32 = 1;
    while rest >= 10
        invariant
            0 <= rest <= x,
            count >= 1,
            digit_count(x as nat) <= 19,
            count - 1 + digit_count(rest as nat) == digit_count(x as nat),
        decreases rest,
    {
        rest = rest / 10;
        count = count + 1;
    }
    count
}

/// Computes `10^exponent`.
pub fn pow10(exponent: u32) -> (result: i64)
    requires
        exponent <= MAX_POW10_EXPONENT,
    ensures
        result == pow(10, exponent as nat),
        1 <= result <= 1_000_000_000_000_000_000,
{
    let mut result: i64 = 1;
    let mut done: u32 = 0;
    proof {
        lemma_pow0(10);
        lemma_pow10_i64_boundary();
    }
    while done < exponent
        invariant
            done <= exponent <= MAX_POW10_EXPONENT,
            result == pow(10, done as nat),
            1 <= result <= pow(10, 18) == 1_000_000_000_000_000_000,
        decreases exponent - done,
    {
        proof {
            reveal(pow);
            lemma_pow_increases(10, (done + 1) as nat, 18);
        }
        result = result * 10;
        done = done + 1;
    }
    result
}

/// Splitting a non-negative `x` at a power `p` of the base: the high and low
/// parts are non-negative, put `x` together again, and sum to no more than
/// `x`; where `x` reaches `p`, the high part is positive and the sum is
/// smaller than `x`.
pub proof fn lemma_split(x: int, p: int)
    requires
        0 <= x,
        2 <= p,
    ensures
        0 <= x / p <= x,
        0 <= x % p < p,
        x == (x / p) * p + x % p,
        x / p + x % p <= x,
        p <= x ==> 1 <= x / p && x / p + x % p < x,
{
    lemma_fundamental_div_mod(x, p);
    lemma_mod_pos_bound(x, p);
    lemma_div_pos_is_pos(x, p);
    if p <= x {
        lemma_div_non_zero(x, p);
    }
    let h = x / p;
    assert(p * h == h * p && h * p >= 2 * h) by (nonlinear_arith)
        requires
            0 <= h,
            2 <= p,
    ;
}

/// The identity behind the algorithm: with `z2`, `z1` and `z0` the three
/// sub-products, the product of the operands is `z2 * p^2 + z1 * p + z0`,
/// and no term of that sum is negative.
pub proof fn lemma_recombine(xh: int, xl: int, yh: int, yl: int, p: int)
    requires
        0 <= xh,
        0 <= xl,
        0 <= yh,
        0 <= yl,
        0 <= p,
    ensures
        ({
            let z2 = xh * yh;
            let z0 = xl * yl;
            let z1 = (xh + xl) * (yh + yl) - z2 - z0;
            &&& 0 <= z2
            &&& 0 <= z0
            &&& 0 <= z1
            &&& 0 <= z2 * (p * p)
            &&& 0 <= z1 * p
            &&& (xh * p + xl) * (yh * p + yl) == z2 * (p * p) + z1 * p + z0
        }),
{
    let z2 = xh * yh;
    let z0 = xl * yl;
    let z1 = (xh + xl) * (yh + yl) - z2 - z0;
    assert(z1 == xh * yl + xl * yh) by (nonlinear_arith)
        requires
            z1 == (xh + xl) * (yh + yl) - xh * yh - xl * yl,
    ;
    lemma_mul_nonnegative(xh, yh);
    lemma_mul_nonnegative(xl, yl);
    lemma_mul_nonnegative(xh, yl);
    lemma_mul_nonnegative(xl, yh);
    lemma_mul_nonnegative(p, p);
    lemma_mul_nonnegative(z2, p * p);
    lemma_mul_nonnegative(z1, p);
    let a = xh * p;
    let b = yh * p;
    assert((a + xl) * (b + yl) == a * b + a * yl + xl * b + xl * yl) by (nonlinear_arith);
    assert(a * b == (xh * yh) * (p * p)) by (nonlinear_arith)
        requires
            a == xh * p,
            b == yh * p,
    ;
    assert(a * yl + xl * b == (xh * yl + xl * yh) * p) by (nonlinear_arith)
        requires
            a == xh * p,
            b == yh * p,
    ;
}

/// The number of digits that go to the low part of each operand: half the
/// digits of the longer one, rounded down.
pub open spec fn split_digits(x: nat, y: nat) -> nat {
    if digit_count(x) >= digit_count(y) {
        digit_count(x) / 2
    } else {
        digit_count(y) / 2
    }
}

/// Two operands of two digits or more are split at a power of ten that is at
/// least ten and that the longer of them reaches.
pub proof fn lemma_split_point(x: nat, y: nat)
    requires
        10 <= x,
        10 <= y,
    ensures
        ({
            let m = split_digits(x, y);
            let p = pow(10, m);
            &&& 1 <= m
            &&& 10 <= p
            &&& p <= x || p <= y
            &&& pow(10, 2 * m) == p * p
        }),
{
    let m = split_digits(x, y);
    assert(digit_count(x) >= 2 && digit_count(y) >= 2) by {
        reveal_with_fuel(digit_count, 2);
    }
    assert(pow(10, 1) == 10) by {
        reveal_with_fuel(pow, 2);
    }
    lemma_digit_count_bounds(x);
    lemma_digit_count_bounds(y);
    lemma_pow_increases(10, 1, m);
    if digit_count(x) >= digit_count(y) {
        lemma_pow_increases(10, m, (digit_count(x) - 1) as nat);
    } else {
        lemma_pow_increases(10, m, (digit_count(y) - 1) as nat);
    }
    lemma_pow_adds(10, m, m);
}

/// The value that the Karatsuba scheme arrives at, over the unbounded
/// integers.
///
/// An operand below ten ends the recursion. Otherwise, with `m` the number of
/// low digits and `p = 10^m`, each operand is split into `high * p + low`,
/// and the value is `z2 * 10^(2m) + z1 * p + z0`, where `z2` is the scheme's
/// value on the high parts, `z0` on the low parts, and `z1` on the sums of
/// high and low part, less `z2` and `z0`.
pub open spec fn karatsuba_scheme(x: int, y: int) -> int
    decreases
        (if x >= 10 && y >= 10 {
            x + y
        } else {
            0
        }),
{
    if x < 10 || y < 10 {
        x * y
    } else {
        let m = split_digits(x as nat, y as nat);
        let p = pow(10, m);
        proof {
            lemma_split_point(x as nat, y as nat);
            lemma_split(x, p);
            lemma_split(y, p);
        }
        let z2 = karatsuba_scheme(x / p, y / p);
        let z0 = karatsuba_scheme(x % p, y % p);
        let z1 = karatsuba_scheme(x / p + x % p, y / p + y % p) - z2 - z0;
        z2 * pow(10, 2 * m) + z1 * p + z0
    }
}

/// An operand below ten ends the scheme at once: its value is then the
/// product itself, and no sub-product is taken.
pub proof fn lemma_karatsuba_scheme_base(x: int, y: int)
    requires
        x < 10 || y < 10,
    ensures
        karatsuba_scheme(x, y) == x * y,
{
}

/// The scheme multiplies: its value is the product of the operands, for
/// every pair of integers.
pub proof fn lemma_karatsuba_scheme_is_product(x: int, y: int)
    ensures
        karatsuba_scheme(x, y) == x * y,
    decreases
        (if x >= 10 && y >= 10 {
            x + y
        } else {
            0
        }),
{
    if x >= 10 && y >= 10 {
        let m = split_digits(x as nat, y as nat);
        let p = pow(10, m);
        lemma_split_point(x as nat, y as nat);
        lemma_split(x, p);
        lemma_split(y, p);
        lemma_karatsuba_scheme_is_product(x / p, y / p);
        lemma_karatsuba_scheme_is_product(x % p, y % p);
        lemma_karatsuba_scheme_is_product(x / p + x % p, y / p + y % p);
        lemma_recombine(x / p, x % p, y / p, y % p, p);
    }
}

/// Multiplies two integers by the Karatsuba scheme.
///
/// An operand below ten, and so every negative one, is multiplied directly.
/// Otherwise both operands are split at half the digits of the longer one,
/// `m`, into a high and a low part, and the product is put together from
/// three smaller products: `z2 * 10^(2m) + z1 * 10^m + z0`.
///
/// The only demand is that the product itself fits in an `i64`: no step on
/// the way then leaves the range.
pub fn karatsuba(x: i64, y: i64) -> (result: i64)
    requires
        i64::MIN <= x * y <= i64::MAX,
    ensures
        result == x * y,
        result == karatsuba_scheme(x as int, y as int),
    decreases x + y,
{
    proof {
        lemma_karatsuba_scheme_is_product(x as int, y as int);
    }
    if x < 10 || y < 10 {
        return x * y;
    }
    let x_digits: u32 = decimal_digits(x);
    let y_digits: u32 = decimal_digits(y);
    let n: u32 = if x_digits >= y_digits {
        x_digits
    } else {
        y_digits
    };
    let m: u32 = n / 2;
    proof {
        lemma_split_point(x as nat, y as nat);
    }
    let p: i64 = pow10(m);
    let p_squared: i64 = pow10(2 * m);
    proof {
        lemma_split(x as int, p as int);
        lemma_split(y as int, p as int);
    }
    let x_high: i64 = x / p;
    let x_low: i64 = x % p;
    let y_high: i64 = y / p;
    let y_low: i64 = y % p;
    proof {
        lemma_recombine(x_high as int, x_low as int, y_high as int, y_low as int, p as int);
        lemma_mul_upper_bound(x_high as int, x as int, y_high as int, y as int);
        lemma_mul_upper_bound(x_low as int, x as int, y_low as int, y as int);
        lemma_mul_upper_bound(x_high + x_low, x as int, y_high + y_low, y as int);
    }
    let z2: i64 = karatsuba(x_high, y_high);
    let z0: i64 = karatsuba(x_low, y_low);
    let z1: i64 = karatsuba(x_high + x_low, y_high + y_low) - z2 - z0;
    z2 * p_squared + z1 * p + z0
}

/// The product is a function of the operands: two calls on one pair cannot
/// return different values.
pub proof fn lemma_karatsuba_deterministic(x: i64, y: i64, first: i64, second: i64)
    requires
        call_requires(karatsuba, (x, y)),
        call_ensures(karatsuba, (x, y), first),
        call_ensures(karatsuba, (x, y), second),
    ensures
        first == second,
{
}

} // verus!
