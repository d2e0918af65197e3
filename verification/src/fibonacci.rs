//! Fibonacci numbers, computed by the defining recurrence and by iteration.

use vstd::prelude::*;

verus! {

/// The `n`-th Fibonacci number: `F(0) = 0`, `F(1) = 1`, `F(n) = F(n-1) + F(n-2)`.
pub open spec fn fib_number(n: nat) -> nat
    decreases n,
{
    if n <= 1 {
        n
    } else {
        fib_number((n - 1) as nat) + fib_number((n - 2) as nat)
    }
}

/// The largest index whose Fibonacci number fits in an `i32`.
pub const MAX_FIB_INDEX: i32 = 46;

/// The sequence never decreases.
pub proof fn lemma_fib_monotonic(i: nat, j: nat)
    requires
        i <= j,
    ensures
        fib_number(i) <= fib_number(j),
    decreases j,
{
    if i < j && j >= 2 {
        lemma_fib_monotonic(i, (j - 1) as nat);
    }
}

/// The first twenty-one terms of the sequence.
pub proof fn lemma_fib_first_terms()
    ensures
        fib_number(0) == 0,
        fib_number(1) == 1,
        fib_number(2) == 1,
        fib_number(3) == 2,
        fib_number(4) == 3,
        fib_number(5) == 5,
        fib_number(6) == 8,
        fib_number(7) == 13,
        fib_number(8) == 21,
        fib_number(9) == 34,
        fib_number(10) == 55,
        fib_number(11) == 89,
        fib_number(12) == 144,
        fib_number(13) == 233,
        fib_number(14) == 377,
        fib_number(15) == 610,
        fib_number(16) == 987,
        fib_number(17) == 1597,
        fib_number(18) == 2584,
        fib_number(19) == 4181,
        fib_number(20) == 6765,
{
    reveal_with_fuel(fib_number, 21);
}

/// The last term that fits in an `i32`, and the first that does not.
pub proof fn lemma_fib_i32_boundary()
    ensures
        fib_number(46) == 1836311903,
        fib_number(47) == 2971215073,
{
    lemma_fib_first_terms();
    assert(fib_number(21) == 10946);
    assert(fib_number(22) == 17711);
    assert(fib_number(23) == 28657);
    assert(fib_number(24) == 46368);
    assert(fib_number(25) == 75025);
    assert(fib_number(26) == 121393);
    assert(fib_number(27) == 196418);
    assert(fib_number(28) == 317811);
    assert(fib_number(29) == 514229);
    assert(fib_number(30) == 832040);
    assert(fib_number(31) == 1346269);
    assert(fib_number(32) == 2178309);
    assert(fib_number(33) == 3524578);
    assert(fib_number(34) == 5702887);
    assert(fib_number(35) == 9227465);
    assert(fib_number(36) == 14930352);
    assert(fib_number(37) == 24157817);
    assert(fib_number(38) == 39088169);
    assert(fib_number(39) == 63245986);
    assert(fib_number(40) == 102334155);
    assert(fib_number(41) == 165580141);
    assert(fib_number(42) == 267914296);
    assert(fib_number(43) == 433494437);
    assert(fib_number(44) == 701408733);
    assert(fib_number(45) == 1134903170);
}

/// A Fibonacci number fits in an `i32` exactly when its index is at most
/// `MAX_FIB_INDEX`.
pub proof fn lemma_fib_fits_i32(n: nat)
    ensures
        fib_number(n) <= i32::MAX <==> n <= MAX_FIB_INDEX,
{
    lemma_fib_i32_boundary();
    if n <= 46 {
        lemma_fib_monotonic(n, 46);
    } else {
        lemma_fib_monotonic(47, n);
    }
}

/// Computes the `n`-th Fibonacci number by the defining recurrence.
///
/// This takes a number of steps exponential in `n`; `fib_iterative` returns
/// the same value in linear time.
pub fn fib(n: i32) -> (result: i32)
    requires
        0 <= n <= MAX_FIB_INDEX,
    ensures
        result == fib_number(n as nat),
    decreases n,
{
    if n == 0 {
        0
    } else if n == 1 {
        1
    } else {
        proof {
            lemma_fib_fits_i32(n as nat);
        }
        fib(n - 1) + fib(n - 2)
    }
}

/// Computes the `n`-th Fibonacci number by carrying two consecutive terms
/// from index 2 up to `n`.
pub fn fib_iterative(n: i32) -> (result: i32)
    requires
        0 <= n <= MAX_FIB_INDEX,
    ensures
        result == fib_number(n as nat),
{
    if n == 0 {
        0
    } else if n == 1 {
        1
    } else {
        let mut a: i32 = 0;
        let mut b: i32 = 1;
        let mut i: i32 = 2;
        while i <= n
            invariant
                2 <= i <= n + 1,
                n <= MAX_FIB_INDEX,
                a == fib_number((i - 2) as nat),
                b == fib_number((i - 1) as nat),
            decreases n + 1 - i,
        {
            proof {
                lemma_fib_fits_i32(i as nat);
            }
            let temp: i32 = a + b;
            a = b;
            b = temp;
            i = i + 1;
        }
        b
    }
}

/// The two routines agree: on an index that both accept, whatever `fib` may
/// return equals whatever `fib_iterative` may return.
pub proof fn lemma_fib_forms_agree(n: i32, recursive: i32, iterative: i32)
    requires
        call_requires(fib, (n,)),
        call_requires(fib_iterative, (n,)),
        call_ensures(fib, (n,), recursive),
        call_ensures(fib_iterative, (n,), iterative),
    ensures
        recursive == iterative,
{
}

/// Each routine is a function of its argument: two calls of one routine on
/// one index cannot return different values.
pub proof fn lemma_fib_deterministic(n: i32, first: i32, second: i32)
    requires
        call_requires(fib, (n,)),
        call_requires(fib_iterative, (n,)),
    ensures
        call_ensures(fib, (n,), first) && call_ensures(fib, (n,), second) ==> first == second,
        call_ensures(fib_iterative, (n,), first) && call_ensures(fib_iterative, (n,), second)
            ==> first == second,
{
}

} // verus!
