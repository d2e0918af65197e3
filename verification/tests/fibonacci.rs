use numeric_routines::fibonacci::{fib, fib_iterative, MAX_FIB_INDEX};

const FIRST_TERMS: [i32; 21] = [
    0, 1, 1, 2, 3, 5, 8, 13, 21, 34, 55, 89, 144, 233, 377, 610, 987, 1597, 2584, 4181, 6765,
];

#[test]
fn fib_test_fib_base_cases() {
    assert_eq!(fib(0), 0);
    assert_eq!(fib(1), 1);
}

#[test]
fn fib_test_fib_small_values() {
    assert_eq!(fib(2), 1);
    assert_eq!(fib(3), 2);
    assert_eq!(fib(4), 3);
    assert_eq!(fib(5), 5);
    assert_eq!(fib(6), 8);
}

#[test]
fn fib_test_fib_larger_values() {
    assert_eq!(fib(10), 55);
    assert_eq!(fib(15), 610);
    assert_eq!(fib(20), 6765);
}

#[test]
fn fib_iterative_test_fib_base_cases() {
    assert_eq!(fib_iterative(0), 0);
    assert_eq!(fib_iterative(1), 1);
}

#[test]
fn fib_iterative_test_fib_small_values() {
    assert_eq!(fib_iterative(2), 1);
    assert_eq!(fib_iterative(3), 2);
    assert_eq!(fib_iterative(4), 3);
    assert_eq!(fib_iterative(5), 5);
    assert_eq!(fib_iterative(6), 8);
}

#[test]
fn fib_iterative_test_fib_larger_values() {
    assert_eq!(fib_iterative(10), 55);
    assert_eq!(fib_iterative(15), 610);
    assert_eq!(fib_iterative(20), 6765);
}

#[test]
fn both_forms_give_the_first_terms() {
    for (n, expected) in FIRST_TERMS.iter().enumerate() {
        assert_eq!(fib(n as i32), *expected);
        assert_eq!(fib_iterative(n as i32), *expected);
    }
}

#[test]
fn both_forms_agree_up_to_thirty() {
    for n in 0..=30 {
        assert_eq!(fib(n), fib_iterative(n));
    }
    assert_eq!(fib(30), 832040);
}

#[test]
fn iterative_form_obeys_the_recurrence_on_its_whole_domain() {
    for n in 2..=MAX_FIB_INDEX {
        assert_eq!(fib_iterative(n), fib_iterative(n - 1) + fib_iterative(n - 2));
    }
}

#[test]
fn iterative_form_reaches_the_last_index() {
    assert_eq!(MAX_FIB_INDEX, 46);
    assert_eq!(fib_iterative(45), 1134903170);
    assert_eq!(fib_iterative(46), 1836311903);
    // The next term, 2971215073, is beyond i32::MAX.
    assert!(1134903170_i64 + 1836311903_i64 > i32::MAX as i64);
}

#[test]
fn fibonacci_calls_repeat_their_results() {
    for n in [0, 1, 2, 17, 25] {
        assert_eq!(fib(n), fib(n));
        assert_eq!(fib_iterative(n), fib_iterative(n));
    }
}
