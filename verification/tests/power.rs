use numeric_routines::power::recursive_pow;

#[test]
fn test_recursive_pow() {
    assert_eq!(recursive_pow(1, 1), 1);
    assert_eq!(recursive_pow(100, 0), 1);
    assert_eq!(recursive_pow(34, 3), 39304);
    assert_eq!(recursive_pow(2, 10), 1024);
    assert_eq!(recursive_pow(5, 4), 625);
}

#[test]
fn exponent_zero_gives_one() {
    assert_eq!(recursive_pow(0, 0), 1);
    assert_eq!(recursive_pow(-7, 0), 1);
    assert_eq!(recursive_pow(i32::MAX, 0), 1);
    assert_eq!(recursive_pow(i32::MIN, 0), 1);
}

#[test]
fn exponent_one_gives_the_base() {
    assert_eq!(recursive_pow(0, 1), 0);
    assert_eq!(recursive_pow(-7, 1), -7);
    assert_eq!(recursive_pow(i32::MAX, 1), i32::MAX);
    assert_eq!(recursive_pow(i32::MIN, 1), i32::MIN);
}

#[test]
fn bases_of_magnitude_at_most_one() {
    assert_eq!(recursive_pow(0, 5), 0);
    assert_eq!(recursive_pow(0, i32::MAX), 0);
    assert_eq!(recursive_pow(1, i32::MAX), 1);
    assert_eq!(recursive_pow(-1, i32::MAX), -1);
    assert_eq!(recursive_pow(-1, 1000), 1);
}

#[test]
fn negative_bases() {
    assert_eq!(recursive_pow(-2, 2), 4);
    assert_eq!(recursive_pow(-2, 3), -8);
    assert_eq!(recursive_pow(-3, 5), -243);
    assert_eq!(recursive_pow(-10, 9), -1000000000);
}

#[test]
fn even_and_odd_exponents() {
    assert_eq!(recursive_pow(3, 2), 9);
    assert_eq!(recursive_pow(3, 3), 27);
    assert_eq!(recursive_pow(3, 6), 729);
    assert_eq!(recursive_pow(3, 7), 2187);
    assert_eq!(recursive_pow(7, 11), 1977326743);
}

#[test]
fn results_at_the_limits() {
    assert_eq!(recursive_pow(2, 30), 1073741824);
    assert_eq!(recursive_pow(-2, 31), i32::MIN);
    assert_eq!(recursive_pow(46340, 2), 2147395600);
    assert_eq!(recursive_pow(-46340, 2), 2147395600);
    assert_eq!(recursive_pow(1290, 3), 2146689000);
    assert_eq!(recursive_pow(-1290, 3), -2146689000);
}

#[test]
fn recursive_pow_matches_repeated_multiplication() {
    for value in -9..=9 {
        let mut expected: i64 = 1;
        for power in 0..=9 {
            assert_eq!(recursive_pow(value, power) as i64, expected);
            expected *= value as i64;
        }
    }
}

#[test]
fn recursive_pow_calls_repeat_their_results() {
    assert_eq!(recursive_pow(13, 7), recursive_pow(13, 7));
    assert_eq!(recursive_pow(13, 7), 62748517);
}
