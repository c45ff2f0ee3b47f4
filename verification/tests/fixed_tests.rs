use klapit::fixed::{
    fx_add, fx_mul, fx_mul_div, fx_sub, integer_sqrt, round_to_precision, rounded_quotient,
    saturate, LIMIT, SCALE, SQRT_ARG_MAX,
};

#[test]
fn rounded_quotient_rounds_to_nearest() {
    assert_eq!(rounded_quotient(7, 2), 4);
    assert_eq!(rounded_quotient(6, 4), 2);
    assert_eq!(rounded_quotient(5, 4), 1);
    assert_eq!(rounded_quotient(4, 10), 0);
    assert_eq!(rounded_quotient(6, 10), 1);
    assert_eq!(rounded_quotient(0, 3), 0);
    assert_eq!(rounded_quotient(12, 3), 4);
}

#[test]
fn rounded_quotient_sends_ties_away_from_zero() {
    assert_eq!(rounded_quotient(5, 10), 1);
    assert_eq!(rounded_quotient(-5, 10), -1);
    assert_eq!(rounded_quotient(15, 10), 2);
    assert_eq!(rounded_quotient(-15, 10), -2);
    assert_eq!(rounded_quotient(-7, 2), -4);
    assert_eq!(rounded_quotient(-4, 10), 0);
}

#[test]
fn rounded_quotient_takes_the_widest_numerators() {
    assert_eq!(rounded_quotient(i128::MAX, 1), i128::MAX);
    assert_eq!(rounded_quotient(i128::MIN + 1, 1), i128::MIN + 1);
    assert_eq!(rounded_quotient(i128::MAX, i128::MAX), 1);
    assert_eq!(rounded_quotient(i128::MAX, 2), i128::MAX / 2 + 1);
}

#[test]
fn saturate_holds_values_to_the_limit() {
    assert_eq!(saturate(0), 0);
    assert_eq!(saturate(LIMIT as i128), LIMIT);
    assert_eq!(saturate(LIMIT as i128 + 1), LIMIT);
    assert_eq!(saturate(-(LIMIT as i128) - 1), -LIMIT);
    assert_eq!(saturate(i128::MAX), LIMIT);
    assert_eq!(saturate(i128::MIN), -LIMIT);
    assert_eq!(saturate(-123_456), -123_456);
}

#[test]
fn sums_and_differences_saturate() {
    assert_eq!(fx_add(1_500_000, 2_250_000), 3_750_000);
    assert_eq!(fx_sub(1_500_000, 2_250_000), -750_000);
    assert_eq!(fx_add(LIMIT, 1), LIMIT);
    assert_eq!(fx_sub(-LIMIT, 1), -LIMIT);
    assert_eq!(fx_add(i64::MAX, i64::MAX), LIMIT);
    assert_eq!(fx_sub(i64::MIN, i64::MAX), -LIMIT);
}

#[test]
fn products_are_rounded_to_the_nearest_millionth() {
    // 1.5 * 2.5 = 3.75
    assert_eq!(fx_mul(1_500_000, 2_500_000), 3_750_000);
    // 0.000001 * 0.5 = 0.0000005, a tie that goes away from zero
    assert_eq!(fx_mul(1, 500_000), 1);
    assert_eq!(fx_mul(-1, 500_000), -1);
    // 0.000001 * 0.499999 rounds to zero
    assert_eq!(fx_mul(1, 499_999), 0);
    // -60 degrees a second over 16 milliseconds
    assert_eq!(fx_mul(-60_000_000, 16_000), -960_000);
    assert_eq!(fx_mul(SCALE, 7), 7);
}

#[test]
fn products_saturate() {
    assert_eq!(fx_mul(LIMIT, LIMIT), LIMIT);
    assert_eq!(fx_mul(-LIMIT, LIMIT), -LIMIT);
    assert_eq!(fx_mul(i64::MIN, i64::MIN), LIMIT);
    assert_eq!(fx_mul(i64::MIN, i64::MAX), -LIMIT);
}

#[test]
fn mul_div_rounds_once() {
    // 24.525 * 0.01 / 2.5 = 0.0981
    assert_eq!(fx_mul_div(-24_525_000, 10_000, 2_500_000), -98_100);
    // 1 * 1 / 3 = 0.333...
    assert_eq!(fx_mul_div(1, 1, 3), 0);
    assert_eq!(fx_mul_div(1, 2, 3), 1);
    assert_eq!(fx_mul_div(7, 3, 2), 11);
    assert_eq!(fx_mul_div(i64::MAX, i64::MAX, 1), LIMIT);
}

#[test]
fn round_to_precision_keeps_the_asked_digits() {
    // 1.234567 to two digits
    assert_eq!(round_to_precision(1_234_567, 2), 1_230_000);
    // 1.235 to two digits: a tie, away from zero
    assert_eq!(round_to_precision(1_235_000, 2), 1_240_000);
    assert_eq!(round_to_precision(-1_235_000, 2), -1_240_000);
    assert_eq!(round_to_precision(1_234_567, 0), 1_000_000);
    assert_eq!(round_to_precision(1_500_000, 0), 2_000_000);
    assert_eq!(round_to_precision(1_234_567, 5), 1_234_570);
    // to tens: precision -1
    assert_eq!(round_to_precision(14_999_999, -1), 10_000_000);
    assert_eq!(round_to_precision(15_000_000, -1), 20_000_000);
}

#[test]
fn round_to_precision_at_full_precision_changes_nothing() {
    assert_eq!(round_to_precision(3_535_534, 6), 3_535_534);
    assert_eq!(round_to_precision(-1, 6), -1);
    assert_eq!(round_to_precision(LIMIT, 6), LIMIT);
    assert_eq!(round_to_precision(123, 7), 123);
    assert_eq!(round_to_precision(-LIMIT, i32::MAX), -LIMIT);
}

#[test]
fn round_to_precision_is_idempotent() {
    let values = vec![0, 1, -1, 499_999, 500_000, 1_234_567, -9_876_543, LIMIT, -LIMIT];
    let precisions = vec![6, 5, 3, 0, -1, -6, -7, 9, i32::MIN];
    for value in &values {
        for precision in &precisions {
            let once = round_to_precision(*value, *precision);
            assert_eq!(round_to_precision(once, *precision), once);
        }
    }
}

#[test]
fn round_to_precision_with_coarse_units() {
    // units of a million whole units
    assert_eq!(round_to_precision(LIMIT, -6), LIMIT);
    assert_eq!(round_to_precision(LIMIT / 2, -6), LIMIT);
    assert_eq!(round_to_precision(LIMIT / 2 - 1, -6), 0);
    // units beyond the limit
    assert_eq!(round_to_precision(LIMIT, -7), 0);
    assert_eq!(round_to_precision(-LIMIT, -20), 0);
    assert_eq!(round_to_precision(LIMIT, i32::MIN), 0);
}

#[test]
fn integer_sqrt_of_small_numbers() {
    assert_eq!(integer_sqrt(0), 0);
    assert_eq!(integer_sqrt(1), 1);
    assert_eq!(integer_sqrt(2), 1);
    assert_eq!(integer_sqrt(3), 1);
    assert_eq!(integer_sqrt(4), 2);
    assert_eq!(integer_sqrt(99), 9);
    assert_eq!(integer_sqrt(100), 10);
}

#[test]
fn integer_sqrt_of_large_numbers() {
    assert_eq!(integer_sqrt(1_000_000_000_000), 1_000_000);
    assert_eq!(integer_sqrt(999_999_999_999), 999_999);
    // the square root of two, scaled
    assert_eq!(integer_sqrt(2_000_000_000_000), 1_414_213);
    assert_eq!(integer_sqrt(SQRT_ARG_MAX), (1u128 << 63) - 1);
    let root = integer_sqrt(SQRT_ARG_MAX - 12345);
    assert!(root * root <= SQRT_ARG_MAX - 12345);
    assert!((root + 1) * (root + 1) > SQRT_ARG_MAX - 12345);
}
