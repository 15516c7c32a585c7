use raymarching::fixed::{
    fx_abs, fx_add, fx_clamp, fx_div, fx_max, fx_min, fx_mul, fx_neg, fx_powi, fx_sub,
    is_in_range, isqrt, round_div, saturate, LIMIT, ONE, ONE_SQUARED,
};

#[test]
fn quotients_rounded_to_the_nearest() {
    assert_eq!(round_div(7, 2), 4);
    assert_eq!(round_div(-7, 2), -4);
    assert_eq!(round_div(6, 4), 2);
    assert_eq!(round_div(5, 4), 1);
    assert_eq!(round_div(-5, 4), -1);
    assert_eq!(round_div(-6, 4), -2);
    assert_eq!(round_div(0, 9), 0);
    assert_eq!(round_div(1_000_000_000_000, 1_414_213), 707_107);
}

#[test]
fn one_squared_is_the_square_of_one() {
    assert_eq!(ONE_SQUARED, (ONE as i128) * (ONE as i128));
}

#[test]
fn sums_and_differences_are_exact_within_range() {
    assert_eq!(fx_add(1_500_000, 2_250_000), 3_750_000);
    assert_eq!(fx_sub(1_500_000, 2_250_000), -750_000);
    assert_eq!(fx_neg(750_000), -750_000);
}

#[test]
fn sums_saturate_at_the_limit() {
    assert_eq!(fx_add(LIMIT, 1), LIMIT);
    assert_eq!(fx_add(-LIMIT, -1), -LIMIT);
    assert_eq!(fx_sub(-LIMIT, LIMIT), -LIMIT);
    assert_eq!(fx_add(i64::MAX, i64::MAX), LIMIT);
    assert_eq!(fx_neg(i64::MIN), LIMIT);
    assert_eq!(saturate(i128::MAX), LIMIT);
    assert_eq!(saturate(i128::MIN), -LIMIT);
}

#[test]
fn products_round_toward_zero() {
    // 1.5 * 2.5 = 3.75
    assert_eq!(fx_mul(1_500_000, 2_500_000), 3_750_000);
    // 0.000001 * 0.5 = 0.0000005, which rounds to 0 from either side
    assert_eq!(fx_mul(1, 500_000), 0);
    assert_eq!(fx_mul(-1, 500_000), 0);
    // 0.000003 * 0.5 = 0.0000015
    assert_eq!(fx_mul(3, 500_000), 1);
    assert_eq!(fx_mul(-3, 500_000), -1);
    assert_eq!(fx_mul(3, -500_000), -1);
}

#[test]
fn products_saturate() {
    assert_eq!(fx_mul(LIMIT, LIMIT), LIMIT);
    assert_eq!(fx_mul(LIMIT, -LIMIT), -LIMIT);
    assert_eq!(fx_mul(i64::MIN, i64::MIN), LIMIT);
    assert_eq!(fx_mul(i64::MIN, i64::MAX), -LIMIT);
}

#[test]
fn quotients_round_toward_zero() {
    assert_eq!(fx_div(ONE, 4 * ONE), 250_000);
    assert_eq!(fx_div(ONE, 3 * ONE), 333_333);
    assert_eq!(fx_div(-ONE, 3 * ONE), -333_333);
    assert_eq!(fx_div(ONE, -3 * ONE), -333_333);
    assert_eq!(fx_div(-ONE, -3 * ONE), 333_333);
    assert_eq!(fx_div(2 * ONE, 3 * ONE), 666_666);
}

#[test]
fn division_by_zero_saturates_by_the_sign_of_the_numerator() {
    assert_eq!(fx_div(5, 0), LIMIT);
    assert_eq!(fx_div(-5, 0), -LIMIT);
    assert_eq!(fx_div(0, 0), 0);
}

#[test]
fn quotients_saturate() {
    assert_eq!(fx_div(LIMIT, 1), LIMIT);
    assert_eq!(fx_div(-LIMIT, 1), -LIMIT);
    assert_eq!(fx_div(i64::MIN, -1), LIMIT);
}

#[test]
fn clamp_min_max_and_abs() {
    assert_eq!(fx_clamp(-5, 0, ONE), 0);
    assert_eq!(fx_clamp(ONE + 5, 0, ONE), ONE);
    assert_eq!(fx_clamp(17, 0, ONE), 17);
    assert_eq!(fx_min(3, -4), -4);
    assert_eq!(fx_max(3, -4), 3);
    assert_eq!(fx_abs(-7), 7);
    assert_eq!(fx_abs(7), 7);
    assert_eq!(fx_abs(i64::MIN), LIMIT);
}

#[test]
fn range_check_is_inclusive() {
    assert!(is_in_range(LIMIT));
    assert!(is_in_range(-LIMIT));
    assert!(!is_in_range(LIMIT + 1));
    assert!(!is_in_range(-LIMIT - 1));
}

#[test]
fn integer_powers() {
    assert_eq!(fx_powi(123_456, 0), ONE);
    assert_eq!(fx_powi(123_456, 1), 123_456);
    assert_eq!(fx_powi(2 * ONE, 10), 1024 * ONE);
    assert_eq!(fx_powi(500_000, 3), 125_000);
    // 0.9^2 = 0.81, 0.9^3 = 0.729
    assert_eq!(fx_powi(900_000, 3), 729_000);
    assert_eq!(fx_powi(-2 * ONE, 3), -8 * ONE);
}

#[test]
fn square_roots_round_down() {
    assert_eq!(isqrt(0), 0);
    assert_eq!(isqrt(1), 1);
    assert_eq!(isqrt(3), 1);
    assert_eq!(isqrt(4), 2);
    assert_eq!(isqrt(24), 4);
    assert_eq!(isqrt(25), 5);
    assert_eq!(isqrt(1_000_000_000_000), 1_000_000);
    assert_eq!(isqrt(999_999_999_999), 999_999);
    assert_eq!(isqrt(u128::MAX), u64::MAX as u128);
}

#[test]
fn square_root_brackets_its_argument() {
    for n in [2u128, 10, 99, 12_345_678_987_654_321, 3_000_000_000_000_000_000_000_000_000_000_000_000] {
        let r = isqrt(n);
        assert!(r * r <= n);
        assert!((r + 1) * (r + 1) > n);
    }
}
