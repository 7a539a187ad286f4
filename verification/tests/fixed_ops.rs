use raytracer::fixed::{fx_add, fx_div, fx_mul, fx_neg, fx_pow, fx_sqrt, fx_sub, SCALE};

#[test]
fn add_and_sub_are_exact_in_range() {
    assert_eq!(fx_add(3 * SCALE, 2 * SCALE), 5 * SCALE);
    assert_eq!(fx_sub(3 * SCALE, 5 * SCALE), -2 * SCALE);
}

#[test]
fn add_saturates_at_the_extremes() {
    assert_eq!(fx_add(i64::MAX, 1), i64::MAX);
    assert_eq!(fx_add(i64::MIN, -1), i64::MIN);
    assert_eq!(fx_sub(i64::MIN, 1), i64::MIN);
    assert_eq!(fx_neg(i64::MIN), i64::MAX);
}

#[test]
fn mul_matches_fixed_point_semantics() {
    assert_eq!(fx_mul(3 * SCALE, 2 * SCALE), 6 * SCALE);
    assert_eq!(fx_mul(-3 * SCALE, 2 * SCALE), -6 * SCALE);
    assert_eq!(fx_mul(-3 * SCALE, -2 * SCALE), 6 * SCALE);
    // 1/65536 * 1/65536 truncates to zero.
    assert_eq!(fx_mul(1, 1), 0);
    // half of a half is a quarter
    assert_eq!(fx_mul(SCALE / 2, SCALE / 2), SCALE / 4);
}

#[test]
fn mul_saturates_instead_of_overflowing() {
    assert_eq!(fx_mul(i64::MAX, 2 * SCALE), i64::MAX);
    assert_eq!(fx_mul(i64::MAX, -2 * SCALE), i64::MIN);
}

#[test]
fn div_truncates_toward_zero() {
    assert_eq!(fx_div(SCALE, 2 * SCALE), SCALE / 2);
    // 1/3 in fixed point: 65536/3 == 21845 remainder 1
    assert_eq!(fx_div(SCALE, 3 * SCALE), 21845);
    assert_eq!(fx_div(-SCALE, 3 * SCALE), -21845);
    assert_eq!(fx_div(SCALE, -3 * SCALE), -21845);
}

#[test]
fn sqrt_is_exact_on_perfect_squares() {
    assert_eq!(fx_sqrt(4 * SCALE), 2 * SCALE);
    assert_eq!(fx_sqrt(9 * SCALE), 3 * SCALE);
    assert_eq!(fx_sqrt(0), 0);
    assert_eq!(fx_sqrt(-5), 0);
}

#[test]
fn sqrt_rounds_down() {
    // sqrt(2) * 65536 = 92681.9...
    assert_eq!(fx_sqrt(2 * SCALE), 92681);
}

#[test]
fn pow_repeats_fixed_multiplication() {
    assert_eq!(fx_pow(3 * SCALE, 0), SCALE);
    assert_eq!(fx_pow(3 * SCALE, 2), 9 * SCALE);
    assert_eq!(fx_pow(SCALE / 2, 2), SCALE / 4);
    assert_eq!(fx_pow(0, 3), 0);
}
