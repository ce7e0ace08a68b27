use newton_fractal::math::fixed::{div_toward_zero, saturate_i128, Fixed, SCALE};

fn fx(raw: i64) -> Fixed {
    Fixed::from_raw(raw)
}

#[test]
fn scale_is_one_billion() {
    assert_eq!(SCALE, 1_000_000_000);
    assert_eq!(Fixed::one().raw, 1_000_000_000);
    assert_eq!(Fixed::zero().raw, 0);
}

#[test]
fn from_int_scales_and_saturates() {
    assert_eq!(Fixed::from_int(7).raw, 7_000_000_000);
    assert_eq!(Fixed::from_int(-3).raw, -3_000_000_000);
    assert_eq!(Fixed::from_int(9_223_372_036).raw, 9_223_372_036_000_000_000);
    assert_eq!(Fixed::from_int(9_223_372_037).raw, i64::MAX);
    assert_eq!(Fixed::from_int(i64::MIN).raw, i64::MIN);
}

#[test]
fn from_wide_saturates_far_outside() {
    assert_eq!(Fixed::from_wide(2).raw, 2_000_000_000);
    assert_eq!(Fixed::from_wide(i128::MAX).raw, i64::MAX);
    assert_eq!(Fixed::from_wide(i128::MIN).raw, i64::MIN);
}

#[test]
fn ratio_rounds_toward_zero() {
    assert_eq!(Fixed::ratio(1, 3).raw, 333_333_333);
    assert_eq!(Fixed::ratio(-1, 3).raw, -333_333_333);
    assert_eq!(Fixed::ratio(1, -3).raw, -333_333_333);
    assert_eq!(Fixed::ratio(-2, -3).raw, 666_666_666);
    assert_eq!(Fixed::ratio(1, 2).raw, 500_000_000);
    assert_eq!(Fixed::ratio(25, 100).raw, 250_000_000);
}

#[test]
fn add_and_sub_stop_at_the_ends() {
    assert_eq!(fx(1).add(fx(2)).raw, 3);
    assert_eq!(fx(i64::MAX).add(fx(1)).raw, i64::MAX);
    assert_eq!(fx(i64::MIN).add(fx(-1)).raw, i64::MIN);
    assert_eq!(fx(5).sub(fx(7)).raw, -2);
    assert_eq!(fx(i64::MIN).sub(fx(1)).raw, i64::MIN);
    assert_eq!(fx(i64::MAX).sub(fx(-1)).raw, i64::MAX);
}

#[test]
fn neg_and_abs_of_the_least_value_saturate() {
    assert_eq!(fx(5).neg().raw, -5);
    assert_eq!(fx(i64::MIN).neg().raw, i64::MAX);
    assert_eq!(fx(-5).abs().raw, 5);
    assert_eq!(fx(5).abs().raw, 5);
    assert_eq!(fx(i64::MIN).abs().raw, i64::MAX);
}

#[test]
fn mul_rounds_toward_zero() {
    let third = Fixed::ratio(1, 3);
    assert_eq!(third.mul(Fixed::from_int(3)).raw, 999_999_999);
    assert_eq!(third.neg().mul(Fixed::from_int(3)).raw, -999_999_999);
    assert_eq!(fx(1).mul(fx(999_999_999)).raw, 0);
    assert_eq!(fx(-1).mul(fx(999_999_999)).raw, 0);
    assert_eq!(Fixed::from_int(2).mul(Fixed::ratio(1, 4)).raw, 500_000_000);
}

#[test]
fn mul_saturates() {
    let big = Fixed::from_int(4_000_000_000);
    assert_eq!(big.mul(big).raw, i64::MAX);
    assert_eq!(big.mul(big.neg()).raw, i64::MIN);
    assert_eq!(fx(i64::MIN).mul(fx(i64::MIN)).raw, i64::MAX);
}

#[test]
fn div_rounds_toward_zero_and_saturates() {
    assert_eq!(Fixed::from_int(1).div(Fixed::from_int(3)).raw, 333_333_333);
    assert_eq!(Fixed::from_int(-1).div(Fixed::from_int(3)).raw, -333_333_333);
    assert_eq!(Fixed::from_int(1).div(Fixed::from_int(-3)).raw, -333_333_333);
    assert_eq!(Fixed::from_int(7).div(Fixed::from_int(2)).raw, 3_500_000_000);
    assert_eq!(Fixed::from_int(1_000_000).div(fx(1)).raw, i64::MAX);
    assert_eq!(Fixed::from_int(-1_000_000).div(fx(1)).raw, i64::MIN);
    assert_eq!(fx(i64::MIN).div(fx(-1_000_000_000)).raw, i64::MAX);
}

#[test]
fn helpers_round_and_saturate() {
    assert_eq!(div_toward_zero(-7, 2), -3);
    assert_eq!(div_toward_zero(7, -2), -3);
    assert_eq!(div_toward_zero(-7, -2), 3);
    assert_eq!(div_toward_zero(7, 2), 3);
    assert_eq!(saturate_i128(1 << 70), i64::MAX);
    assert_eq!(saturate_i128(-(1 << 70)), i64::MIN);
    assert_eq!(saturate_i128(-12), -12);
}
