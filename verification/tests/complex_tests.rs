use newton_fractal::math::complex::{Complex, EPSILON_RAW};
use newton_fractal::math::fixed::Fixed;
use newton_fractal::math::trig::{atan2, atan_unit, HALF_PI_RAW, PI_RAW};

fn c(re: i64, im: i64) -> Complex {
    Complex { re: Fixed::from_int(re), im: Fixed::from_int(im) }
}

fn raw(re: i64, im: i64) -> Complex {
    Complex { re: Fixed::from_raw(re), im: Fixed::from_raw(im) }
}

fn from_f64(re: f64, im: f64) -> Complex {
    raw((re * 1e9).round() as i64, (im * 1e9).round() as i64)
}

fn parts(z: Complex) -> (i64, i64) {
    (z.re.raw, z.im.raw)
}

#[test]
fn zero_is_zero() {
    assert_eq!(parts(Complex::zero()), (0, 0));
    assert!(Complex::zero().is_zero());
    assert!(!raw(0, 1).is_zero());
    assert!(!raw(-1, 0).is_zero());
}

#[test]
fn abs_of_three_four_is_five() {
    assert_eq!(c(3, 4).abs().raw, 5_000_000_000);
    assert_eq!(c(-3, -4).abs().raw, 5_000_000_000);
    assert_eq!(Complex::zero().abs().raw, 0);
}

#[test]
fn abs_rounds_down_and_saturates() {
    // sqrt(2) = 1.41421356237...
    assert_eq!(c(1, 1).abs().raw, 1_414_213_562);
    assert_eq!(raw(i64::MIN, i64::MIN).abs().raw, i64::MAX);
    assert_eq!(raw(i64::MAX, 0).abs().raw, i64::MAX);
    assert_eq!(raw(1, 0).abs().raw, 1);
}

#[test]
fn arg_is_exact_on_the_axes() {
    assert_eq!(c(1, 0).arg().raw, 0);
    assert_eq!(c(0, 1).arg().raw, HALF_PI_RAW);
    assert_eq!(c(-1, 0).arg().raw, PI_RAW);
    assert_eq!(c(0, -1).arg().raw, -HALF_PI_RAW);
    assert_eq!(Complex::zero().arg().raw, 0);
}

#[test]
fn arg_agrees_with_atan2_to_seven_places() {
    let samples = [
        (1.0, 1.0),
        (-0.5, 0.8660254),
        (-0.5, -0.8660254),
        (2.5, 0.1),
        (-3.0, 0.001),
        (-3.0, -0.001),
        (0.3, -4.0),
        (1e-6, 2e-6),
        (123456.0, -654321.0),
        (0.7, 0.7000001),
        (-1.0, 1.0),
        (5.0, 4.999),
    ];
    for (re, im) in samples {
        let got = from_f64(re, im).arg().raw as f64 / 1e9;
        let want = f64::atan2(im, re);
        assert!((got - want).abs() < 1e-7, "arg({re}, {im}) = {got}, expected {want}");
    }
}

#[test]
fn arg_stays_within_half_a_turn() {
    for &re in &[i64::MIN, -1_000_000_000, -1, 0, 1, 3, i64::MAX] {
        for &im in &[i64::MIN, -7, -1, 0, 1, 1_000_000_000, i64::MAX] {
            let angle = raw(re, im).arg().raw;
            assert!(-PI_RAW <= angle && angle <= PI_RAW);
        }
    }
}

#[test]
fn atan_unit_matches_the_arc_tangent() {
    assert_eq!(atan_unit(Fixed::zero()).raw, 0);
    for k in 0..=100 {
        let t = k as f64 / 100.0;
        let got = atan_unit(Fixed::from_raw((t * 1e9) as i64)).raw as f64 / 1e9;
        assert!((got - t.atan()).abs() < 5e-8);
    }
    assert_eq!(
        atan2(Fixed::from_int(1), Fixed::from_int(1)).raw,
        atan_unit(Fixed::one()).raw
    );
}

#[test]
fn euclidean_distance_is_the_size_of_the_difference() {
    assert_eq!(c(1, 1).euclidean_distance(&c(4, 5)).raw, 5_000_000_000);
    assert_eq!(c(4, 5).euclidean_distance(&c(1, 1)).raw, 5_000_000_000);
    assert_eq!(c(2, 2).euclidean_distance(&c(2, 2)).raw, 0);
}

#[test]
fn eq_holds_below_the_tolerance_only() {
    assert_eq!(EPSILON_RAW, 10_000);
    let z = c(1, -2);
    assert!(z.eq(&z));
    assert!(z.eq(&raw(1_000_009_999, -2_000_000_000)));
    assert!(!z.eq(&raw(1_000_010_000, -2_000_000_000)));
    assert!(z.eq(&raw(1_000_007_000, -2_000_007_000)));
    assert!(!z.eq(&raw(1_000_008_000, -2_000_008_000)));
}

#[test]
fn add_and_sub_work_part_by_part() {
    assert_eq!(parts(c(1, 2).add(c(10, -20))), (11_000_000_000, -18_000_000_000));
    assert_eq!(parts(c(1, 2).sub(c(10, -20))), (-9_000_000_000, 22_000_000_000));
    assert_eq!(parts(raw(i64::MAX, i64::MIN).add(raw(1, -1))), (i64::MAX, i64::MIN));
}

#[test]
fn multiply_scales_both_parts() {
    assert_eq!(
        parts(c(3, -4).multiply(Fixed::ratio(1, 2))),
        (1_500_000_000, -2_000_000_000)
    );
    assert_eq!(parts(c(3, -4).multiply(Fixed::zero())), (0, 0));
}

#[test]
fn mul_is_complex_multiplication() {
    assert_eq!(parts(c(0, 1).mul(c(0, 1))), (-1_000_000_000, 0));
    assert_eq!(parts(c(1, 2).mul(c(3, 4))), (-5_000_000_000, 10_000_000_000));
    assert_eq!(parts(c(2, 0).mul(raw(1, 0))), (2, 0));
    // each part is rounded once, toward zero
    assert_eq!(parts(raw(1, 1).mul(raw(999_999_999, 0))), (0, 0));
    assert_eq!(parts(raw(-1, 1).mul(raw(999_999_999, 0))), (0, 0));
}

#[test]
fn mul_saturates_at_the_extremes() {
    let least = raw(i64::MIN, i64::MIN);
    let product = least.mul(least);
    assert_eq!(parts(product), (0, i64::MAX));
    let greatest = raw(i64::MAX, i64::MAX);
    assert_eq!(parts(greatest.mul(least)), (0, i64::MIN));
}

#[test]
fn division_by_i_rotates() {
    let q = c(1, 0).div(c(0, 1));
    assert_eq!(parts(q), (0, -1_000_000_000));
}

#[test]
fn div_is_complex_division() {
    // (1 + 2i) / (3 + 4i) = (11 + 2i) / 25
    assert_eq!(parts(c(1, 2).div(c(3, 4))), (440_000_000, 80_000_000));
    // (-5 + 10i) / (3 + 4i) = 1 + 2i
    assert_eq!(parts(c(-5, 10).div(c(3, 4))), (1_000_000_000, 2_000_000_000));
    assert_eq!(parts(c(1, 0).div(c(3, 0))), (333_333_333, 0));
    assert_eq!(parts(c(-1, 0).div(c(3, 0))), (-333_333_333, 0));
    assert_eq!(parts(c(0, 1).div(c(-3, 0))), (0, -333_333_333));
}

#[test]
fn div_by_the_smallest_divisor_keeps_its_precision() {
    let tiny = raw(1, 0);
    assert_eq!(parts(raw(5, -7).div(tiny)), (5_000_000_000, -7_000_000_000));
    assert_eq!(parts(c(10, 0).div(tiny)), (i64::MAX, 0));
    assert_eq!(parts(c(-10, 0).div(tiny)), (i64::MIN, 0));
}

#[test]
fn div_works_at_the_extremes() {
    let least = raw(i64::MIN, i64::MIN);
    assert_eq!(parts(least.div(least)), (1_000_000_000, 0));
    let greatest = raw(i64::MAX, i64::MAX);
    assert_eq!(parts(greatest.div(greatest)), (1_000_000_000, 0));
    assert_eq!(parts(raw(i64::MIN, 0).div(raw(0, i64::MIN))), (0, -1_000_000_000));
}

#[test]
fn from_int_is_real() {
    assert_eq!(parts(Complex::from_int(-4)), (-4_000_000_000, 0));
    assert_eq!(parts(Complex::from_int(i128::MAX)), (i64::MAX, 0));
}

#[test]
fn to_text_joins_the_parts() {
    assert_eq!(c(1, -2).to_text(), "1.000000000+-2.000000000i");
    assert_eq!(raw(-500_000_000, 866_025_404).to_text(), "-0.500000000+0.866025404i");
    assert_eq!(Complex::zero().to_text(), "0.000000000+0.000000000i");
}
