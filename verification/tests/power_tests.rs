use newton_fractal::math::complex::Complex;
use newton_fractal::math::explog::{exp, ln, normalise, pow, scale_pow2, LN2_RAW};
use newton_fractal::math::fixed::Fixed;
use newton_fractal::math::trig::{sin_cos, HALF_PI_RAW, PI_RAW};
use newton_fractal::math::wide::div_rem_floor;

fn fx(raw: i64) -> Fixed {
    Fixed::from_raw(raw)
}

fn raw(re: i64, im: i64) -> Complex {
    Complex { re: fx(re), im: fx(im) }
}

fn parts(z: Complex) -> (i64, i64) {
    (z.re.raw, z.im.raw)
}

const ONE: i64 = 1_000_000_000;

#[test]
fn div_rem_floor_rounds_down() {
    assert_eq!(div_rem_floor(7, 2), (3, 1));
    assert_eq!(div_rem_floor(-7, 2), (-4, 1));
    assert_eq!(div_rem_floor(-8, 2), (-4, 0));
    assert_eq!(div_rem_floor(0, 5), (0, 0));
    assert_eq!(div_rem_floor(i64::MIN, 1), (i64::MIN, 0));
    assert_eq!(div_rem_floor(i64::MIN, i64::MAX), (-2, i64::MAX - 1));
    assert_eq!(div_rem_floor(i64::MAX, i64::MAX), (1, 0));
}

#[test]
fn normalise_brings_a_number_between_one_and_two() {
    assert_eq!(normalise(ONE), (ONE, 0));
    assert_eq!(normalise(2 * ONE), (ONE, 1));
    assert_eq!(normalise(3 * ONE), (1_500_000_000, 1));
    assert_eq!(normalise(ONE / 4), (ONE, -2));
    assert_eq!(normalise(1), (1_073_741_824, -30));
    assert_eq!(normalise(i64::MAX), (1_073_741_823, 33));
}

#[test]
fn scale_pow2_doubles_and_halves() {
    assert_eq!(scale_pow2(fx(3), 0).raw, 3);
    assert_eq!(scale_pow2(fx(3), 4).raw, 48);
    assert_eq!(scale_pow2(fx(48), -4).raw, 3);
    assert_eq!(scale_pow2(fx(49), -4).raw, 3);
    assert_eq!(scale_pow2(fx(-49), -4).raw, -3);
    assert_eq!(scale_pow2(fx(1), 63).raw, i64::MAX);
    assert_eq!(scale_pow2(fx(-1), 1000).raw, i64::MIN);
    assert_eq!(scale_pow2(fx(i64::MAX), i64::MIN).raw, 0);
    assert_eq!(scale_pow2(fx(0), i64::MAX).raw, 0);
}

#[test]
fn ln_of_known_values() {
    assert_eq!(ln(fx(ONE)).raw, 0);
    assert_eq!(ln(fx(2 * ONE)).raw, LN2_RAW);
    assert_eq!(ln(fx(1)).raw, -20_723_265_852);
    assert_eq!(ln(fx(i64::MAX)).raw, 22_945_006_549);
}

#[test]
fn ln_agrees_with_the_floating_point_logarithm() {
    for x in [1e-9, 3e-7, 0.001, 0.5, 0.999, 1.001, 1.5, 2.718281828, 10.0, 12345.678, 9e9] {
        let got = ln(fx((x * 1e9) as i64)).raw as f64 / 1e9;
        let want = ((x * 1e9) as i64 as f64 / 1e9).ln();
        assert!((got - want).abs() < 5e-8, "ln({x}) = {got}, expected {want}");
    }
}

#[test]
fn exp_of_known_values() {
    assert_eq!(exp(fx(0)).raw, ONE);
    assert_eq!(exp(fx(ONE)).raw, 2_718_281_826);
    assert_eq!(exp(fx(22 * ONE)).raw, 3_584_912_794_987_790_336);
    assert_eq!(exp(fx(23 * ONE)).raw, i64::MAX);
    assert_eq!(exp(fx(i64::MAX)).raw, i64::MAX);
    assert_eq!(exp(fx(-30 * ONE)).raw, 0);
    assert_eq!(exp(fx(i64::MIN)).raw, 0);
}

#[test]
fn exp_agrees_with_the_floating_point_exponential() {
    for y in [-20.0, -3.5, -1.0, -0.1, 0.0, 0.3, 0.6931, 0.6932, 1.0, 2.5, 10.0, 20.0] {
        let got = exp(fx((y * 1e9) as i64)).raw as f64 / 1e9;
        let want = f64::exp(y);
        assert!((got - want).abs() < 5e-8 * want.max(1.0), "exp({y}) = {got}");
    }
}

#[test]
fn pow_of_known_values() {
    assert_eq!(pow(fx(2 * ONE), fx(2 * ONE)).raw, 4 * ONE);
    assert_eq!(pow(fx(4 * ONE), fx(ONE / 2)).raw, 2 * ONE);
    assert_eq!(pow(fx(7 * ONE), fx(0)).raw, ONE);
    assert_eq!(pow(fx(ONE), fx(123 * ONE)).raw, ONE);
}

#[test]
fn pow_of_zero() {
    assert_eq!(pow(fx(0), fx(1)).raw, 0);
    assert_eq!(pow(fx(0), fx(0)).raw, ONE);
    assert_eq!(pow(fx(0), fx(-1)).raw, i64::MAX);
}

#[test]
fn sin_cos_at_the_quarter_turns() {
    let pair = |theta: i64| {
        let (s, c) = sin_cos(fx(theta));
        (s.raw, c.raw)
    };
    assert_eq!(pair(0), (0, ONE));
    assert_eq!(pair(HALF_PI_RAW), (ONE, 0));
    assert_eq!(pair(PI_RAW), (0, -ONE));
    assert_eq!(pair(-HALF_PI_RAW), (-ONE, -1));
}

#[test]
fn sin_cos_agree_with_the_floating_point_functions() {
    let mut theta = -20.0;
    while theta < 20.0 {
        let (s, c) = sin_cos(fx((theta * 1e9) as i64));
        assert!((s.raw as f64 / 1e9 - f64::sin(theta)).abs() < 2e-8, "sin({theta})");
        assert!((c.raw as f64 / 1e9 - f64::cos(theta)).abs() < 2e-8, "cos({theta})");
        theta += 0.37;
    }
    for theta in [i64::MIN, i64::MAX] {
        let (s, c) = sin_cos(fx(theta));
        assert!(s.raw.abs() <= ONE + 10 && c.raw.abs() <= ONE + 10);
    }
}

#[test]
fn powf_of_known_values() {
    assert_eq!(parts(raw(2 * ONE, 0).powf(fx(2 * ONE))), (4 * ONE, 0));
    assert_eq!(parts(raw(0, ONE).powf(fx(2 * ONE))), (-ONE, 0));
    assert_eq!(parts(raw(ONE, ONE).powf(fx(3 * ONE))), (-1_999_999_989, 1_999_999_983));
    assert_eq!(parts(raw(3 * ONE, 4 * ONE).powf(fx(0))), (ONE, 0));
    assert_eq!(parts(raw(3 * ONE, 4 * ONE).powf(fx(ONE))), (3_000_000_035, 3_999_999_968));
}

#[test]
fn powf_of_zero() {
    assert_eq!(parts(raw(0, 0).powf(fx(2 * ONE))), (0, 0));
    assert_eq!(parts(raw(0, 0).powf(fx(0))), (ONE, 0));
    assert_eq!(parts(raw(0, 0).powf(fx(-ONE))), (i64::MAX, 0));
}

#[test]
fn powf_agrees_with_the_polar_form_in_floating_point() {
    let samples = [
        (1.5, -0.5, 2.0),
        (-0.5, 0.8660254, 3.0),
        (-2.0, 0.1, 0.5),
        (0.3, 0.4, -1.0),
        (4.0, 3.0, 1.7),
        (-1.0, -1.0, 4.0),
        (0.001, 0.002, 2.0),
    ];
    for (re, im, p) in samples {
        let got = raw((re * 1e9) as i64, (im * 1e9) as i64).powf(fx((p * 1e9) as i64));
        let r = f64::hypot(re, im).powf(p);
        let theta = p * f64::atan2(im, re);
        let scale = r.max(1.0);
        assert!((got.re.raw as f64 / 1e9 - r * theta.cos()).abs() < 1e-7 * scale, "{re} {im} {p}");
        assert!((got.im.raw as f64 / 1e9 - r * theta.sin()).abs() < 1e-7 * scale, "{re} {im} {p}");
    }
}
