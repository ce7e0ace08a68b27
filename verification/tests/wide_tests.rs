use newton_fractal::math::wide::{
    isqrt, mul_div_rem, scale_div, signed_saturate, sum_magnitude, QUOTIENT_LIMIT,
};

#[test]
fn isqrt_rounds_down() {
    assert_eq!(isqrt(0), 0);
    assert_eq!(isqrt(1), 1);
    assert_eq!(isqrt(3), 1);
    assert_eq!(isqrt(4), 2);
    assert_eq!(isqrt(24), 4);
    assert_eq!(isqrt(25), 5);
    assert_eq!(isqrt(1_000_000_000_000_000_000), 1_000_000_000);
    assert_eq!(isqrt(u128::MAX), 18_446_744_073_709_551_615);
    assert_eq!(isqrt(1 << 126), 1 << 63);
}

#[test]
fn isqrt_meets_its_definition_on_many_values() {
    let mut n: u128 = 1;
    for _ in 0..120 {
        let r = isqrt(n);
        assert!(r * r <= n);
        assert!(n - r * r <= 2 * r);
        n = n * 2 + (n % 7);
    }
}

#[test]
fn sum_magnitude_gives_sign_and_size() {
    assert_eq!(sum_magnitude(5, -8), (true, 3));
    assert_eq!(sum_magnitude(-5, 8), (false, 3));
    assert_eq!(sum_magnitude(5, 8), (false, 13));
    assert_eq!(sum_magnitude(-5, -8), (true, 13));
    assert_eq!(sum_magnitude(0, 0), (false, 0));
    let limit: i128 = 1 << 126;
    assert_eq!(sum_magnitude(limit, limit), (false, 1u128 << 127));
    assert_eq!(sum_magnitude(-limit, -limit), (true, 1u128 << 127));
}

#[test]
fn signed_saturate_applies_the_sign() {
    assert_eq!(signed_saturate(false, 12), 12);
    assert_eq!(signed_saturate(true, 12), -12);
    assert_eq!(signed_saturate(false, 1 << 63), i64::MAX);
    assert_eq!(signed_saturate(true, 1 << 63), i64::MIN);
    assert_eq!(signed_saturate(true, (1 << 63) - 1), i64::MIN + 1);
    assert_eq!(signed_saturate(true, QUOTIENT_LIMIT), i64::MIN);
}

#[test]
fn mul_div_rem_divides_the_product() {
    assert_eq!(mul_div_rem(3, 7, 5), (4, 1));
    assert_eq!(mul_div_rem(0, 7, 5), (0, 0));
    assert_eq!(mul_div_rem(4, 0, 5), (0, 0));
    let k: u128 = (1 << 127) - 1;
    let a: u128 = k - 1;
    let (q, r) = mul_div_rem(a, 1_000_000_000, k);
    assert_eq!(q, 999_999_999);
    assert_eq!(r, k - 1_000_000_000);
}

#[test]
fn scale_div_scales_then_divides() {
    assert_eq!(scale_div(1, 3), 333_333_333);
    assert_eq!(scale_div(2, 3), 666_666_666);
    assert_eq!(scale_div(10, 4), 2_500_000_000);
    assert_eq!(scale_div(0, 9), 0);
    assert_eq!(scale_div(1 << 127, 1 << 127), 1_000_000_000);
    assert_eq!(scale_div(u128::MAX, 1), QUOTIENT_LIMIT);
    assert_eq!(scale_div(18_446_744_074, 1), QUOTIENT_LIMIT);
    assert_eq!(scale_div(18_446_744_073, 1), 18_446_744_073_000_000_000);
}
