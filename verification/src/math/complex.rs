use crate::math::fixed::{lemma_product_bound, saturate, trunc_div, Fixed, SCALE};
use crate::math::explog::{pow, pow_spec};
use crate::math::trig::{atan2, atan2_spec, cos_spec, sin_cos, sin_spec, PI_RAW};
use crate::text::{format_fixed, format_fixed_spec, string_from_chars};
use crate::math::wide::{
    abs_int, floor_sqrt, isqrt, scale_div, signed_saturate, sum_magnitude,
};
use vstd::prelude::*;

verus! {

/// Two complex numbers closer than this, in raw units, count as equal.
pub const EPSILON_RAW: i64 = 10_000;

/// A complex number in fixed-point rectangular form.
#[derive(Clone, Copy, Debug)]
pub struct Complex {
    pub re: Fixed,
    pub im: Fixed,
}

impl View for Complex {
    type V = (int, int);

    open spec fn view(&self) -> (int, int) {
        (self.re.raw as int, self.im.raw as int)
    }
}

/// `(a * b + c * d) / SCALE`, rounded toward zero and brought into range.
pub open spec fn dot_spec(a: int, b: int, c: int, d: int) -> Fixed {
    Fixed { raw: saturate(trunc_div(a * b + c * d, SCALE as int)) }
}

/// `(a * b + c * d) / k`, rounded toward zero and brought into range.
pub open spec fn dot_over_spec(a: int, b: int, c: int, d: int, k: int) -> Fixed {
    Fixed { raw: saturate(trunc_div((a * b + c * d) * SCALE, k)) }
}

/// Sign and magnitude of `a * b + c * d`, or of `a * b - c * d`.
fn dot_magnitude(a: i64, b: i64, c: i64, d: i64, subtract: bool) -> (res: (bool, u128))
    ensures
        !subtract ==> res.0 == (a * b + c * d < 0) && res.1 == abs_int(a * b + c * d),
        subtract ==> res.0 == (a * b - c * d < 0) && res.1 == abs_int(a * b - c * d),
{
    proof {
        lemma_product_bound(a as int, b as int);
        lemma_product_bound(c as int, d as int);
    }
    let first: i128 = a as i128 * b as i128;
    let second: i128 = c as i128 * d as i128;
    if subtract {
        sum_magnitude(first, -second)
    } else {
        sum_magnitude(first, second)
    }
}

/// `(a * b + c * d) / SCALE` or `(a * b - c * d) / SCALE`.
fn dot(a: i64, b: i64, c: i64, d: i64, subtract: bool) -> (r: Fixed)
    ensures
        !subtract ==> r == dot_spec(a as int, b as int, c as int, d as int),
        subtract ==> r == dot_spec(a as int, b as int, -(c as int), d as int),
{
    let (negative, magnitude) = dot_magnitude(a, b, c, d, subtract);
    proof {
        assert((-(c as int)) * d == -(c * d)) by (nonlinear_arith);
    }
    Fixed { raw: signed_saturate(negative, magnitude / (SCALE as u128)) }
}

/// `(a * b + c * d) / k` or `(a * b - c * d) / k`, for `k > 0`.
fn dot_over(a: i64, b: i64, c: i64, d: i64, subtract: bool, k: u128) -> (r: Fixed)
    requires
        k > 0,
    ensures
        !subtract ==> r == dot_over_spec(a as int, b as int, c as int, d as int, k as int),
        subtract ==> r == dot_over_spec(a as int, b as int, -(c as int), d as int, k as int),
{
    let (negative, magnitude) = dot_magnitude(a, b, c, d, subtract);
    let q = scale_div(magnitude, k);
    proof {
        assert((-(c as int)) * d == -(c * d)) by (nonlinear_arith);
        let n: int = if subtract {
            a * b - c * d
        } else {
            a * b + c * d
        };
        assert((-n) * SCALE == -(n * SCALE)) by (nonlinear_arith);
        assert(n >= 0 ==> n * SCALE >= 0) by (nonlinear_arith);
        assert(n < 0 ==> n * SCALE < 0) by (nonlinear_arith);
        assert(magnitude * SCALE >= 0) by (nonlinear_arith)
            requires
                magnitude >= 0,
        ;
        vstd::arithmetic::div_mod::lemma_div_pos_is_pos(magnitude * SCALE, k as int);
    }
    Fixed { raw: signed_saturate(negative, q) }
}

impl Complex {
    pub open spec fn zero_spec() -> Complex {
        Complex { re: Fixed { raw: 0 }, im: Fixed { raw: 0 } }
    }

    /// The real number `n` as a complex number.
    pub open spec fn from_int_spec(n: int) -> Complex {
        Complex { re: Fixed::from_int_spec(n), im: Fixed { raw: 0 } }
    }

    pub open spec fn is_zero_spec(self) -> bool {
        self.re.raw == 0 && self.im.raw == 0
    }

    /// The squared magnitude, exactly, in squared raw units.
    pub open spec fn norm_sqr_spec(self) -> int {
        self.re.raw * self.re.raw + self.im.raw * self.im.raw
    }

    /// The magnitude, rounded down to a raw unit.
    pub open spec fn abs_spec(self) -> Fixed {
        Fixed { raw: saturate(floor_sqrt(self.norm_sqr_spec())) }
    }

    /// The angle against the positive real axis, in radians.
    pub open spec fn arg_spec(self) -> Fixed {
        atan2_spec(self.im, self.re)
    }

    pub open spec fn euclidean_distance_spec(self, other: Complex) -> Fixed {
        self.sub_spec(other).abs_spec()
    }

    pub open spec fn eq_spec(self, other: Complex) -> bool {
        self.euclidean_distance_spec(other).raw < EPSILON_RAW
    }

    pub open spec fn multiply_spec(self, f: Fixed) -> Complex {
        Complex { re: self.re.mul_spec(f), im: self.im.mul_spec(f) }
    }

    /// The power in polar form: the magnitude to the power `p`, at `p` times
    /// the angle.
    pub open spec fn powf_spec(self, p: Fixed) -> Complex {
        let r = pow_spec(self.abs_spec(), p);
        let theta = p.mul_spec(self.arg_spec());
        Complex { re: cos_spec(theta).mul_spec(r), im: sin_spec(theta).mul_spec(r) }
    }

    /// The number as text: the real part, a plus sign, the imaginary part
    /// and the letter `i`.
    pub open spec fn to_text_spec(self) -> Seq<char> {
        format_fixed_spec(self.re) + seq!['+'] + format_fixed_spec(self.im) + seq!['i']
    }

    /// The squared magnitude lies between 0 and 2^127.
    pub proof fn lemma_norm_sqr_bound(self)
        ensures
            0 <= self.norm_sqr_spec() <= 0x8000_0000_0000_0000_0000_0000_0000_0000,
            self.norm_sqr_spec() == 0 <==> self.is_zero_spec(),
    {
        let (x, y) = (self.re.raw as int, self.im.raw as int);
        lemma_product_bound(x, x);
        lemma_product_bound(y, y);
        assert(x * x >= 0 && (x * x == 0 <==> x == 0)) by (nonlinear_arith);
        assert(y * y >= 0 && (y * y == 0 <==> y == 0)) by (nonlinear_arith);
    }

    /// Every number equals itself.
    pub proof fn lemma_eq_reflexive(self)
        ensures
            self.eq_spec(self),
    {
        let difference = self.sub_spec(self);
        assert(difference.re.raw == 0 && difference.im.raw == 0);
        assert(difference.norm_sqr_spec() == 0) by (nonlinear_arith)
            requires
                difference.re.raw == 0,
                difference.im.raw == 0,
                difference.norm_sqr_spec() == difference.re.raw * difference.re.raw
                    + difference.im.raw * difference.im.raw,
        ;
        crate::math::wide::lemma_floor_sqrt_is(0, 0);
    }

    pub fn zero() -> (r: Complex)
        ensures
            r == Complex::zero_spec(),
    {
        Complex { re: Fixed { raw: 0 }, im: Fixed { raw: 0 } }
    }

    /// The whole real number `n` as a complex number.
    pub fn from_int(n: i128) -> (r: Complex)
        ensures
            r == Complex::from_int_spec(n as int),
    {
        Complex { re: Fixed::from_wide(n), im: Fixed { raw: 0 } }
    }

    pub fn is_zero(&self) -> (r: bool)
        ensures
            r == self.is_zero_spec(),
    {
        self.re.raw == 0 && self.im.raw == 0
    }

    /// The squared magnitude, exactly.
    pub fn norm_sqr(&self) -> (k: u128)
        ensures
            k == self.norm_sqr_spec(),
            k == 0 <==> self.is_zero_spec(),
    {
        proof {
            self.lemma_norm_sqr_bound();
        }
        let (negative, magnitude) = dot_magnitude(
            self.re.raw,
            self.re.raw,
            self.im.raw,
            self.im.raw,
            false,
        );
        magnitude
    }

    /// The magnitude: the square root of `re² + im²`, rounded down to a raw
    /// unit, or the upper end of the range.
    pub fn abs(&self) -> (r: Fixed)
        ensures
            r == self.abs_spec(),
            r.raw >= 0,
    {
        let root = isqrt(self.norm_sqr());
        Fixed { raw: signed_saturate(false, root) }
    }

    /// The angle against the positive real axis, within half a turn of zero.
    pub fn arg(&self) -> (r: Fixed)
        ensures
            r == self.arg_spec(),
            -PI_RAW <= r.raw <= PI_RAW,
    {
        atan2(self.im, self.re)
    }

    /// The number to a real power, by its polar form.
    pub fn powf(&self, p: Fixed) -> (r: Complex)
        ensures
            r == self.powf_spec(p),
    {
        let r = pow(self.abs(), p);
        let theta = p.mul(self.arg());
        let (sin, cos) = sin_cos(theta);
        Complex { re: cos.mul(r), im: sin.mul(r) }
    }

    /// The number as text, such as `1.500000000+-2.000000000i`.
    pub fn to_text(&self) -> (text: String)
        ensures
            text@ == self.to_text_spec(),
    {
        let mut chars = format_fixed(self.re);
        chars.push('+');
        let mut imaginary = format_fixed(self.im);
        chars.append(&mut imaginary);
        chars.push('i');
        string_from_chars(&chars)
    }

    /// The magnitude of the difference of the two numbers.
    pub fn euclidean_distance(&self, other: &Complex) -> (r: Fixed)
        ensures
            r == self.euclidean_distance_spec(*other),
            r.raw >= 0,
    {
        self.sub(*other).abs()
    }

    /// Whether the two numbers are closer than `EPSILON_RAW`.
    pub fn eq(&self, other: &Complex) -> (r: bool)
        ensures
            r == self.eq_spec(*other),
    {
        self.euclidean_distance(other).raw < EPSILON_RAW
    }

    /// The number scaled by a real factor.
    pub fn multiply(self, f: Fixed) -> (r: Complex)
        ensures
            r == self.multiply_spec(f),
    {
        Complex { re: self.re.mul(f), im: self.im.mul(f) }
    }
}

impl Complex {
    pub open spec fn add_spec(self, rhs: Complex) -> Complex {
        Complex { re: self.re.add_spec(rhs.re), im: self.im.add_spec(rhs.im) }
    }

    pub open spec fn sub_spec(self, rhs: Complex) -> Complex {
        Complex { re: self.re.sub_spec(rhs.re), im: self.im.sub_spec(rhs.im) }
    }

    /// Each part of the product is formed exactly and rounded once.
    pub open spec fn mul_spec(self, rhs: Complex) -> Complex {
        Complex {
            re: dot_spec(
                self.re.raw as int,
                rhs.re.raw as int,
                -(self.im.raw as int),
                rhs.im.raw as int,
            ),
            im: dot_spec(
                self.re.raw as int,
                rhs.im.raw as int,
                self.im.raw as int,
                rhs.re.raw as int,
            ),
        }
    }

    /// `a / b` is `a` times the conjugate of `b`, over the squared magnitude
    /// of `b`; each part is formed exactly and rounded once. Meaningful for a
    /// divisor other than zero.
    pub open spec fn div_spec(self, rhs: Complex) -> Complex {
        Complex {
            re: dot_over_spec(
                self.re.raw as int,
                rhs.re.raw as int,
                self.im.raw as int,
                rhs.im.raw as int,
                rhs.norm_sqr_spec(),
            ),
            im: dot_over_spec(
                self.im.raw as int,
                rhs.re.raw as int,
                -(self.re.raw as int),
                rhs.im.raw as int,
                rhs.norm_sqr_spec(),
            ),
        }
    }

    pub fn add(self, rhs: Complex) -> (r: Complex)
        ensures
            r == self.add_spec(rhs),
    {
        Complex { re: self.re.add(rhs.re), im: self.im.add(rhs.im) }
    }

    pub fn sub(self, rhs: Complex) -> (r: Complex)
        ensures
            r == self.sub_spec(rhs),
    {
        Complex { re: self.re.sub(rhs.re), im: self.im.sub(rhs.im) }
    }

    pub fn mul(self, rhs: Complex) -> (r: Complex)
        ensures
            r == self.mul_spec(rhs),
    {
        Complex {
            re: dot(self.re.raw, rhs.re.raw, self.im.raw, rhs.im.raw, true),
            im: dot(self.re.raw, rhs.im.raw, self.im.raw, rhs.re.raw, false),
        }
    }

    /// Division by conjugate multiplication. A divisor that is exactly zero
    /// has no quotient.
    pub fn div(self, rhs: Complex) -> (r: Complex)
        requires
            !rhs.is_zero_spec(),
        ensures
            r == self.div_spec(rhs),
    {
        let k = rhs.norm_sqr();
        Complex {
            re: dot_over(self.re.raw, rhs.re.raw, self.im.raw, rhs.im.raw, false, k),
            im: dot_over(self.im.raw, rhs.re.raw, self.re.raw, rhs.im.raw, true, k),
        }
    }
}

} // verus!
