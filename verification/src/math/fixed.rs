use vstd::prelude::*;

verus! {

/// Number of raw units in one: a `Fixed` counts billionths.
pub const SCALE: i64 = 1_000_000_000;

/// The nearest representable value to an integer that may lie outside `i64`.
pub open spec fn saturate(x: int) -> i64 {
    if x < i64::MIN {
        i64::MIN
    } else if x > i64::MAX {
        i64::MAX
    } else {
        x as i64
    }
}

/// Quotient rounded toward zero. Meaningful for `b != 0`.
pub open spec fn trunc_div(a: int, b: int) -> int {
    if b > 0 {
        if a >= 0 {
            a / b
        } else {
            -((-a) / b)
        }
    } else {
        if a > 0 {
            -(a / (-b))
        } else {
            (-a) / (-b)
        }
    }
}

/// A decimal fixed-point number with nine fractional digits.
///
/// The number stands for `raw / SCALE`. Every `i64` is a valid `raw`; results
/// that would leave the range stop at its ends, and products and quotients are
/// rounded toward zero.
#[derive(Clone, Copy, Debug, PartialEq, Eq, Structural)]
pub struct Fixed {
    pub raw: i64,
}

impl View for Fixed {
    type V = int;

    open spec fn view(&self) -> int {
        self.raw as int
    }
}

/// Brings a 128-bit intermediate result back into range.
pub fn saturate_i128(x: i128) -> (r: i64)
    ensures
        r == saturate(x as int),
{
    if x < i64::MIN as i128 {
        i64::MIN
    } else if x > i64::MAX as i128 {
        i64::MAX
    } else {
        x as i64
    }
}

/// Signed division rounded toward zero. The least 128-bit value, whose
/// negative does not exist, is left out.
pub fn div_toward_zero(a: i128, b: i128) -> (r: i128)
    requires
        b != 0,
        a > i128::MIN,
        b > i128::MIN,
    ensures
        r == trunc_div(a as int, b as int),
{
    if b > 0 {
        a / b
    } else {
        (-a) / (-b)
    }
}

/// The product of two 64-bit values fits in 128 bits with room to spare.
pub proof fn lemma_product_bound(a: int, b: int)
    requires
        i64::MIN <= a <= i64::MAX,
        i64::MIN <= b <= i64::MAX,
    ensures
        -0x4000_0000_0000_0000_0000_0000_0000_0000 < a * b
            <= 0x4000_0000_0000_0000_0000_0000_0000_0000,
{
    assert(-0x4000_0000_0000_0000_0000_0000_0000_0000 < a * b
        <= 0x4000_0000_0000_0000_0000_0000_0000_0000) by (nonlinear_arith)
        requires
            -0x8000_0000_0000_0000 <= a <= 0x7fff_ffff_ffff_ffff,
            -0x8000_0000_0000_0000 <= b <= 0x7fff_ffff_ffff_ffff,
    ;
}

impl Fixed {
    pub open spec fn zero_spec() -> Fixed {
        Fixed { raw: 0 }
    }

    pub open spec fn one_spec() -> Fixed {
        Fixed { raw: SCALE }
    }

    pub open spec fn from_int_spec(n: int) -> Fixed {
        Fixed { raw: saturate(n * SCALE) }
    }

    /// `n / d` as a fixed-point number. Meaningful for `d != 0`.
    pub open spec fn ratio_spec(n: int, d: int) -> Fixed {
        Fixed { raw: saturate(trunc_div(n * SCALE, d)) }
    }

    pub open spec fn neg_spec(self) -> Fixed {
        Fixed { raw: saturate(-self.raw) }
    }

    pub open spec fn abs_spec(self) -> Fixed {
        if self.raw < 0 {
            Fixed { raw: saturate(-self.raw) }
        } else {
            self
        }
    }

    pub fn zero() -> (r: Fixed)
        ensures
            r == Fixed::zero_spec(),
    {
        Fixed { raw: 0 }
    }

    pub fn one() -> (r: Fixed)
        ensures
            r == Fixed::one_spec(),
    {
        Fixed { raw: SCALE }
    }

    pub fn from_raw(raw: i64) -> (r: Fixed)
        ensures
            r.raw == raw,
    {
        Fixed { raw }
    }

    /// The whole number `n`, or the nearest end of the range.
    pub fn from_int(n: i64) -> (r: Fixed)
        ensures
            r == Fixed::from_int_spec(n as int),
    {
        proof {
            lemma_product_bound(n as int, SCALE as int);
        }
        Fixed { raw: saturate_i128(n as i128 * SCALE as i128) }
    }

    /// The whole number `n`, which may lie far outside the range.
    pub fn from_wide(n: i128) -> (r: Fixed)
        ensures
            r == Fixed::from_int_spec(n as int),
    {
        if n > i64::MAX as i128 {
            assert(n * SCALE > i64::MAX) by (nonlinear_arith)
                requires
                    n > i64::MAX,
                    SCALE == 1_000_000_000,
            ;
            Fixed { raw: i64::MAX }
        } else if n < i64::MIN as i128 {
            assert(n * SCALE < i64::MIN) by (nonlinear_arith)
                requires
                    n < i64::MIN,
                    SCALE == 1_000_000_000,
            ;
            Fixed { raw: i64::MIN }
        } else {
            Fixed::from_int(n as i64)
        }
    }

    /// The quotient `n / d`, rounded toward zero and brought into range.
    pub fn ratio(n: i64, d: i64) -> (r: Fixed)
        requires
            d != 0,
        ensures
            r == Fixed::ratio_spec(n as int, d as int),
    {
        proof {
            lemma_product_bound(n as int, SCALE as int);
        }
        let num: i128 = n as i128 * SCALE as i128;
        Fixed { raw: saturate_i128(div_toward_zero(num, d as i128)) }
    }

    /// The number with the opposite sign, or the nearest end of the range.
    pub fn neg(self) -> (r: Fixed)
        ensures
            r == self.neg_spec(),
    {
        Fixed { raw: saturate_i128(-(self.raw as i128)) }
    }

    /// The magnitude, or the upper end of the range.
    pub fn abs(self) -> (r: Fixed)
        ensures
            r == self.abs_spec(),
    {
        if self.raw < 0 {
            Fixed { raw: saturate_i128(-(self.raw as i128)) }
        } else {
            self
        }
    }

    pub open spec fn add_spec(self, rhs: Fixed) -> Fixed {
        Fixed { raw: saturate(self.raw + rhs.raw) }
    }

    pub open spec fn sub_spec(self, rhs: Fixed) -> Fixed {
        Fixed { raw: saturate(self.raw - rhs.raw) }
    }

    /// The product, rounded toward zero.
    pub open spec fn mul_spec(self, rhs: Fixed) -> Fixed {
        Fixed { raw: saturate(trunc_div(self.raw * rhs.raw, SCALE as int)) }
    }

    /// The quotient, rounded toward zero. Meaningful for `rhs.raw != 0`.
    pub open spec fn div_spec(self, rhs: Fixed) -> Fixed {
        Fixed { raw: saturate(trunc_div(self.raw * SCALE, rhs.raw as int)) }
    }

    /// The sum, or the nearest end of the range.
    pub fn add(self, rhs: Fixed) -> (r: Fixed)
        ensures
            r == self.add_spec(rhs),
    {
        Fixed { raw: saturate_i128(self.raw as i128 + rhs.raw as i128) }
    }

    /// The difference, or the nearest end of the range.
    pub fn sub(self, rhs: Fixed) -> (r: Fixed)
        ensures
            r == self.sub_spec(rhs),
    {
        Fixed { raw: saturate_i128(self.raw as i128 - rhs.raw as i128) }
    }

    /// The product, rounded toward zero and brought into range.
    pub fn mul(self, rhs: Fixed) -> (r: Fixed)
        ensures
            r == self.mul_spec(rhs),
    {
        proof {
            lemma_product_bound(self.raw as int, rhs.raw as int);
        }
        let product: i128 = self.raw as i128 * rhs.raw as i128;
        Fixed { raw: saturate_i128(product / SCALE as i128) }
    }

    /// The quotient, rounded toward zero and brought into range.
    pub fn div(self, rhs: Fixed) -> (r: Fixed)
        requires
            rhs.raw != 0,
        ensures
            r == self.div_spec(rhs),
    {
        proof {
            lemma_product_bound(self.raw as int, SCALE as int);
        }
        let num: i128 = self.raw as i128 * SCALE as i128;
        Fixed { raw: saturate_i128(div_toward_zero(num, rhs.raw as i128)) }
    }
}

} // verus!
