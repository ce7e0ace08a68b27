use crate::math::fixed::{div_toward_zero, saturate, saturate_i128, trunc_div, Fixed, SCALE};
use crate::math::wide::div_rem_floor;
use vstd::prelude::*;

verus! {

/// The natural logarithm of 2, in raw units.
pub const LN2_RAW: i64 = 693_147_181;

/// Doubling or halving more often than this changes nothing any more.
pub const MAX_SHIFT: i64 = 64;

pub open spec fn normal_measure(raw: int) -> int {
    if raw >= 2 * SCALE {
        raw
    } else {
        2 * SCALE - raw
    }
}

/// A positive number halved or doubled until it lies between 1 and 2.
pub open spec fn mantissa_spec(raw: int) -> int
    decreases normal_measure(raw),
{
    if raw <= 0 {
        raw
    } else if raw >= 2 * SCALE {
        mantissa_spec(raw / 2)
    } else if raw < SCALE {
        mantissa_spec(raw * 2)
    } else {
        raw
    }
}

/// The number of halvings, or minus the number of doublings, that bring a
/// positive number between 1 and 2.
pub open spec fn exponent_spec(raw: int) -> int
    decreases normal_measure(raw),
{
    if raw <= 0 {
        0
    } else if raw >= 2 * SCALE {
        exponent_spec(raw / 2) + 1
    } else if raw < SCALE {
        exponent_spec(raw * 2) - 1
    } else {
        0
    }
}

/// One step of a power series in Horner's form: `c + u * p`.
pub open spec fn series_step(c: Fixed, u: Fixed, p: Fixed) -> Fixed {
    c.add_spec(u.mul_spec(p))
}

/// The natural logarithm of a number `m` between 1 and 2, from the series
/// `2 (w + w³/3 + w⁵/5 + ..)` in `w = (m - 1) / (m + 1)`, up to `w^17`.
pub open spec fn ln_mantissa_spec(m: Fixed) -> Fixed {
    let one = Fixed::one_spec();
    let w = m.sub_spec(one).div_spec(m.add_spec(one));
    let u = w.mul_spec(w);
    let h17 = Fixed::ratio_spec(1, 17);
    let h15 = series_step(Fixed::ratio_spec(1, 15), u, h17);
    let h13 = series_step(Fixed::ratio_spec(1, 13), u, h15);
    let h11 = series_step(Fixed::ratio_spec(1, 11), u, h13);
    let h9 = series_step(Fixed::ratio_spec(1, 9), u, h11);
    let h7 = series_step(Fixed::ratio_spec(1, 7), u, h9);
    let h5 = series_step(Fixed::ratio_spec(1, 5), u, h7);
    let h3 = series_step(Fixed::ratio_spec(1, 3), u, h5);
    let h1 = series_step(one, u, h3);
    Fixed::from_int_spec(2).mul_spec(w.mul_spec(h1))
}

/// The natural logarithm of a positive number: that of its mantissa, and
/// the logarithm of 2 for every halving.
pub open spec fn ln_spec(x: Fixed) -> Fixed {
    Fixed::from_int_spec(exponent_spec(x.raw as int)).mul_spec(Fixed { raw: LN2_RAW }).add_spec(
        ln_mantissa_spec(Fixed { raw: mantissa_spec(x.raw as int) as i64 }),
    )
}

/// One step of the exponential series: `1 + (f / d) * p`.
pub open spec fn exp_step(f: Fixed, d: int, p: Fixed) -> Fixed {
    Fixed::one_spec().add_spec(f.div_spec(Fixed::from_int_spec(d)).mul_spec(p))
}

/// `e^f` for `f` between 0 and the logarithm of 2, from the series
/// `1 + f + f²/2! + ..` up to `f^13`.
pub open spec fn exp_fraction_spec(f: Fixed) -> Fixed {
    let h13 = exp_step(f, 13, Fixed::one_spec());
    let h12 = exp_step(f, 12, h13);
    let h11 = exp_step(f, 11, h12);
    let h10 = exp_step(f, 10, h11);
    let h9 = exp_step(f, 9, h10);
    let h8 = exp_step(f, 8, h9);
    let h7 = exp_step(f, 7, h8);
    let h6 = exp_step(f, 6, h7);
    let h5 = exp_step(f, 5, h6);
    let h4 = exp_step(f, 4, h5);
    let h3 = exp_step(f, 3, h4);
    let h2 = exp_step(f, 2, h3);
    exp_step(f, 1, h2)
}

/// A number doubled `n` times, each time brought into range.
pub open spec fn double_times(raw: i64, n: nat) -> i64
    decreases n,
{
    if n == 0 {
        raw
    } else {
        double_times(saturate(2 * raw), (n - 1) as nat)
    }
}

/// A number halved `n` times, each time rounded toward zero.
pub open spec fn halve_times(raw: i64, n: nat) -> i64
    decreases n,
{
    if n == 0 {
        raw
    } else {
        halve_times(trunc_div(raw as int, 2) as i64, (n - 1) as nat)
    }
}

/// `v * 2^k`, by at most `MAX_SHIFT` doublings or halvings.
pub open spec fn scale_pow2_spec(v: Fixed, k: int) -> Fixed {
    if k >= 0 {
        Fixed {
            raw: double_times(
                v.raw,
                (if k > MAX_SHIFT {
                    MAX_SHIFT as int
                } else {
                    k
                }) as nat,
            ),
        }
    } else {
        Fixed {
            raw: halve_times(
                v.raw,
                (if -k > MAX_SHIFT {
                    MAX_SHIFT as int
                } else {
                    -k
                }) as nat,
            ),
        }
    }
}

/// `e^y`: `y` is split into a whole multiple `k` of the logarithm of 2 and a
/// rest `f`, and the result is `e^f * 2^k`.
pub open spec fn exp_spec(y: Fixed) -> Fixed {
    scale_pow2_spec(
        exp_fraction_spec(Fixed { raw: (y.raw as int % LN2_RAW as int) as i64 }),
        y.raw as int / LN2_RAW as int,
    )
}

/// `x^p` for a base that is not negative: `e^(p ln x)` for a positive base;
/// a base of zero gives 0 for a positive exponent, 1 for the exponent 0 and
/// the upper end of the range for a negative one.
pub open spec fn pow_spec(x: Fixed, p: Fixed) -> Fixed {
    if x.raw == 0 {
        if p.raw > 0 {
            Fixed { raw: 0 }
        } else if p.raw == 0 {
            Fixed::one_spec()
        } else {
            Fixed { raw: i64::MAX }
        }
    } else {
        exp_spec(p.mul_spec(ln_spec(x)))
    }
}

/// Splits a positive number into its mantissa and its exponent.
pub fn normalise(raw: i64) -> (res: (i64, i64))
    requires
        raw > 0,
    ensures
        res.0 == mantissa_spec(raw as int),
        res.1 == exponent_spec(raw as int),
        SCALE <= res.0 < 2 * SCALE,
{
    let mut cur: i64 = raw;
    let mut e: i64 = 0;
    while cur >= 2 * SCALE
        invariant
            cur > 0,
            0 <= e <= raw - cur,
            mantissa_spec(cur as int) == mantissa_spec(raw as int),
            exponent_spec(raw as int) == e + exponent_spec(cur as int),
        decreases cur,
    {
        cur = cur / 2;
        e = e + 1;
    }
    while cur < SCALE
        invariant
            0 < cur < 2 * SCALE,
            -(cur as int) <= e <= raw,
            mantissa_spec(cur as int) == mantissa_spec(raw as int),
            exponent_spec(raw as int) == e + exponent_spec(cur as int),
        decreases 2 * SCALE - cur,
    {
        cur = cur * 2;
        e = e - 1;
    }
    (cur, e)
}

/// The natural logarithm of a positive number.
pub fn ln(x: Fixed) -> (r: Fixed)
    requires
        x.raw > 0,
    ensures
        r == ln_spec(x),
{
    let (mantissa, exponent) = normalise(x.raw);
    let m = Fixed { raw: mantissa };
    let one = Fixed::one();
    let w = m.sub(one).div(m.add(one));
    let u = w.mul(w);
    let h17 = Fixed::ratio(1, 17);
    let h15 = Fixed::ratio(1, 15).add(u.mul(h17));
    let h13 = Fixed::ratio(1, 13).add(u.mul(h15));
    let h11 = Fixed::ratio(1, 11).add(u.mul(h13));
    let h9 = Fixed::ratio(1, 9).add(u.mul(h11));
    let h7 = Fixed::ratio(1, 7).add(u.mul(h9));
    let h5 = Fixed::ratio(1, 5).add(u.mul(h7));
    let h3 = Fixed::ratio(1, 3).add(u.mul(h5));
    let h1 = one.add(u.mul(h3));
    let of_mantissa = Fixed::from_int(2).mul(w.mul(h1));
    Fixed::from_int(exponent).mul(Fixed { raw: LN2_RAW }).add(of_mantissa)
}

fn exp_term(f: Fixed, d: i64, p: Fixed) -> (r: Fixed)
    requires
        d > 0,
    ensures
        r == exp_step(f, d as int, p),
{
    assert(d * SCALE > 0) by (nonlinear_arith)
        requires
            d > 0,
            SCALE == 1_000_000_000,
    ;
    Fixed::one().add(f.div(Fixed::from_int(d)).mul(p))
}

/// `e^f` for a small `f`.
pub fn exp_fraction(f: Fixed) -> (r: Fixed)
    ensures
        r == exp_fraction_spec(f),
{
    let h13 = exp_term(f, 13, Fixed::one());
    let h12 = exp_term(f, 12, h13);
    let h11 = exp_term(f, 11, h12);
    let h10 = exp_term(f, 10, h11);
    let h9 = exp_term(f, 9, h10);
    let h8 = exp_term(f, 8, h9);
    let h7 = exp_term(f, 7, h8);
    let h6 = exp_term(f, 6, h7);
    let h5 = exp_term(f, 5, h6);
    let h4 = exp_term(f, 4, h5);
    let h3 = exp_term(f, 3, h4);
    let h2 = exp_term(f, 2, h3);
    exp_term(f, 1, h2)
}

/// `v * 2^k`.
pub fn scale_pow2(v: Fixed, k: i64) -> (r: Fixed)
    ensures
        r == scale_pow2_spec(v, k as int),
{
    let mut raw: i64 = v.raw;
    if k >= 0 {
        let n: i64 = if k > MAX_SHIFT {
            MAX_SHIFT
        } else {
            k
        };
        let mut i: i64 = 0;
        while i < n
            invariant
                0 <= i <= n,
                double_times(raw, (n - i) as nat) == double_times(v.raw, n as nat),
            decreases n - i,
        {
            raw = saturate_i128(2 * (raw as i128));
            i = i + 1;
        }
    } else {
        let n: i64 = if k < -MAX_SHIFT {
            MAX_SHIFT
        } else {
            -k
        };
        let mut i: i64 = 0;
        while i < n
            invariant
                0 <= i <= n,
                halve_times(raw, (n - i) as nat) == halve_times(v.raw, n as nat),
            decreases n - i,
        {
            raw = div_toward_zero(raw as i128, 2) as i64;
            i = i + 1;
        }
    }
    Fixed { raw }
}

/// `e^y`.
pub fn exp(y: Fixed) -> (r: Fixed)
    ensures
        r == exp_spec(y),
{
    let (k, f) = div_rem_floor(y.raw, LN2_RAW);
    scale_pow2(exp_fraction(Fixed { raw: f }), k)
}

/// `x^p` for a base that is not negative.
pub fn pow(x: Fixed, p: Fixed) -> (r: Fixed)
    requires
        x.raw >= 0,
    ensures
        r == pow_spec(x, p),
{
    if x.raw == 0 {
        if p.raw > 0 {
            Fixed { raw: 0 }
        } else if p.raw == 0 {
            Fixed::one()
        } else {
            Fixed { raw: i64::MAX }
        }
    } else {
        exp(p.mul(ln(x)))
    }
}

} // verus!
