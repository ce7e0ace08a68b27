use crate::math::fixed::{trunc_div, Fixed, SCALE};
use crate::math::wide::{abs_int, div_rem_floor};
use vstd::prelude::*;

verus! {

/// Half a turn, in raw units.
pub const PI_RAW: i64 = 3_141_592_654;

/// A quarter turn, in raw units.
pub const HALF_PI_RAW: i64 = 1_570_796_327;

/// A full turn, in raw units.
pub const TWO_PI_RAW: i64 = 6_283_185_307;

/// Coefficients of the even powers 2, 4, .. 16 in the polynomial that
/// approximates `atan(t) / t` on the unit interval to eight decimal places.
pub const ATAN_C2: i64 = -333_331_453;

pub const ATAN_C4: i64 = 199_935_509;

pub const ATAN_C6: i64 = -142_088_994;

pub const ATAN_C8: i64 = 106_562_639;

pub const ATAN_C10: i64 = -75_289_640;

pub const ATAN_C12: i64 = 42_909_614;

pub const ATAN_C14: i64 = -16_165_737;

pub const ATAN_C16: i64 = 2_866_226;

/// One step of Horner's rule: `c + u * p`.
pub open spec fn horner_step(c: int, u: Fixed, p: Fixed) -> Fixed {
    Fixed { raw: c as i64 }.add_spec(u.mul_spec(p))
}

/// The arc tangent of a slope `t` between 0 and 1, in radians.
pub open spec fn atan_unit_spec(t: Fixed) -> Fixed {
    let u = t.mul_spec(t);
    let h16 = Fixed { raw: ATAN_C16 };
    let h14 = horner_step(ATAN_C14 as int, u, h16);
    let h12 = horner_step(ATAN_C12 as int, u, h14);
    let h10 = horner_step(ATAN_C10 as int, u, h12);
    let h8 = horner_step(ATAN_C8 as int, u, h10);
    let h6 = horner_step(ATAN_C6 as int, u, h8);
    let h4 = horner_step(ATAN_C4 as int, u, h6);
    let h2 = horner_step(ATAN_C2 as int, u, h4);
    let h0 = horner_step(SCALE as int, u, h2);
    t.mul_spec(h0)
}

/// The angle of the point `(x, y)` against the positive x axis, in radians
/// between minus and plus half a turn; 0 for the origin.
pub open spec fn atan2_spec(y: Fixed, x: Fixed) -> Fixed {
    let ax = abs_int(x.raw as int);
    let ay = abs_int(y.raw as int);
    if ax == 0 && ay == 0 {
        Fixed { raw: 0 }
    } else {
        let slope = if ay <= ax {
            Fixed { raw: ((ay * SCALE) / ax) as i64 }
        } else {
            Fixed { raw: ((ax * SCALE) / ay) as i64 }
        };
        let octant = atan_unit_spec(slope);
        let quadrant = if ay <= ax {
            octant
        } else {
            Fixed { raw: HALF_PI_RAW }.sub_spec(octant)
        };
        let upper = if x.raw < 0 {
            Fixed { raw: PI_RAW }.sub_spec(quadrant)
        } else {
            quadrant
        };
        if y.raw < 0 {
            upper.neg_spec()
        } else {
            upper
        }
    }
}

/// Scaling by a factor between 0 and 1 moves a number toward zero.
pub proof fn lemma_mul_unit(u: Fixed, p: Fixed)
    requires
        0 <= u.raw <= SCALE,
    ensures
        p.raw >= 0 ==> 0 <= u.mul_spec(p).raw <= p.raw,
        p.raw <= 0 ==> p.raw <= u.mul_spec(p).raw <= 0,
{
    let (ui, pi) = (u.raw as int, p.raw as int);
    if pi >= 0 {
        assert(0 <= ui * pi <= SCALE * pi) by (nonlinear_arith)
            requires
                0 <= ui <= SCALE,
                0 <= pi,
        ;
        vstd::arithmetic::div_mod::lemma_div_is_ordered(ui * pi, SCALE * pi, SCALE as int);
        vstd::arithmetic::div_mod::lemma_div_is_ordered(0, ui * pi, SCALE as int);
        vstd::arithmetic::div_mod::lemma_div_multiples_vanish(pi, SCALE as int);
        assert(SCALE * pi == pi * SCALE) by (nonlinear_arith);
    } else {
        assert(0 <= -(ui * pi) <= SCALE * (-pi)) by (nonlinear_arith)
            requires
                0 <= ui <= SCALE,
                pi < 0,
        ;
        vstd::arithmetic::div_mod::lemma_div_is_ordered(
            -(ui * pi),
            SCALE * (-pi),
            SCALE as int,
        );
        vstd::arithmetic::div_mod::lemma_div_is_ordered(0, -(ui * pi), SCALE as int);
        vstd::arithmetic::div_mod::lemma_div_multiples_vanish(-pi, SCALE as int);
        assert(SCALE * (-pi) == (-pi) * SCALE) by (nonlinear_arith);
        assert(u.raw * p.raw == ui * pi);
        if ui * pi == 0 {
        } else {
            assert(trunc_div(ui * pi, SCALE as int) == -((-(ui * pi)) / (SCALE as int)));
        }
    }
}

/// The approximation stays between 0 and its argument, as the arc tangent does.
pub proof fn lemma_atan_unit_range(t: Fixed)
    requires
        0 <= t.raw <= SCALE,
    ensures
        0 <= atan_unit_spec(t).raw <= t.raw,
{
    let u = t.mul_spec(t);
    lemma_mul_unit(t, t);
    let h16 = Fixed { raw: ATAN_C16 };
    let h14 = horner_step(ATAN_C14 as int, u, h16);
    lemma_mul_unit(u, h16);
    let h12 = horner_step(ATAN_C12 as int, u, h14);
    lemma_mul_unit(u, h14);
    let h10 = horner_step(ATAN_C10 as int, u, h12);
    lemma_mul_unit(u, h12);
    let h8 = horner_step(ATAN_C8 as int, u, h10);
    lemma_mul_unit(u, h10);
    let h6 = horner_step(ATAN_C6 as int, u, h8);
    lemma_mul_unit(u, h8);
    let h4 = horner_step(ATAN_C4 as int, u, h6);
    lemma_mul_unit(u, h6);
    let h2 = horner_step(ATAN_C2 as int, u, h4);
    lemma_mul_unit(u, h4);
    let h0 = horner_step(SCALE as int, u, h2);
    lemma_mul_unit(u, h2);
    assert(0 <= h0.raw <= SCALE);
    lemma_mul_unit_by(t, h0);
}

/// Scaling a number that is not negative by a factor between 0 and 1 keeps
/// it between 0 and itself, whichever of the two is the factor.
pub proof fn lemma_mul_unit_by(t: Fixed, p: Fixed)
    requires
        0 <= t.raw,
        0 <= p.raw <= SCALE,
    ensures
        0 <= t.mul_spec(p).raw <= t.raw,
{
    lemma_mul_unit(p, t);
    assert(t.raw * p.raw == p.raw * t.raw) by (nonlinear_arith);
}

/// The angle lies within half a turn of zero.
pub proof fn lemma_atan2_range(y: Fixed, x: Fixed)
    ensures
        -PI_RAW <= atan2_spec(y, x).raw <= PI_RAW,
{
    let ax = abs_int(x.raw as int);
    let ay = abs_int(y.raw as int);
    if ax == 0 && ay == 0 {
    } else {
        let (lo, hi) = if ay <= ax {
            (ay, ax)
        } else {
            (ax, ay)
        };
        assert(0 <= (lo * SCALE) / hi <= SCALE) by {
            assert(0 <= lo * SCALE <= hi * SCALE) by (nonlinear_arith)
                requires
                    0 <= lo <= hi,
                    SCALE == 1_000_000_000,
            ;
            vstd::arithmetic::div_mod::lemma_div_is_ordered(lo * SCALE, hi * SCALE, hi);
            vstd::arithmetic::div_mod::lemma_div_is_ordered(0, lo * SCALE, hi);
            vstd::arithmetic::div_mod::lemma_div_multiples_vanish(SCALE as int, hi);
            assert(hi * SCALE == SCALE * hi) by (nonlinear_arith);
        }
        let slope = Fixed { raw: ((lo * SCALE) / hi) as i64 };
        lemma_atan_unit_range(slope);
    }
}

/// The arc tangent of a slope between 0 and 1.
pub fn atan_unit(t: Fixed) -> (r: Fixed)
    ensures
        r == atan_unit_spec(t),
{
    let u = t.mul(t);
    let h16 = Fixed { raw: ATAN_C16 };
    let h14 = Fixed { raw: ATAN_C14 }.add(u.mul(h16));
    let h12 = Fixed { raw: ATAN_C12 }.add(u.mul(h14));
    let h10 = Fixed { raw: ATAN_C10 }.add(u.mul(h12));
    let h8 = Fixed { raw: ATAN_C8 }.add(u.mul(h10));
    let h6 = Fixed { raw: ATAN_C6 }.add(u.mul(h8));
    let h4 = Fixed { raw: ATAN_C4 }.add(u.mul(h6));
    let h2 = Fixed { raw: ATAN_C2 }.add(u.mul(h4));
    let h0 = Fixed { raw: SCALE }.add(u.mul(h2));
    t.mul(h0)
}

/// The magnitude of a 64-bit value.
pub fn magnitude(x: i64) -> (m: u128)
    ensures
        m == abs_int(x as int),
{
    if x < 0 {
        (-(x as i128)) as u128
    } else {
        x as u128
    }
}

/// The angle of the point `(x, y)` against the positive x axis.
pub fn atan2(y: Fixed, x: Fixed) -> (r: Fixed)
    ensures
        r == atan2_spec(y, x),
        -PI_RAW <= r.raw <= PI_RAW,
{
    proof {
        lemma_atan2_range(y, x);
    }
    let ax = magnitude(x.raw);
    let ay = magnitude(y.raw);
    if ax == 0 && ay == 0 {
        return Fixed { raw: 0 };
    }
    let (lo, hi) = if ay <= ax {
        (ay, ax)
    } else {
        (ax, ay)
    };
    assert(0 <= lo * SCALE <= hi * SCALE <= 0x8000_0000_0000_0000 * 1_000_000_000)
        by (nonlinear_arith)
        requires
            0 <= lo <= hi <= 0x8000_0000_0000_0000,
            SCALE == 1_000_000_000,
    ;
    let scaled: u128 = lo * (SCALE as u128);
    proof {
        vstd::arithmetic::div_mod::lemma_div_is_ordered(
            (lo * SCALE) as int,
            (hi * SCALE) as int,
            hi as int,
        );
        vstd::arithmetic::div_mod::lemma_div_multiples_vanish(SCALE as int, hi as int);
        assert(hi * SCALE == SCALE * hi) by (nonlinear_arith);
    }
    let slope = Fixed { raw: (scaled / hi) as i64 };
    let octant = atan_unit(slope);
    let quadrant = if ay <= ax {
        octant
    } else {
        Fixed { raw: HALF_PI_RAW }.sub(octant)
    };
    let upper = if x.raw < 0 {
        Fixed { raw: PI_RAW }.sub(quadrant)
    } else {
        quadrant
    };
    if y.raw < 0 {
        upper.neg()
    } else {
        upper
    }
}

/// One step of the sine and cosine series: `1 - (u / d) * p`.
pub open spec fn trig_step(u: Fixed, d: int, p: Fixed) -> Fixed {
    Fixed::one_spec().sub_spec(u.div_spec(Fixed::from_int_spec(d)).mul_spec(p))
}

/// The sine of an angle within the first quarter turn, from the series
/// `t - t³/3! + t⁵/5! - ..` up to `t^15`.
pub open spec fn sin_quarter_spec(t: Fixed) -> Fixed {
    let u = t.mul_spec(t);
    let h15 = trig_step(u, 210, Fixed::one_spec());
    let h13 = trig_step(u, 156, h15);
    let h11 = trig_step(u, 110, h13);
    let h9 = trig_step(u, 72, h11);
    let h7 = trig_step(u, 42, h9);
    let h5 = trig_step(u, 20, h7);
    let h3 = trig_step(u, 6, h5);
    t.mul_spec(h3)
}

/// The cosine of an angle within the first quarter turn, from the series
/// `1 - t²/2! + t⁴/4! - ..` up to `t^16`.
pub open spec fn cos_quarter_spec(t: Fixed) -> Fixed {
    let u = t.mul_spec(t);
    let h16 = trig_step(u, 240, Fixed::one_spec());
    let h14 = trig_step(u, 182, h16);
    let h12 = trig_step(u, 132, h14);
    let h10 = trig_step(u, 90, h12);
    let h8 = trig_step(u, 56, h10);
    let h6 = trig_step(u, 30, h8);
    let h4 = trig_step(u, 12, h6);
    trig_step(u, 2, h4)
}

/// The quarter of the turn, 0 to 3, in which an angle lies.
pub open spec fn quarter_spec(theta: Fixed) -> int {
    (theta.raw as int % TWO_PI_RAW as int) / HALF_PI_RAW as int
}

/// How far an angle lies into its quarter of the turn.
pub open spec fn quarter_rest_spec(theta: Fixed) -> Fixed {
    Fixed { raw: ((theta.raw as int % TWO_PI_RAW as int) % HALF_PI_RAW as int) as i64 }
}

/// The sine of an angle in radians.
pub open spec fn sin_spec(theta: Fixed) -> Fixed {
    let t = quarter_rest_spec(theta);
    let quarter = quarter_spec(theta);
    if quarter == 0 {
        sin_quarter_spec(t)
    } else if quarter == 1 {
        cos_quarter_spec(t)
    } else if quarter == 2 {
        sin_quarter_spec(t).neg_spec()
    } else {
        cos_quarter_spec(t).neg_spec()
    }
}

/// The cosine of an angle in radians.
pub open spec fn cos_spec(theta: Fixed) -> Fixed {
    let t = quarter_rest_spec(theta);
    let quarter = quarter_spec(theta);
    if quarter == 0 {
        cos_quarter_spec(t)
    } else if quarter == 1 {
        sin_quarter_spec(t).neg_spec()
    } else if quarter == 2 {
        cos_quarter_spec(t).neg_spec()
    } else {
        sin_quarter_spec(t)
    }
}

fn trig_term(u: Fixed, d: i64, p: Fixed) -> (r: Fixed)
    requires
        d > 0,
    ensures
        r == trig_step(u, d as int, p),
{
    assert(d * SCALE > 0) by (nonlinear_arith)
        requires
            d > 0,
            SCALE == 1_000_000_000,
    ;
    Fixed::one().sub(u.div(Fixed::from_int(d)).mul(p))
}

/// The sine of an angle within the first quarter turn.
pub fn sin_quarter(t: Fixed) -> (r: Fixed)
    ensures
        r == sin_quarter_spec(t),
{
    let u = t.mul(t);
    let h15 = trig_term(u, 210, Fixed::one());
    let h13 = trig_term(u, 156, h15);
    let h11 = trig_term(u, 110, h13);
    let h9 = trig_term(u, 72, h11);
    let h7 = trig_term(u, 42, h9);
    let h5 = trig_term(u, 20, h7);
    let h3 = trig_term(u, 6, h5);
    t.mul(h3)
}

/// The cosine of an angle within the first quarter turn.
pub fn cos_quarter(t: Fixed) -> (r: Fixed)
    ensures
        r == cos_quarter_spec(t),
{
    let u = t.mul(t);
    let h16 = trig_term(u, 240, Fixed::one());
    let h14 = trig_term(u, 182, h16);
    let h12 = trig_term(u, 132, h14);
    let h10 = trig_term(u, 90, h12);
    let h8 = trig_term(u, 56, h10);
    let h6 = trig_term(u, 30, h8);
    let h4 = trig_term(u, 12, h6);
    trig_term(u, 2, h4)
}

/// The sine and the cosine of an angle in radians.
pub fn sin_cos(theta: Fixed) -> (res: (Fixed, Fixed))
    ensures
        res.0 == sin_spec(theta),
        res.1 == cos_spec(theta),
{
    let (turns, rest) = div_rem_floor(theta.raw, TWO_PI_RAW);
    let quarter = rest / HALF_PI_RAW;
    let t = Fixed { raw: rest % HALF_PI_RAW };
    let s = sin_quarter(t);
    let c = cos_quarter(t);
    if quarter == 0 {
        (s, c)
    } else if quarter == 1 {
        (c, s.neg())
    } else if quarter == 2 {
        (s.neg(), c.neg())
    } else {
        (c.neg(), s)
    }
}

} // verus!
