use crate::math::fixed::{saturate, SCALE};
use vstd::arithmetic::div_mod::lemma_fundamental_div_mod_converse;
use vstd::prelude::*;

verus! {

/// Largest magnitude that the product of two 64-bit values can have.
pub const PRODUCT_LIMIT: i128 = 0x4000_0000_0000_0000_0000_0000_0000_0000;

/// Quotients at or above this value are reported as this value: they lie
/// outside `i64` on either side, so that nothing is lost once they are
/// brought into range.
pub const QUOTIENT_LIMIT: u128 = 0x1_0000_0000_0000_0000;

pub open spec fn abs_int(x: int) -> int {
    if x < 0 {
        -x
    } else {
        x
    }
}

pub open spec fn limit_quotient(x: int) -> int {
    if x > QUOTIENT_LIMIT {
        QUOTIENT_LIMIT as int
    } else {
        x
    }
}

/// `r` is the integer square root of `n`, rounded down.
pub open spec fn is_floor_sqrt(n: int, r: int) -> bool {
    0 <= r && r * r <= n < (r + 1) * (r + 1)
}

/// The integer square root of `n`, rounded down (0 for negative `n`).
pub open spec fn floor_sqrt(n: int) -> int {
    if n < 0 {
        0
    } else {
        choose|r: int| is_floor_sqrt(n, r)
    }
}

/// At most one number is the rounded-down square root of `n`.
pub proof fn lemma_floor_sqrt_unique(n: int, r: int, s: int)
    requires
        is_floor_sqrt(n, r),
        is_floor_sqrt(n, s),
    ensures
        r == s,
{
    if r < s {
        assert((r + 1) * (r + 1) <= s * s) by (nonlinear_arith)
            requires
                0 <= r,
                r + 1 <= s,
        ;
    } else if s < r {
        assert((s + 1) * (s + 1) <= r * r) by (nonlinear_arith)
            requires
                0 <= s,
                s + 1 <= r,
        ;
    }
}

/// A number that meets the defining property is the square root.
pub proof fn lemma_floor_sqrt_is(n: int, r: int)
    requires
        is_floor_sqrt(n, r),
    ensures
        floor_sqrt(n) == r,
{
    assert(n >= 0) by (nonlinear_arith)
        requires
            r * r <= n,
    ;
    let c = choose|c: int| is_floor_sqrt(n, c);
    lemma_floor_sqrt_unique(n, r, c);
}

/// Integer square root, rounded down.
pub fn isqrt(n: u128) -> (r: u128)
    ensures
        r == floor_sqrt(n as int),
        is_floor_sqrt(n as int, r as int),
{
    let mut lo: u128 = 0;
    let mut hi: u128 = 0x1_0000_0000_0000_0000;
    assert(n < hi * hi) by (nonlinear_arith)
        requires
            hi == 0x1_0000_0000_0000_0000,
            n <= u128::MAX,
    ;
    while hi - lo > 1
        invariant
            lo < hi <= 0x1_0000_0000_0000_0000,
            lo * lo <= n < hi * hi,
        decreases hi - lo,
    {
        let mid: u128 = lo + (hi - lo) / 2;
        assert(mid * mid <= 0xffff_ffff_ffff_ffff * 0xffff_ffff_ffff_ffff) by (nonlinear_arith)
            requires
                0 <= mid <= 0xffff_ffff_ffff_ffff,
        ;
        if mid * mid <= n {
            lo = mid;
        } else {
            hi = mid;
        }
    }
    proof {
        lemma_floor_sqrt_is(n as int, lo as int);
    }
    lo
}

/// Sign and magnitude of the sum of two products of 64-bit values.
pub fn sum_magnitude(x: i128, y: i128) -> (res: (bool, u128))
    requires
        -PRODUCT_LIMIT <= x <= PRODUCT_LIMIT,
        -PRODUCT_LIMIT <= y <= PRODUCT_LIMIT,
    ensures
        res.0 == (x + y < 0),
        res.1 == abs_int(x + y),
{
    if x >= 0 && y >= 0 {
        (false, x as u128 + y as u128)
    } else if x < 0 && y < 0 {
        (true, (-x) as u128 + (-y) as u128)
    } else {
        let s: i128 = x + y;
        if s < 0 {
            (true, (-s) as u128)
        } else {
            (false, s as u128)
        }
    }
}

/// The signed number with the given sign and magnitude, brought into range.
pub fn signed_saturate(negative: bool, magnitude: u128) -> (r: i64)
    ensures
        r == saturate(
            if negative {
                -(magnitude as int)
            } else {
                magnitude as int
            },
        ),
{
    if negative {
        if magnitude >= 0x8000_0000_0000_0000 {
            i64::MIN
        } else {
            -(magnitude as i64)
        }
    } else {
        if magnitude > 0x7fff_ffff_ffff_ffff {
            i64::MAX
        } else {
            magnitude as i64
        }
    }
}

/// Quotient and remainder of `a * b` by `k`, computed without forming the
/// product: it may not fit in 128 bits.
pub fn mul_div_rem(a: u128, b: u64, k: u128) -> (res: (u128, u128))
    requires
        a < k,
    ensures
        a * b == res.0 * k + res.1,
        res.1 < k,
        res.0 <= b,
        res.0 == (a * b) / (k as int),
        res.1 == (a * b) % (k as int),
    decreases b,
{
    if b == 0 {
        proof {
            lemma_fundamental_div_mod_converse(0, k as int, 0, 0);
        }
        (0, 0)
    } else {
        let half: u64 = b / 2;
        let (q, r) = mul_div_rem(a, half, k);
        let doubled: (u128, u128) = if r >= k - r {
            (2 * q + 1, r - (k - r))
        } else {
            (2 * q, r + r)
        };
        let res: (u128, u128) = if b % 2 == 1 {
            if doubled.1 >= k - a {
                (doubled.0 + 1, doubled.1 - (k - a))
            } else {
                (doubled.0, doubled.1 + a)
            }
        } else {
            doubled
        };
        proof {
            let (ai, bi, ki, hi) = (a as int, b as int, k as int, half as int);
            let (qi, ri) = (q as int, r as int);
            assert(ai * (2 * hi) == 2 * (qi * ki) + 2 * ri) by (nonlinear_arith)
                requires
                    ai * hi == qi * ki + ri,
            ;
            assert(ai * (2 * hi + 1) == ai * (2 * hi) + ai) by (nonlinear_arith);
            assert((2 * qi + 1) * ki == 2 * (qi * ki) + ki) by (nonlinear_arith);
            assert((2 * qi + 2) * ki == 2 * (qi * ki) + 2 * ki) by (nonlinear_arith);
            assert((2 * qi) * ki == 2 * (qi * ki)) by (nonlinear_arith);
            assert(ai * bi == res.0 * ki + res.1);
            assert(res.0 <= bi) by (nonlinear_arith)
                requires
                    ai * bi == res.0 * ki + res.1,
                    0 <= ai < ki,
                    0 <= res.1,
                    0 < bi,
                    0 <= res.0,
            ;
            lemma_fundamental_div_mod_converse(ai * bi, ki, res.0 as int, res.1 as int);
        }
        res
    }
}

/// `magnitude * SCALE / k`, rounded down and limited to `QUOTIENT_LIMIT`.
pub fn scale_div(magnitude: u128, k: u128) -> (q: u128)
    requires
        k > 0,
    ensures
        q == limit_quotient((magnitude * SCALE) / (k as int)),
{
    let whole: u128 = magnitude / k;
    let rest: u128 = magnitude % k;
    proof {
        vstd::arithmetic::div_mod::lemma_fundamental_div_mod(magnitude as int, k as int);
        assert(k * whole == whole * k) by (nonlinear_arith);
    }
    if whole > 18_446_744_073 {
        proof {
            assert(magnitude * SCALE >= (18_446_744_074 * SCALE) * k) by (nonlinear_arith)
                requires
                    magnitude >= whole * k,
                    whole >= 18_446_744_074,
                    k > 0,
                    SCALE == 1_000_000_000,
            ;
            vstd::arithmetic::div_mod::lemma_div_is_ordered(
                (18_446_744_074 * SCALE) * k,
                magnitude * SCALE,
                k as int,
            );
            vstd::arithmetic::div_mod::lemma_div_multiples_vanish(
                18_446_744_074 * SCALE,
                k as int,
            );
        }
        QUOTIENT_LIMIT
    } else {
        let (frac, rem) = mul_div_rem(rest, SCALE as u64, k);
        assert(whole * SCALE <= 18_446_744_073 * 1_000_000_000) by (nonlinear_arith)
            requires
                0 <= whole <= 18_446_744_073,
                SCALE == 1_000_000_000,
        ;
        let total: u128 = whole * (SCALE as u128) + frac;
        proof {
            let (m, ki, w, r0) = (magnitude as int, k as int, whole as int, rest as int);
            assert(m * SCALE == (w * SCALE + frac) * ki + rem) by (nonlinear_arith)
                requires
                    m == w * ki + r0,
                    r0 * SCALE == frac * ki + rem,
            ;
            lemma_fundamental_div_mod_converse(m * SCALE, ki, total as int, rem as int);
        }
        if total > QUOTIENT_LIMIT {
            QUOTIENT_LIMIT
        } else {
            total
        }
    }
}

/// Quotient and remainder of `a` by a positive `d`, the remainder never
/// negative.
pub fn div_rem_floor(a: i64, d: i64) -> (res: (i64, i64))
    requires
        d > 0,
    ensures
        res.0 == a as int / d as int,
        res.1 == a as int % d as int,
        0 <= res.1 < d,
{
    if a >= 0 {
        (a / d, a % d)
    } else {
        let magnitude: i128 = -(a as i128);
        let q: i128 = magnitude / (d as i128);
        let r: i128 = magnitude % (d as i128);
        proof {
            vstd::arithmetic::div_mod::lemma_fundamental_div_mod(magnitude as int, d as int);
            assert(d * q <= magnitude) by (nonlinear_arith)
                requires
                    magnitude == d * q + r,
                    r >= 0,
            ;
            assert(q <= magnitude) by (nonlinear_arith)
                requires
                    d * q <= magnitude,
                    d >= 1,
                    q >= 0,
            ;
        }
        if r == 0 {
            proof {
                assert((-q) * d == -(d * q)) by (nonlinear_arith);
                lemma_fundamental_div_mod_converse(a as int, d as int, -q, 0);
            }
            ((-q) as i64, 0)
        } else {
            proof {
                assert(2 * q <= magnitude) by (nonlinear_arith)
                    requires
                        d * q <= magnitude,
                        d >= 2,
                        q >= 0,
                ;
                assert((-q - 1) * d == -(d * q) - d) by (nonlinear_arith);
                lemma_fundamental_div_mod_converse(a as int, d as int, -q - 1, d - r);
            }
            ((-q - 1) as i64, (d as i128 - r) as i64)
        }
    }
}

} // verus!
