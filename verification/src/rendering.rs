use crate::canvas::{
    buffer_put_pixel, image_height, image_pixels, image_width, new_buffer, Rgb, RgbImage,
};
use crate::math::complex::Complex;
use crate::math::fixed::{trunc_div, Fixed, SCALE};
use crate::math::trig::TWO_PI_RAW;
use crate::{Field, Solution};
use vstd::prelude::*;

verus! {

pub open spec fn half_spec() -> Fixed {
    Fixed { raw: 500_000_000 }
}

pub open spec fn max_spec(a: Fixed, b: Fixed) -> Fixed {
    if a.raw >= b.raw {
        a
    } else {
        b
    }
}

/// The nearest number between 0 and 1.
pub open spec fn clamp01_spec(v: Fixed) -> Fixed {
    if v.raw < 0 {
        Fixed { raw: 0 }
    } else if v.raw > SCALE {
        Fixed { raw: SCALE }
    } else {
        v
    }
}

/// One colour channel from the two bounds `p` and `q` and a hue offset: the
/// hue is wrapped into the unit interval once, then the channel rises from
/// `p` to `q` over the first sixth, stays at `q` up to one half, falls back
/// to `p` up to two thirds and stays at `p` from there.
pub open spec fn hue_to_rgb_spec(p: Fixed, q: Fixed, h: Fixed) -> Fixed {
    let wrapped = if h.raw < 0 {
        h.add_spec(Fixed::one_spec())
    } else if h.raw > SCALE {
        h.sub_spec(Fixed::one_spec())
    } else {
        h
    };
    let six = Fixed::from_int_spec(6);
    if wrapped.raw < Fixed::ratio_spec(1, 6).raw {
        p.add_spec(q.sub_spec(p).mul_spec(six).mul_spec(wrapped))
    } else if wrapped.raw < Fixed::ratio_spec(1, 2).raw {
        q
    } else if wrapped.raw < Fixed::ratio_spec(2, 3).raw {
        p.add_spec(q.sub_spec(p).mul_spec(six).mul_spec(Fixed::ratio_spec(2, 3).sub_spec(wrapped)))
    } else {
        p
    }
}

/// Red, green and blue, each between 0 and 1 for inputs between 0 and 1, of
/// the colour with hue `h`, saturation `s` and luminance `l`.
pub open spec fn hsl_to_rgb_spec(h: Fixed, s: Fixed, l: Fixed) -> (Fixed, Fixed, Fixed) {
    let q = if l.raw < half_spec().raw {
        l.mul_spec(Fixed::one_spec().add_spec(s))
    } else {
        l.add_spec(s).sub_spec(s.mul_spec(l))
    };
    let p = Fixed::from_int_spec(2).mul_spec(l).sub_spec(q);
    let third = Fixed::ratio_spec(1, 3);
    let zero = Fixed::zero_spec();
    (
        max_spec(zero, hue_to_rgb_spec(p, q, h.add_spec(third))),
        max_spec(zero, hue_to_rgb_spec(p, q, h)),
        max_spec(zero, hue_to_rgb_spec(p, q, h.sub_spec(third))),
    )
}

/// The hue of a root: `|1/2 - angle / 2π|`, kept between 0 and 1.
pub open spec fn hue_spec(root: Complex) -> Fixed {
    clamp01_spec(half_spec().sub_spec(root.arg_spec().div_spec(Fixed { raw: TWO_PI_RAW })).abs_spec())
}

/// The saturation of a root: `|1/2 / magnitude|`, kept between 0 and 1; a
/// root of magnitude zero has the saturation 1.
pub open spec fn saturation_spec(root: Complex) -> Fixed {
    let magnitude = root.abs_spec();
    if magnitude.raw == 0 {
        Fixed::one_spec()
    } else {
        clamp01_spec(half_spec().div_spec(magnitude).abs_spec())
    }
}

/// The luminance of a step count: `|1/2 - iter / max_iter|`, kept between 0
/// and 1.
pub open spec fn luminance_spec(iter: u32, max_iter: u32) -> Fixed {
    clamp01_spec(half_spec().sub_spec(Fixed::ratio_spec(iter as int, max_iter as int)).abs_spec())
}

/// A channel between 0 and 1 as a byte: 255 times the channel, without its
/// fraction, and no less than 0 nor more than 255.
pub open spec fn channel_spec(v: Fixed) -> u8 {
    let scaled = trunc_div(v.raw * 255, SCALE as int);
    if scaled < 0 {
        0u8
    } else if scaled > 255 {
        255u8
    } else {
        scaled as u8
    }
}

/// The colour of a solution.
pub open spec fn color_from_root_spec(solution: Solution, max_iter: u32) -> Rgb {
    let (r, g, b) = hsl_to_rgb_spec(
        hue_spec(solution.root),
        saturation_spec(solution.root),
        luminance_spec(solution.iter, max_iter),
    );
    (channel_spec(r), channel_spec(g), channel_spec(b))
}

/// The pixels of the picture of a field: the sample `(i, j)`, whose solution
/// stands at index `i * grid + j`, is the pixel in column `i` of row `j`.
pub open spec fn picture_spec(solutions: Seq<Solution>, grid: u32, max_iter: u32) -> Seq<Rgb> {
    Seq::new(
        (grid * grid) as nat,
        |k: int|
            color_from_root_spec(
                solutions[(k % grid as int) * grid + k / grid as int],
                max_iter,
            ),
    )
}

pub fn clamp01(v: Fixed) -> (r: Fixed)
    ensures
        r == clamp01_spec(v),
        0 <= r.raw <= SCALE,
{
    if v.raw < 0 {
        Fixed { raw: 0 }
    } else if v.raw > SCALE {
        Fixed { raw: SCALE }
    } else {
        v
    }
}

fn max(a: Fixed, b: Fixed) -> (r: Fixed)
    ensures
        r == max_spec(a, b),
{
    if a.raw >= b.raw {
        a
    } else {
        b
    }
}

pub fn hue_to_rgb(p: Fixed, q: Fixed, h: Fixed) -> (r: Fixed)
    ensures
        r == hue_to_rgb_spec(p, q, h),
{
    let h = if h.raw < 0 {
        h.add(Fixed::one())
    } else if h.raw > SCALE {
        h.sub(Fixed::one())
    } else {
        h
    };
    if h.raw < Fixed::ratio(1, 6).raw {
        p.add(q.sub(p).mul(Fixed::from_int(6)).mul(h))
    } else if h.raw < Fixed::ratio(1, 2).raw {
        q
    } else if h.raw < Fixed::ratio(2, 3).raw {
        p.add(q.sub(p).mul(Fixed::from_int(6)).mul(Fixed::ratio(2, 3).sub(h)))
    } else {
        p
    }
}

pub fn hsl_to_rgb(h: Fixed, s: Fixed, l: Fixed) -> (rgb: (Fixed, Fixed, Fixed))
    ensures
        rgb == hsl_to_rgb_spec(h, s, l),
{
    let q = if l.raw < 500_000_000 {
        l.mul(Fixed::one().add(s))
    } else {
        l.add(s).sub(s.mul(l))
    };
    let p = Fixed::from_int(2).mul(l).sub(q);
    let third = Fixed::ratio(1, 3);
    let r = max(Fixed::zero(), hue_to_rgb(p, q, h.add(third)));
    let g = max(Fixed::zero(), hue_to_rgb(p, q, h));
    let b = max(Fixed::zero(), hue_to_rgb(p, q, h.sub(third)));
    (r, g, b)
}

fn channel(v: Fixed) -> (c: u8)
    ensures
        c == channel_spec(v),
{
    let scaled: i128 = (v.raw as i128 * 255) / (SCALE as i128);
    if scaled < 0 {
        0
    } else if scaled > 255 {
        255
    } else {
        scaled as u8
    }
}

/// The colour of a solution: the hue from the angle of its root, the
/// saturation from the root's magnitude and the luminance from the share of
/// the allowed steps that it took.
pub fn color_from_root(solution: &Solution, max_iter: u32) -> (color: Rgb)
    requires
        max_iter > 0,
    ensures
        color == color_from_root_spec(*solution, max_iter),
{
    let half = Fixed { raw: 500_000_000 };
    let arg = solution.root.arg();
    let abs = solution.root.abs();
    let hue = clamp01(half.sub(arg.div(Fixed { raw: TWO_PI_RAW })).abs());
    let sat = if abs.raw == 0 {
        Fixed::one()
    } else {
        clamp01(half.div(abs).abs())
    };
    let lum = clamp01(half.sub(Fixed::ratio(solution.iter as i64, max_iter as i64)).abs());
    let (r, g, b) = hsl_to_rgb(hue, sat, lum);
    (channel(r), channel(g), channel(b))
}

/// Hue, saturation and luminance all lie between 0 and 1.
pub proof fn lemma_hsl_in_unit_interval(solution: Solution, max_iter: u32)
    ensures
        0 <= hue_spec(solution.root).raw <= SCALE,
        0 <= saturation_spec(solution.root).raw <= SCALE,
        0 <= luminance_spec(solution.iter, max_iter).raw <= SCALE,
{
}

/// A product of two numbers between 0 and 1 lies between 0 and either.
pub proof fn lemma_unit_product(a: Fixed, b: Fixed)
    requires
        0 <= a.raw <= SCALE,
        0 <= b.raw,
    ensures
        0 <= a.mul_spec(b).raw <= b.raw,
        0 <= b.mul_spec(a).raw <= b.raw,
{
    let (x, y) = (a.raw as int, b.raw as int);
    assert(0 <= x * y <= y * SCALE && x * y == y * x) by (nonlinear_arith)
        requires
            0 <= x <= SCALE,
            0 <= y,
    ;
    vstd::arithmetic::div_mod::lemma_div_is_ordered(0, x * y, SCALE as int);
    vstd::arithmetic::div_mod::lemma_div_is_ordered(x * y, y * SCALE, SCALE as int);
    vstd::arithmetic::div_mod::lemma_div_multiples_vanish(y, SCALE as int);
}

/// A whole multiple of a number is formed without rounding, within the
/// range.
pub proof fn lemma_whole_multiple(n: int, v: Fixed)
    requires
        0 <= n <= 8,
        0 <= v.raw <= SCALE,
    ensures
        Fixed::from_int_spec(n).mul_spec(v).raw == n * v.raw,
        v.mul_spec(Fixed::from_int_spec(n)).raw == n * v.raw,
{
    let x = v.raw as int;
    assert((n * SCALE) * x == (n * x) * SCALE && x * (n * SCALE) == (n * x) * SCALE
        && 0 <= n * x <= 8 * SCALE) by (nonlinear_arith)
        requires
            0 <= n <= 8,
            0 <= x <= SCALE,
    ;
    vstd::arithmetic::div_mod::lemma_div_multiples_vanish(n * x, SCALE as int);
}

/// The two bounds between which the channels are blended are ordered and lie
/// between 0 and 1.
pub proof fn lemma_blend_bounds(s: Fixed, l: Fixed)
    requires
        0 <= s.raw <= SCALE,
        0 <= l.raw <= SCALE,
    ensures
        ({
            let q = if l.raw < half_spec().raw {
                l.mul_spec(Fixed::one_spec().add_spec(s))
            } else {
                l.add_spec(s).sub_spec(s.mul_spec(l))
            };
            let p = Fixed::from_int_spec(2).mul_spec(l).sub_spec(q);
            0 <= p.raw <= q.raw <= SCALE
        }),
{
    let (si, li) = (s.raw as int, l.raw as int);
    lemma_whole_multiple(2, l);
    if l.raw < half_spec().raw {
        let factor = Fixed::one_spec().add_spec(s);
        assert(li * SCALE <= li * factor.raw <= (2 * li) * SCALE) by (nonlinear_arith)
            requires
                0 <= li,
                SCALE <= factor.raw <= 2 * SCALE,
        ;
        vstd::arithmetic::div_mod::lemma_div_is_ordered(
            li * SCALE,
            li * factor.raw,
            SCALE as int,
        );
        vstd::arithmetic::div_mod::lemma_div_is_ordered(
            li * factor.raw,
            (2 * li) * SCALE,
            SCALE as int,
        );
        vstd::arithmetic::div_mod::lemma_div_multiples_vanish(li, SCALE as int);
        vstd::arithmetic::div_mod::lemma_div_multiples_vanish(2 * li, SCALE as int);
    } else {
        lemma_unit_product(l, s);
        let shared = s.mul_spec(l);
        assert(si * li >= (li + si - SCALE) * SCALE) by (nonlinear_arith)
            requires
                0 <= si <= SCALE,
                0 <= li <= SCALE,
        ;
        if li + si - SCALE >= 0 {
            vstd::arithmetic::div_mod::lemma_div_is_ordered(
                (li + si - SCALE) * SCALE,
                si * li,
                SCALE as int,
            );
            vstd::arithmetic::div_mod::lemma_div_multiples_vanish(li + si - SCALE, SCALE as int);
        }
    }
}

/// A channel lies between the two bounds that it is blended from.
pub proof fn lemma_channel_between(p: Fixed, q: Fixed, h: Fixed)
    requires
        0 <= p.raw <= q.raw <= SCALE,
        -SCALE <= h.raw <= 2 * SCALE,
    ensures
        p.raw <= hue_to_rgb_spec(p, q, h).raw <= q.raw,
{
    let wrapped = if h.raw < 0 {
        h.add_spec(Fixed::one_spec())
    } else if h.raw > SCALE {
        h.sub_spec(Fixed::one_spec())
    } else {
        h
    };
    let span = q.sub_spec(p);
    let six = Fixed::from_int_spec(6);
    lemma_whole_multiple(6, span);
    let steep = span.mul_spec(six);
    assert(Fixed::ratio_spec(1, 6).raw == 166_666_666);
    assert(Fixed::ratio_spec(1, 2).raw == 500_000_000);
    assert(Fixed::ratio_spec(2, 3).raw == 666_666_666);
    let along = if wrapped.raw < 166_666_666 {
        wrapped
    } else {
        Fixed::ratio_spec(2, 3).sub_spec(wrapped)
    };
    if wrapped.raw < 166_666_666 || (500_000_000 <= wrapped.raw < 666_666_666) {
        let (d, x) = (span.raw as int, along.raw as int);
        assert(0 <= (6 * d) * x <= d * SCALE) by (nonlinear_arith)
            requires
                0 <= d,
                0 <= x <= 166_666_666,
                SCALE == 1_000_000_000,
        ;
        vstd::arithmetic::div_mod::lemma_div_is_ordered(0, (6 * d) * x, SCALE as int);
        vstd::arithmetic::div_mod::lemma_div_is_ordered((6 * d) * x, d * SCALE, SCALE as int);
        vstd::arithmetic::div_mod::lemma_div_multiples_vanish(d, SCALE as int);
        assert(0 <= steep.mul_spec(along).raw <= d);
    }
}

/// For a hue, a saturation and a luminance between 0 and 1, red, green and
/// blue lie between 0 and 1, so that no channel is cut off when it is made
/// a byte.
pub proof fn lemma_rgb_in_unit_interval(h: Fixed, s: Fixed, l: Fixed)
    requires
        0 <= h.raw <= SCALE,
        0 <= s.raw <= SCALE,
        0 <= l.raw <= SCALE,
    ensures
        0 <= hsl_to_rgb_spec(h, s, l).0.raw <= SCALE,
        0 <= hsl_to_rgb_spec(h, s, l).1.raw <= SCALE,
        0 <= hsl_to_rgb_spec(h, s, l).2.raw <= SCALE,
{
    let q = if l.raw < half_spec().raw {
        l.mul_spec(Fixed::one_spec().add_spec(s))
    } else {
        l.add_spec(s).sub_spec(s.mul_spec(l))
    };
    let p = Fixed::from_int_spec(2).mul_spec(l).sub_spec(q);
    let third = Fixed::ratio_spec(1, 3);
    assert(third.raw == 333_333_333);
    lemma_blend_bounds(s, l);
    lemma_channel_between(p, q, h.add_spec(third));
    lemma_channel_between(p, q, h);
    lemma_channel_between(p, q, h.sub_spec(third));
}

/// Paints the solutions of a field: the solution of the sample `(i, j)` is
/// the pixel in column `i` of row `j`.
pub fn render_image(solutions: &Vec<Solution>, field: &Field, max_iter: u32) -> (img: RgbImage)
    requires
        solutions.len() >= field.grid * field.grid,
        3 * field.grid * field.grid <= isize::MAX,
        max_iter > 0,
    ensures
        image_width(img) == field.grid,
        image_height(img) == field.grid,
        image_pixels(img) == picture_spec(solutions@, field.grid, max_iter),
{
    let grid = field.grid;
    let mut image = new_buffer(grid, grid);
    let ghost expected = picture_spec(solutions@, grid, max_iter);
    let mut next: usize = 0;
    let mut i: u32 = 0;
    while i < grid
        invariant
            i <= grid,
            max_iter > 0,
            solutions.len() >= grid * grid,
            expected == picture_spec(solutions@, grid, max_iter),
            next == i * grid,
            image_width(image) == grid,
            image_height(image) == grid,
            image_pixels(image).len() == grid * grid,
            forall|x: int, y: int|
                0 <= x < i && 0 <= y < grid ==> #[trigger] image_pixels(image)[y * grid + x]
                    == expected[y * grid + x],
        decreases grid - i,
    {
        let mut j: u32 = 0;
        while j < grid
            invariant
                i < grid,
                j <= grid,
                max_iter > 0,
                solutions.len() >= grid * grid,
                expected == picture_spec(solutions@, grid, max_iter),
                next == i * grid + j,
                image_width(image) == grid,
                image_height(image) == grid,
                image_pixels(image).len() == grid * grid,
                forall|x: int, y: int|
                    0 <= x < i && 0 <= y < grid ==> #[trigger] image_pixels(image)[y * grid + x]
                        == expected[y * grid + x],
                forall|y: int|
                    0 <= y < j ==> #[trigger] image_pixels(image)[y * grid + i] == expected[y
                        * grid + i],
            decreases grid - j,
        {
            proof {
                lemma_cell_index(i as int, j as int, grid as int);
                lemma_cell_index(j as int, i as int, grid as int);
            }
            let color = color_from_root(&solutions[next], max_iter);
            let ghost before = image_pixels(image);
            buffer_put_pixel(&mut image, i, j, color);
            proof {
                assert(expected[j * grid + i] == color);
                assert forall|x: int, y: int| 0 <= x < i && 0 <= y < grid implies #[trigger]
                    image_pixels(image)[y * grid + x] == expected[y * grid + x] by {
                    lemma_cell_index(y, x, grid as int);
                    assert(before[y * grid + x] == expected[y * grid + x]);
                }
                assert forall|y: int| 0 <= y < j + 1 implies #[trigger] image_pixels(image)[y
                    * grid + i] == expected[y * grid + i] by {
                    lemma_cell_index(y, i as int, grid as int);
                    if y < j {
                        assert(before[y * grid + i] == expected[y * grid + i]);
                    }
                }
            }
            next = next + 1;
            j = j + 1;
        }
        proof {
            assert((i + 1) * grid == i * grid + grid) by (nonlinear_arith);
        }
        i = i + 1;
    }
    proof {
        assert forall|k: int| 0 <= k < grid * grid implies image_pixels(image)[k] == expected[k] by {
            let (x, y) = (k % grid as int, k / grid as int);
            vstd::arithmetic::div_mod::lemma_fundamental_div_mod(k, grid as int);
            vstd::arithmetic::div_mod::lemma_div_pos_is_pos(k, grid as int);
            assert(grid * y == y * grid) by (nonlinear_arith);
            assert(y < grid) by (nonlinear_arith)
                requires
                    y * grid + x == k,
                    k < grid * grid,
                    0 <= x,
                    grid > 0,
            ;
            assert(image_pixels(image)[y * grid + x] == expected[y * grid + x]);
        }
        assert(image_pixels(image) =~= expected);
    }
    image
}

/// The cell `(row, column)` of a square table stands at an index of its own
/// within the table, from which the row and the column can be read back.
pub proof fn lemma_cell_index(row: int, column: int, side: int)
    requires
        0 <= row < side,
        0 <= column < side,
    ensures
        0 <= row * side + column < side * side,
        (row * side + column) / side == row,
        (row * side + column) % side == column,
{
    assert(0 <= row * side + column < side * side) by (nonlinear_arith)
        requires
            0 <= row < side,
            0 <= column < side,
    ;
    vstd::arithmetic::div_mod::lemma_fundamental_div_mod_converse(
        row * side + column,
        side,
        row,
        column,
    );
}

} // verus!
