//! Newton fractals in fixed-point arithmetic.
//!
//! For a polynomial with integer coefficients and a square window of the
//! complex plane, the library runs Newton's method from every point of a grid
//! and paints each point by the root it reached and the steps it took.
//! Numbers are decimal fixed-point values with nine fractional digits, so
//! that every result is the same on every machine.

pub mod canvas;
pub mod math;
pub mod rendering;
pub mod server;
pub mod text;

use crate::math::complex::{Complex, EPSILON_RAW};
use crate::math::fixed::{div_toward_zero, saturate, saturate_i128, trunc_div, Fixed};
use crate::math::polynomial::{derivative_at_spec, evaluate_spec, Polynomial};
use vstd::prelude::*;

verus! {

/// A square window of the complex plane, sampled on a grid.
///
/// `source` is the corner with the least real and imaginary part, `size` the
/// length of a side and `grid` the number of samples along each side.
#[derive(Clone, Copy, Debug)]
pub struct Field {
    pub source: Complex,
    pub size: Fixed,
    pub grid: u32,
}

/// What Newton's method found from one sample point: the last iterate and
/// the number of steps taken.
#[derive(Clone, Copy, Debug)]
pub struct Solution {
    pub root: Complex,
    pub iter: u32,
}

/// Why a field was not solved.
#[derive(Clone, Copy, Debug, PartialEq, Eq, Structural)]
pub enum SolveError {
    /// The polynomial has no term of degree 1 or more.
    InvalidPolynomial,
    /// The field has no samples or no extent.
    InvalidField,
}

impl Field {
    /// A field has at least one sample per side and a side longer than zero.
    pub open spec fn is_valid_spec(&self) -> bool {
        self.grid > 0 && self.size.raw > 0
    }

    /// The distance of sample `i` from the corner along one axis:
    /// `i * size / grid`, rounded toward zero.
    pub open spec fn offset_spec(&self, i: u32) -> Fixed {
        Fixed { raw: saturate(trunc_div(i * self.size.raw, self.grid as int)) }
    }

    /// The point of the plane that the sample `(i, j)` stands for.
    pub open spec fn sample_spec(&self, i: u32, j: u32) -> Complex {
        self.source.add_spec(Complex { re: self.offset_spec(i), im: self.offset_spec(j) })
    }

    pub fn is_valid(&self) -> (r: bool)
        ensures
            r == self.is_valid_spec(),
    {
        self.grid > 0 && self.size.raw > 0
    }

    fn offset(&self, i: u32) -> (r: Fixed)
        requires
            self.grid > 0,
        ensures
            r == self.offset_spec(i),
    {
        assert(-0x8000_0000_0000_0000_0000_0000 <= i * self.size.raw
            <= 0x8000_0000_0000_0000_0000_0000) by (nonlinear_arith)
            requires
                0 <= i <= 0xffff_ffff,
                -0x8000_0000_0000_0000 <= self.size.raw <= 0x8000_0000_0000_0000,
        ;
        let scaled: i128 = i as i128 * self.size.raw as i128;
        Fixed { raw: saturate_i128(div_toward_zero(scaled, self.grid as i128)) }
    }

    /// The point of the plane that the sample `(i, j)` stands for:
    /// `source + (i * size / grid, j * size / grid)`.
    pub fn sample(&self, i: u32, j: u32) -> (z: Complex)
        requires
            self.grid > 0,
        ensures
            z == self.sample_spec(i, j),
    {
        self.source.add(Complex { re: self.offset(i), im: self.offset(j) })
    }
}

/// The iteration has converged at `z`: the polynomial's value there is
/// smaller than the tolerance.
pub open spec fn converged_spec(coefs: Seq<int>, z: Complex) -> bool {
    evaluate_spec(coefs, z).abs_spec().raw < EPSILON_RAW
}

/// The derivative is zero at `z`, so that no Newton step can be taken.
pub open spec fn derivative_vanishes_spec(coefs: Seq<int>, z: Complex) -> bool {
    derivative_at_spec(coefs, z).is_zero_spec()
}

/// One Newton step from `z`: `z - p(z) / p'(z)`.
pub open spec fn newton_step_spec(coefs: Seq<int>, z: Complex) -> Complex {
    z.sub_spec(evaluate_spec(coefs, z).div_spec(derivative_at_spec(coefs, z)))
}

/// The outcome of Newton's method that stands at `z` after `n` steps and may
/// take `max_iter` steps in all.
pub open spec fn newton_from(coefs: Seq<int>, z: Complex, n: u32, max_iter: u32) -> Solution
    decreases max_iter - n,
{
    if n >= max_iter {
        Solution { root: z, iter: max_iter }
    } else if converged_spec(coefs, z) || derivative_vanishes_spec(coefs, z) {
        Solution { root: z, iter: n }
    } else {
        newton_from(coefs, newton_step_spec(coefs, z), (n + 1) as u32, max_iter)
    }
}

/// The outcome of Newton's method started at `z0`.
pub open spec fn newton_spec(coefs: Seq<int>, z0: Complex, max_iter: u32) -> Solution {
    newton_from(coefs, z0, 0, max_iter)
}

/// The solutions of a whole field: sample `(i, j)` stands at index
/// `i * grid + j`.
pub open spec fn field_solutions_spec(coefs: Seq<int>, field: Field, max_iter: u32) -> Seq<
    Solution,
> {
    Seq::new(
        (field.grid * field.grid) as nat,
        |k: int|
            newton_spec(
                coefs,
                field.sample_spec((k / field.grid as int) as u32, (k % field.grid as int) as u32),
                max_iter,
            ),
    )
}

/// What solving a field returns: the polynomial is looked at first, then the
/// field, and only then is any point iterated.
pub open spec fn field_result_spec(coefs: Seq<int>, field: Field, max_iter: u32) -> Result<
    Seq<Solution>,
    SolveError,
> {
    if coefs.len() < 2 {
        Err(SolveError::InvalidPolynomial)
    } else if !field.is_valid_spec() {
        Err(SolveError::InvalidField)
    } else {
        Ok(field_solutions_spec(coefs, field, max_iter))
    }
}

/// Runs Newton's method from `z0` for at most `max_iter` steps.
///
/// The iteration stops without a further step where the polynomial's value
/// is within the tolerance or its derivative is exactly zero.
pub fn newton_method_point(pol: &Polynomial, z0: Complex, max_iter: u32) -> (s: Solution)
    ensures
        s == newton_spec(pol@, z0, max_iter),
        s.iter <= max_iter,
{
    let mut z = z0;
    let mut n: u32 = 0;
    while n < max_iter
        invariant
            n <= max_iter,
            newton_from(pol@, z, n, max_iter) == newton_spec(pol@, z0, max_iter),
        decreases max_iter - n,
    {
        let fz = pol.evaluate(z);
        if fz.abs().raw < EPSILON_RAW {
            return Solution { root: z, iter: n };
        }
        let dz = pol.derivative_at(z);
        if dz.is_zero() {
            return Solution { root: z, iter: n };
        }
        z = z.sub(fz.div(dz));
        n = n + 1;
    }
    Solution { root: z, iter: max_iter }
}

/// Solves every sample of the field, in the order of `field_solutions_spec`.
pub fn newton_method_field(pol: Polynomial, field: Field, max_iter: u32) -> (res: Result<
    Vec<Solution>,
    SolveError,
>)
    ensures
        match res {
            Ok(v) => Ok(v@),
            Err(e) => Err(e),
        } == field_result_spec(pol@, field, max_iter),
        res matches Ok(v) ==> v@.len() == field.grid * field.grid && forall|k: int|
            0 <= k < v@.len() ==> (#[trigger] v@[k]).iter <= max_iter,
{
    if pol.is_degenerate() {
        return Err(SolveError::InvalidPolynomial);
    }
    if !field.is_valid() {
        return Err(SolveError::InvalidField);
    }
    let grid = field.grid;
    let ghost expected = field_solutions_spec(pol@, field, max_iter);
    let mut solutions: Vec<Solution> = Vec::new();
    let mut i: u32 = 0;
    while i < grid
        invariant
            grid == field.grid,
            grid > 0,
            i <= grid,
            expected == field_solutions_spec(pol@, field, max_iter),
            solutions@.len() == i * grid,
            forall|k: int| 0 <= k < solutions@.len() ==> solutions@[k] == expected[k],
        decreases grid - i,
    {
        let mut j: u32 = 0;
        while j < grid
            invariant
                grid == field.grid,
                grid > 0,
                i < grid,
                j <= grid,
                expected == field_solutions_spec(pol@, field, max_iter),
                solutions@.len() == i * grid + j,
                forall|k: int| 0 <= k < solutions@.len() ==> solutions@[k] == expected[k],
            decreases grid - j,
        {
            let s = newton_method_point(&pol, field.sample(i, j), max_iter);
            proof {
                let k = i * grid + j;
                assert(k < grid * grid) by (nonlinear_arith)
                    requires
                        k == i * grid + j,
                        0 <= i < grid,
                        0 <= j < grid,
                ;
                vstd::arithmetic::div_mod::lemma_fundamental_div_mod_converse(
                    k,
                    grid as int,
                    i as int,
                    j as int,
                );
                assert(expected[k] == s);
            }
            solutions.push(s);
            j = j + 1;
        }
        proof {
            assert((i + 1) * grid == i * grid + grid) by (nonlinear_arith);
        }
        i = i + 1;
    }
    assert(solutions@ =~= expected);
    proof {
        assert forall|k: int| 0 <= k < solutions@.len() implies (#[trigger] solutions@[k]).iter
            <= max_iter by {
            lemma_field_iter_bounded(pol@, field, max_iter, k);
        }
    }
    Ok(solutions)
}

/// The number of steps lies between those already taken and the bound.
pub proof fn lemma_iter_bounded(coefs: Seq<int>, z: Complex, n: u32, max_iter: u32)
    requires
        n <= max_iter,
    ensures
        n <= newton_from(coefs, z, n, max_iter).iter <= max_iter,
    decreases max_iter - n,
{
    if n < max_iter && !converged_spec(coefs, z) && !derivative_vanishes_spec(coefs, z) {
        lemma_iter_bounded(coefs, newton_step_spec(coefs, z), (n + 1) as u32, max_iter);
    }
}

/// Every solution of a field took at most `max_iter` steps.
pub proof fn lemma_field_iter_bounded(coefs: Seq<int>, field: Field, max_iter: u32, k: int)
    requires
        0 <= k < field_solutions_spec(coefs, field, max_iter).len(),
    ensures
        field_solutions_spec(coefs, field, max_iter)[k].iter <= max_iter,
{
    lemma_iter_bounded(
        coefs,
        field.sample_spec((k / field.grid as int) as u32, (k % field.grid as int) as u32),
        0,
        max_iter,
    );
}

/// A point stops short of the bound only where the value is within the
/// tolerance or the derivative is zero: a step, and with it a division, is
/// taken only by a derivative other than zero.
pub proof fn lemma_early_stop_is_detected(coefs: Seq<int>, z: Complex, n: u32, max_iter: u32)
    requires
        n <= max_iter,
    ensures
        ({
            let s = newton_from(coefs, z, n, max_iter);
            s.iter < max_iter ==> converged_spec(coefs, s.root) || derivative_vanishes_spec(
                coefs,
                s.root,
            )
        }),
    decreases max_iter - n,
{
    if n < max_iter && !converged_spec(coefs, z) && !derivative_vanishes_spec(coefs, z) {
        lemma_early_stop_is_detected(coefs, newton_step_spec(coefs, z), (n + 1) as u32, max_iter);
    }
}

/// A start at which the polynomial's value is within the tolerance is
/// returned as it is, after no step.
pub proof fn lemma_root_converges_at_once(coefs: Seq<int>, z0: Complex, max_iter: u32)
    requires
        converged_spec(coefs, z0),
    ensures
        newton_spec(coefs, z0, max_iter).root == z0,
        newton_spec(coefs, z0, max_iter).iter == 0,
{
}

/// A start at which the derivative is zero is returned as it is, after no
/// step: nothing is divided by that derivative.
pub proof fn lemma_vanishing_derivative_stops_at_once(
    coefs: Seq<int>,
    z0: Complex,
    max_iter: u32,
)
    requires
        derivative_vanishes_spec(coefs, z0),
    ensures
        newton_spec(coefs, z0, max_iter).root == z0,
        newton_spec(coefs, z0, max_iter).iter == 0,
{
}

/// Solving is a function of its inputs: two runs on the same polynomial,
/// field and bound give the same outcome, element for element.
pub proof fn lemma_solving_is_reproducible(
    first: Result<Seq<Solution>, SolveError>,
    second: Result<Seq<Solution>, SolveError>,
    coefs: Seq<int>,
    field: Field,
    max_iter: u32,
)
    requires
        first == field_result_spec(coefs, field, max_iter),
        second == field_result_spec(coefs, field, max_iter),
    ensures
        first == second,
        first matches Ok(a) ==> second matches Ok(b) && a.len() == b.len() && forall|k: int|
            0 <= k < a.len() ==> a[k] == b[k],
{
}

} // verus!
