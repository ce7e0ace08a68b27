use crate::math::complex::Complex;
use vstd::prelude::*;

verus! {

/// A polynomial with integer coefficients, the constant term first.
#[derive(Clone, Debug)]
pub struct Polynomial {
    pub coefs: Vec<i32>,
}

impl View for Polynomial {
    type V = Seq<int>;

    /// The coefficients as mathematical integers: entry `k` belongs to `z^k`.
    open spec fn view(&self) -> Seq<int> {
        self.coefs@.map_values(|c: i32| c as int)
    }
}

/// The value at `z` of the polynomial whose coefficients are those of
/// `coefs` from index `k` on, by Horner's rule:
/// `coefs[k] + z * (coefs[k + 1] + z * (..))`.
pub open spec fn horner_from(coefs: Seq<int>, z: Complex, k: int) -> Complex
    decreases coefs.len() - k,
{
    if k < 0 || k >= coefs.len() {
        Complex::zero_spec()
    } else {
        Complex::from_int_spec(coefs[k]).add_spec(z.mul_spec(horner_from(coefs, z, k + 1)))
    }
}

/// The coefficients of the formal derivative: entry `k` is
/// `(k + 1) * coefs[k + 1]`.
pub open spec fn derivative_coefs(coefs: Seq<int>) -> Seq<int> {
    if coefs.len() == 0 {
        Seq::<int>::empty()
    } else {
        Seq::new((coefs.len() - 1) as nat, |k: int| (k + 1) * coefs[k + 1])
    }
}

/// The value of a polynomial at `z`.
pub open spec fn evaluate_spec(coefs: Seq<int>, z: Complex) -> Complex {
    horner_from(coefs, z, 0)
}

/// The value of a polynomial's formal derivative at `z`.
pub open spec fn derivative_at_spec(coefs: Seq<int>, z: Complex) -> Complex {
    horner_from(derivative_coefs(coefs), z, 0)
}

/// A polynomial without a term of degree 1 or more has the derivative zero
/// everywhere.
pub proof fn lemma_constant_has_zero_derivative(coefs: Seq<int>, z: Complex)
    requires
        coefs.len() <= 1,
    ensures
        derivative_at_spec(coefs, z) == Complex::zero_spec(),
{
}

impl Polynomial {
    /// The degree: one less than the number of coefficients, and -1 for none.
    pub open spec fn degree_spec(&self) -> int {
        self@.len() - 1
    }

    /// A polynomial of degree 0, or without coefficients, is degenerate.
    pub open spec fn is_degenerate_spec(&self) -> bool {
        self.degree_spec() < 1
    }

    pub fn new(coefs: Vec<i32>) -> (p: Polynomial)
        ensures
            p.coefs == coefs,
            p@ == coefs@.map_values(|c: i32| c as int),
    {
        Polynomial { coefs }
    }

    pub fn is_degenerate(&self) -> (r: bool)
        ensures
            r == self.is_degenerate_spec(),
    {
        self.coefs.len() < 2
    }

    /// The value of the polynomial at `z`.
    pub fn evaluate(&self, z: Complex) -> (r: Complex)
        ensures
            r == evaluate_spec(self@, z),
    {
        let mut acc = Complex::zero();
        let mut k: usize = self.coefs.len();
        while k > 0
            invariant
                k <= self.coefs.len(),
                acc == horner_from(self@, z, k as int),
            decreases k,
        {
            k = k - 1;
            acc = Complex::from_int(self.coefs[k] as i128).add(z.mul(acc));
        }
        acc
    }

    /// The value of the formal derivative at `z`.
    pub fn derivative_at(&self, z: Complex) -> (r: Complex)
        ensures
            r == derivative_at_spec(self@, z),
    {
        let mut acc = Complex::zero();
        if self.coefs.len() == 0 {
            return acc;
        }
        let ghost derived = derivative_coefs(self@);
        let mut k: usize = self.coefs.len() - 1;
        while k > 0
            invariant
                k <= self.coefs.len() - 1,
                derived == derivative_coefs(self@),
                self.coefs.len() > 0,
                acc == horner_from(derived, z, k as int),
            decreases k,
        {
            k = k - 1;
            let factor: i128 = k as i128 + 1;
            let coef: i128 = self.coefs[k + 1] as i128;
            assert(-0x8000_0000_0000_0000_0000_0000 <= factor * coef
                <= 0x8000_0000_0000_0000_0000_0000) by (nonlinear_arith)
                requires
                    0 < factor <= 0x1_0000_0000_0000_0000,
                    -0x8000_0000 <= coef <= 0x8000_0000,
            ;
            assert(derived[k as int] == factor * coef);
            acc = Complex::from_int(factor * coef).add(z.mul(acc));
        }
        acc
    }
}

} // verus!
