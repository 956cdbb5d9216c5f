use vstd::prelude::*;

verus! {

use crate::fixed::{fmul, fp_mul, lemma_fmul_bound, lemma_fmul_square_nonneg};
use vstd::arithmetic::div_mod::{lemma_fundamental_div_mod, lemma_mod_bound};

/// Largest component magnitude (about 1983 whole units) accepted by the
/// escape-time arithmetic; it keeps every intermediate product inside `i64`.
pub const COMPONENT_LIMIT: i64 = 130_000_000;

/// Bound on the components of the square of an in-range complex number.
pub const SQUARE_LIMIT: i64 = 520_000_000_000;

/// Largest component magnitude on which the squared norm can be computed
/// without overflow.
pub const NORM_INPUT_LIMIT: i64 = 521_000_000_000;

/// A complex number with fixed-point real and imaginary components.
#[derive(Clone, Copy, Debug, PartialEq, Eq, Structural)]
pub struct ComplexNumber {
    pub real: i64,
    pub imaginary: i64,
}

/// The pair of mathematical component values of `z`.
pub open spec fn cval(z: ComplexNumber) -> (int, int) {
    (z.real as int, z.imaginary as int)
}

/// Both components lie within `COMPONENT_LIMIT`.
pub open spec fn in_range(z: (int, int)) -> bool {
    &&& -(COMPONENT_LIMIT as int) <= z.0 <= COMPONENT_LIMIT as int
    &&& -(COMPONENT_LIMIT as int) <= z.1 <= COMPONENT_LIMIT as int
}

/// The fixed-point square of a complex number:
/// `(re, im)^2 == (re^2 - im^2, 2 * re * im)`.
pub open spec fn sq_spec(z: (int, int)) -> (int, int) {
    (fmul(z.0, z.0) - fmul(z.1, z.1), fmul(2 * z.0, z.1))
}

/// Componentwise complex addition.
pub open spec fn add_spec(z: (int, int), w: (int, int)) -> (int, int) {
    (z.0 + w.0, z.1 + w.1)
}

/// The squared norm `re^2 + im^2` in fixed point.
pub open spec fn norm_spec(z: (int, int)) -> int {
    fmul(z.0, z.0) + fmul(z.1, z.1)
}

impl ComplexNumber {
    pub fn new(re: i64, im: i64) -> (z: ComplexNumber)
        ensures
            z.real == re,
            z.imaginary == im,
    {
        ComplexNumber { real: re, imaginary: im }
    }

    /// The complex square, for in-range inputs.
    pub fn square(self) -> (z: ComplexNumber)
        requires
            in_range(cval(self)),
        ensures
            cval(z) == sq_spec(cval(self)),
            -(SQUARE_LIMIT as int) <= z.real as int <= SQUARE_LIMIT as int,
            -(SQUARE_LIMIT as int) <= z.imaginary as int <= SQUARE_LIMIT as int,
    {
        proof {
            lemma_fmul_bound(self.real as int, self.real as int, 130_000_000, 130_000_000);
            lemma_fmul_bound(self.imaginary as int, self.imaginary as int, 130_000_000, 130_000_000);
            lemma_fmul_bound(
                2 * (self.real as int),
                self.imaginary as int,
                260_000_000,
                130_000_000,
            );
        }
        let rr: i64 = fp_mul(self.real, self.real);
        let ii: i64 = fp_mul(self.imaginary, self.imaginary);
        let doubled: i64 = 2 * self.real;
        let ri: i64 = fp_mul(doubled, self.imaginary);
        ComplexNumber { real: rr - ii, imaginary: ri }
    }

    /// The squared norm, nonnegative and overflow-free for bounded inputs.
    pub fn norm(&self) -> (n: i64)
        requires
            -(NORM_INPUT_LIMIT as int) <= self.real as int <= NORM_INPUT_LIMIT as int,
            -(NORM_INPUT_LIMIT as int) <= self.imaginary as int <= NORM_INPUT_LIMIT as int,
        ensures
            n as int == norm_spec(cval(*self)),
            0 <= n,
    {
        proof {
            lemma_fmul_bound(self.real as int, self.real as int, 521_000_000_000, 521_000_000_000);
            lemma_fmul_bound(
                self.imaginary as int,
                self.imaginary as int,
                521_000_000_000,
                521_000_000_000,
            );
            lemma_fmul_square_nonneg(self.real as int);
            lemma_fmul_square_nonneg(self.imaginary as int);
        }
        let rr: i64 = fp_mul(self.real, self.real);
        let ii: i64 = fp_mul(self.imaginary, self.imaginary);
        rr + ii
    }

    /// Componentwise addition; the caller guarantees the sums fit.
    pub fn add(self, rhs: ComplexNumber) -> (z: ComplexNumber)
        requires
            i64::MIN <= self.real + rhs.real <= i64::MAX,
            i64::MIN <= self.imaginary + rhs.imaginary <= i64::MAX,
        ensures
            cval(z) == add_spec(cval(self), cval(rhs)),
    {
        ComplexNumber { real: self.real + rhs.real, imaginary: self.imaginary + rhs.imaginary }
    }

    /// Addition of a real scalar to the real component.
    pub fn add_real(self, rhs: i64) -> (z: ComplexNumber)
        requires
            i64::MIN <= self.real + rhs <= i64::MAX,
        ensures
            z.real == self.real + rhs,
            z.imaginary == self.imaginary,
    {
        ComplexNumber { real: self.real + rhs, imaginary: self.imaginary }
    }
}

/// A complex number whose squared norm stays within four whole units has both
/// components within two whole units, so it stays in range for squaring.
pub proof fn lemma_bounded_norm_bounds_parts(z: (int, int))
    requires
        norm_spec(z) <= 4 * 65536,
    ensures
        -131072 <= z.0 <= 131072,
        -131072 <= z.1 <= 131072,
{
    lemma_fmul_square_nonneg(z.0);
    lemma_fmul_square_nonneg(z.1);
    lemma_component_bound(z.0);
    lemma_component_bound(z.1);
}

proof fn lemma_component_bound(a: int)
    requires
        fmul(a, a) <= 4 * 65536,
    ensures
        -131072 <= a <= 131072,
{
    assert(0 <= a * a) by (nonlinear_arith);
    lemma_fundamental_div_mod(a * a, 65536);
    lemma_mod_bound(a * a, 65536);
    assert(a * a <= 65536 * (4 * 65536) + 65535);
    assert(a * a <= 17180065791 ==> -131072 <= a <= 131072) by (nonlinear_arith);
}

} // verus!
