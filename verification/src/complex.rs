//! Complex amplitudes and the arithmetic on them.
//!
//! An amplitude is a `num_complex::Complex64`. Its components are binary
//! floating-point numbers, about which nothing is proved in this crate: the
//! verifier sees an amplitude as an opaque value, and sees the sum, product
//! and conjugate that `num_complex` computes only as the uninterpreted
//! functions below. A contract that mentions `complex_product(a, b)` says
//! "whatever `a * b` evaluates to", no more. The operations are those of
//! IEEE 754 arithmetic, which gives one result for given operands; two
//! results that are both not-a-number are not told apart.

use num_complex::Complex64;
use vstd::prelude::*;

verus! {

/// `num_complex::Complex`, made known to the verifier as a type whose values
/// it cannot look into.
#[verifier::external_type_specification]
#[verifier::external_body]
#[verifier::reject_recursive_types(T)]
pub struct ExComplex<T>(num_complex::Complex<T>);

/// The amplitude whose real part is the integer `re` and whose imaginary
/// part is the integer `im`, as `num_complex::c64` builds it.
pub uninterp spec fn gaussian(re: int, im: int) -> Complex64;

/// What `a + b` evaluates to in `num_complex`.
pub uninterp spec fn complex_sum(a: Complex64, b: Complex64) -> Complex64;

/// What `a * b` evaluates to in `num_complex`.
pub uninterp spec fn complex_product(a: Complex64, b: Complex64) -> Complex64;

/// What `a.conj()` evaluates to in `num_complex`.
pub uninterp spec fn complex_conjugate(a: Complex64) -> Complex64;

/// The amplitude zero.
pub open spec fn zero() -> Complex64 {
    gaussian(0, 0)
}

/// The amplitude one.
pub open spec fn one() -> Complex64 {
    gaussian(1, 0)
}

/// Calls `num_complex::c64` on two small integers. Trusted: the result is the
/// amplitude named `gaussian(re, im)`. The conversion of an `i32` to a
/// component is exact, so the name stands for one value.
#[verifier::external_body]
pub(crate) fn from_integers(re: i32, im: i32) -> (z: Complex64)
    ensures
        z == gaussian(re as int, im as int),
{
    num_complex::c64(re, im)
}

/// Calls `Add::add` of `Complex64`, which adds the real parts and the
/// imaginary parts. Trusted: the result is the amplitude named
/// `complex_sum(a, b)`.
#[verifier::external_body]
pub(crate) fn sum_of(a: Complex64, b: Complex64) -> (z: Complex64)
    ensures
        z == complex_sum(a, b),
{
    a + b
}

/// Calls `Mul::mul` of `Complex64`, the product
/// `(a.re·b.re − a.im·b.im) + (a.re·b.im + a.im·b.re)·i`. Trusted: the result
/// is the amplitude named `complex_product(a, b)`.
#[verifier::external_body]
pub(crate) fn product_of(a: Complex64, b: Complex64) -> (z: Complex64)
    ensures
        z == complex_product(a, b),
{
    a * b
}

/// Calls `Complex64::conj`, which negates the imaginary part. Trusted: the
/// result is the amplitude named `complex_conjugate(a)`.
#[verifier::external_body]
pub(crate) fn conjugate_of(a: Complex64) -> (z: Complex64)
    ensures
        z == complex_conjugate(a),
{
    a.conj()
}

} // verus!
