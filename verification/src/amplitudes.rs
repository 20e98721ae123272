//! The amplitude vector of a register, stored in a `nalgebra::DVector`.

use nalgebra::DVector;
use num_complex::Complex64;
use vstd::prelude::*;

use crate::complex::zero;

verus! {

/// A column vector of amplitudes. The vector itself is nalgebra's; the
/// verifier knows it only through `amplitude_entries`.
#[verifier::external_body]
pub struct Amplitudes {
    inner: DVector<Complex64>,
}

/// The entries of the vector, first to last.
pub uninterp spec fn amplitude_entries(v: Amplitudes) -> Seq<Complex64>;

impl View for Amplitudes {
    type V = Seq<Complex64>;

    open spec fn view(&self) -> Seq<Complex64> {
        amplitude_entries(*self)
    }
}

/// The largest number of amplitudes that fits in one allocation: an
/// amplitude takes 16 bytes, and no allocation exceeds `isize::MAX` bytes.
pub open spec fn max_entries() -> int {
    isize::MAX / 16
}

/// Calls `DVector::zeros`, which fills a new vector of `len` entries with
/// `Complex64::zero()`, the amplitude with both components zero. Trusted:
/// the new vector has `len` entries, each the amplitude `gaussian(0, 0)`.
/// Lengths that no allocation can hold are left out, since collecting them
/// panics.
#[verifier::external_body]
fn raw_zeros(len: usize) -> (v: Amplitudes)
    requires
        len <= max_entries(),
    ensures
        amplitude_entries(v) == Seq::new(len as nat, |i: int| zero()),
{
    Amplitudes { inner: DVector::zeros(len) }
}

/// Calls `Matrix::len`, the number of elements of the matrix. Trusted: it
/// equals the number of entries.
#[verifier::external_body]
fn raw_len(v: &Amplitudes) -> (n: usize)
    ensures
        n == amplitude_entries(*v).len(),
{
    v.inner.len()
}

/// Calls `Index<usize>::index` of the vector, which panics when `i` is out
/// of bounds. Trusted: within bounds it returns entry `i`.
#[verifier::external_body]
fn raw_get(v: &Amplitudes, i: usize) -> (z: Complex64)
    requires
        i < amplitude_entries(*v).len(),
    ensures
        z == amplitude_entries(*v)[i as int],
{
    v.inner[i]
}

/// Calls `IndexMut<usize>::index_mut` of the vector, which panics when `i`
/// is out of bounds, and stores `z` there. Trusted: within bounds entry `i`
/// becomes `z` and every other entry stays.
#[verifier::external_body]
fn raw_set(v: &mut Amplitudes, i: usize, z: Complex64)
    requires
        i < amplitude_entries(*old(v)).len(),
    ensures
        amplitude_entries(*final(v)) == amplitude_entries(*old(v)).update(i as int, z),
{
    v.inner[i] = z;
}

impl Amplitudes {
    /// A vector of `len` zero amplitudes.
    pub fn zeros(len: usize) -> (v: Amplitudes)
        requires
            len <= max_entries(),
        ensures
            v@ == Seq::new(len as nat, |i: int| zero()),
    {
        raw_zeros(len)
    }

    /// The number of amplitudes.
    pub fn len(&self) -> (n: usize)
        ensures
            n == self@.len(),
    {
        raw_len(self)
    }

    /// Amplitude `i`, or `None` when there is no such entry.
    pub fn get(&self, i: usize) -> (z: Option<Complex64>)
        ensures
            z == if i < self@.len() {
                Some(self@[i as int])
            } else {
                None
            },
    {
        if i < raw_len(self) {
            Some(raw_get(self, i))
        } else {
            None
        }
    }

    /// Amplitude `i` of a vector that has one.
    pub(crate) fn at(&self, i: usize) -> (z: Complex64)
        requires
            i < self@.len(),
        ensures
            z == self@[i as int],
    {
        raw_get(self, i)
    }

    /// Stores `z` as amplitude `i`. Returns whether there is such an entry;
    /// when there is none the vector is unchanged.
    pub fn set(&mut self, i: usize, z: Complex64) -> (stored: bool)
        ensures
            stored == (i < old(self)@.len()),
            final(self)@ == if stored {
                old(self)@.update(i as int, z)
            } else {
                old(self)@
            },
    {
        if i < raw_len(self) {
            raw_set(self, i, z);
            true
        } else {
            false
        }
    }

    /// Stores `z` as amplitude `i` of a vector that has such an entry.
    pub(crate) fn put(&mut self, i: usize, z: Complex64)
        requires
            i < old(self)@.len(),
        ensures
            final(self)@ == old(self)@.update(i as int, z),
    {
        raw_set(self, i, z);
    }
}

} // verus!
