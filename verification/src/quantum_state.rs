//! The register: an amplitude vector and the operations that change it.

use num_complex::Complex64;
use vstd::arithmetic::power2::{lemma_pow2_pos, pow2};
use vstd::prelude::*;

use crate::amplitudes::{max_entries, Amplitudes};
use crate::basis::{
    bit_value, lemma_bit_stays_in_range, lemma_not_a_base, lemma_not_a_quad_base, lemma_pair,
    lemma_quad, lemma_shift_is_pow2, lemma_without_bits_le, with_bit, without_bit, without_bits,
};
use crate::complex::{
    complex_conjugate, complex_product, complex_sum, conjugate_of, from_integers, one,
    product_of, sum_of, zero,
};
use crate::error::SimError;

verus! {

/// An `n`-qubit register. `amplitudes[i]` is the coefficient of basis state
/// `i`; qubit 0 is the least-significant bit of `i`.
pub struct QuantumState {
    pub amplitudes: Amplitudes,
    pub num_qubits: usize,
}

/// Whether a register of `num_qubits` qubits can be held: `2^num_qubits`
/// must be a `usize`, and that many amplitudes must fit in one allocation.
pub open spec fn representable(num_qubits: usize) -> bool {
    num_qubits < usize::BITS && pow2(num_qubits as nat) <= max_entries()
}

/// The state `|0…0⟩` on `num_qubits` qubits: amplitude one at index 0 and
/// zero everywhere else.
pub open spec fn ground_state(num_qubits: usize) -> Seq<Complex64> {
    Seq::new(pow2(num_qubits as nat), |i: int| if i == 0 { one() } else { zero() })
}

/// Entry `i` of the vector that a one-qubit gate makes of `old`. With `b` the
/// value of bit `qubit` in `i`, it is row `b` of the 2×2 matrix applied to
/// the pair of old amplitudes at `i` with that bit cleared and `i` with that
/// bit set.
pub open spec fn single_qubit_entry(
    old: Seq<Complex64>,
    gate: Seq<Complex64>,
    qubit: usize,
    i: usize,
) -> Complex64 {
    let row = bit_value(i, qubit);
    let i0 = without_bit(i, qubit);
    let i1 = with_bit(i, qubit);
    complex_sum(
        complex_product(gate[2 * row], old[i0 as int]),
        complex_product(gate[2 * row + 1], old[i1 as int]),
    )
}

/// The vector that a one-qubit gate on `qubit` makes of `old`.
pub open spec fn single_qubit_image(
    old: Seq<Complex64>,
    gate: Seq<Complex64>,
    qubit: usize,
) -> Seq<Complex64> {
    Seq::new(old.len(), |i: int| single_qubit_entry(old, gate, qubit, i as usize))
}

/// Entry `i` of the vector that a two-qubit gate makes of `old`. The four
/// basis states that agree with `i` outside `control` and `target` are taken
/// in the order 00, 01, 10, 11 of (control bit, target bit); the entry is the
/// row of the 4×4 matrix that belongs to the bits of `i`, applied to the old
/// amplitudes of those four states, the products added left to right.
pub open spec fn two_qubit_entry(
    old: Seq<Complex64>,
    gate: Seq<Complex64>,
    control: usize,
    target: usize,
    i: usize,
) -> Complex64 {
    let row = 2 * bit_value(i, control) + bit_value(i, target);
    let i00 = without_bits(i, control, target);
    let i01 = with_bit(i00, target);
    let i10 = with_bit(i00, control);
    let i11 = with_bit(i10, target);
    complex_sum(
        complex_sum(
            complex_sum(
                complex_product(gate[4 * row], old[i00 as int]),
                complex_product(gate[4 * row + 1], old[i01 as int]),
            ),
            complex_product(gate[4 * row + 2], old[i10 as int]),
        ),
        complex_product(gate[4 * row + 3], old[i11 as int]),
    )
}

/// The vector that a two-qubit gate on `control` and `target` makes of `old`.
pub open spec fn two_qubit_image(
    old: Seq<Complex64>,
    gate: Seq<Complex64>,
    control: usize,
    target: usize,
) -> Seq<Complex64> {
    Seq::new(old.len(), |i: int| two_qubit_entry(old, gate, control, target, i as usize))
}

/// The sum of `conj(a[i])·b[i]` over the first `upto` indices, added up
/// from zero in rising order of `i`.
pub open spec fn inner_product(a: Seq<Complex64>, b: Seq<Complex64>, upto: int) -> Complex64
    decreases upto,
{
    if upto <= 0 {
        zero()
    } else {
        complex_sum(
            inner_product(a, b, upto - 1),
            complex_product(complex_conjugate(a[upto - 1]), b[upto - 1]),
        )
    }
}

impl View for QuantumState {
    type V = Seq<Complex64>;

    open spec fn view(&self) -> Seq<Complex64> {
        self.amplitudes@
    }
}

impl QuantumState {
    /// The register holds `2^num_qubits` amplitudes.
    pub open spec fn wf(&self) -> bool {
        &&& representable(self.num_qubits)
        &&& self.amplitudes@.len() == pow2(self.num_qubits as nat)
    }

    /// Whether a register of `num_qubits` qubits can be held on this machine.
    pub fn is_representable(num_qubits: usize) -> (ok: bool)
        ensures
            ok == representable(num_qubits),
    {
        if num_qubits >= usize::BITS as usize {
            return false;
        }
        proof {
            lemma_shift_is_pow2(num_qubits);
        }
        (1usize << num_qubits) <= (isize::MAX as usize) / 16
    }

    /// A register of `num_qubits` qubits in the state `|0…0⟩`.
    pub fn new(num_qubits: usize) -> (state: QuantumState)
        requires
            representable(num_qubits),
        ensures
            state.wf(),
            state.num_qubits == num_qubits,
            state@ == ground_state(num_qubits),
    {
        proof {
            lemma_shift_is_pow2(num_qubits);
            lemma_pow2_pos(num_qubits as nat);
        }
        let size: usize = 1usize << num_qubits;
        let mut amplitudes = Amplitudes::zeros(size);
        amplitudes.put(0, from_integers(1, 0));
        QuantumState { amplitudes, num_qubits }
    }

    /// The number of amplitudes, `2^num_qubits`.
    pub fn dimension(&self) -> (size: usize)
        requires
            self.wf(),
        ensures
            size == pow2(self.num_qubits as nat),
            size == self@.len(),
    {
        self.amplitudes.len()
    }

    /// Whether the register holds `2^num_qubits` amplitudes, as every
    /// register does that was made by `new` and changed only by the
    /// operations of this type.
    pub fn is_well_formed(&self) -> (ok: bool)
        ensures
            ok == self.wf(),
    {
        if !Self::is_representable(self.num_qubits) {
            return false;
        }
        proof {
            lemma_shift_is_pow2(self.num_qubits);
        }
        self.amplitudes.len() == 1usize << self.num_qubits
    }

    /// The amplitudes as a plain vector, in index order.
    pub fn to_vec(&self) -> (all: Vec<Complex64>)
        ensures
            all@ == self@,
    {
        let size = self.amplitudes.len();
        let mut all: Vec<Complex64> = Vec::new();
        let mut i: usize = 0;
        while i < size
            invariant
                i <= size,
                size == self@.len(),
                all@ == self@.subrange(0, i as int),
            decreases size - i,
        {
            all.push(self.amplitudes.at(i));
            proof {
                assert(all@ =~= self@.subrange(0, i + 1));
            }
            i += 1;
        }
        proof {
            assert(all@ =~= self@);
        }
        all
    }

    /// The overlap `⟨self|other⟩ = Σ conj(self[i])·other[i]` of two registers
    /// with the same number of qubits, and `None` for registers that differ
    /// in it. The fidelity of the two states is the squared modulus of the
    /// overlap, and is zero by definition where there is none.
    pub fn overlap(&self, other: &QuantumState) -> (sum: Option<Complex64>)
        requires
            self.wf(),
            other.wf(),
        ensures
            sum == if self.num_qubits == other.num_qubits {
                Some(inner_product(self@, other@, self@.len() as int))
            } else {
                None
            },
    {
        if self.num_qubits != other.num_qubits {
            return None;
        }
        let size = self.amplitudes.len();
        let mut sum = from_integers(0, 0);
        let mut i: usize = 0;
        while i < size
            invariant
                i <= size,
                size == self@.len(),
                size == other@.len(),
                sum == inner_product(self@, other@, i as int),
            decreases size - i,
        {
            let a = self.amplitudes.at(i);
            let b = other.amplitudes.at(i);
            sum = sum_of(sum, product_of(conjugate_of(a), b));
            i += 1;
        }
        Some(sum)
    }

    /// Applies the 2×2 matrix `gate`, row-major, to `qubit`.
    ///
    /// Every pair of basis states that differ only in `qubit` is replaced by
    /// the matrix applied to that pair, all pairs read from the vector as it
    /// was before the call. A `qubit` that the register does not have is
    /// refused, and the register is left as it was.
    pub fn apply_single_qubit_gate(&mut self, gate: &[Complex64; 4], qubit: usize) -> (r: Result<
        (),
        SimError,
    >)
        requires
            old(self).wf(),
        ensures
            final(self).wf(),
            final(self).num_qubits == old(self).num_qubits,
            match r {
                Ok(()) => {
                    &&& qubit < old(self).num_qubits
                    &&& final(self)@ == single_qubit_image(old(self)@, gate@, qubit)
                },
                Err(e) => {
                    &&& e == SimError::InvalidQubitIndex
                    &&& qubit >= old(self).num_qubits
                    &&& *final(self) == *old(self)
                },
            },
    {
        if qubit >= self.num_qubits {
            return Err(SimError::InvalidQubitIndex);
        }
        let n = self.num_qubits;
        proof {
            lemma_shift_is_pow2(n);
        }
        let size: usize = 1usize << n;
        let target_bit: usize = 1usize << qubit;
        let mut new_amplitudes = Amplitudes::zeros(size);
        let mut i: usize = 0;
        while i < size
            invariant
                i <= size,
                size == 1usize << n,
                qubit < n < usize::BITS,
                target_bit == 1usize << qubit,
                self.amplitudes@.len() == size,
                new_amplitudes@.len() == size,
                forall|j: int|
                    0 <= j < size && without_bit(j as usize, qubit) < i
                        ==> #[trigger] new_amplitudes@[j] == single_qubit_entry(
                        self@,
                        gate@,
                        qubit,
                        j as usize,
                    ),
            decreases size - i,
        {
            if i & target_bit == 0 {
                let i0 = i;
                let i1 = i | target_bit;
                proof {
                    lemma_bit_stays_in_range(i, qubit, n);
                    lemma_pair(i, qubit);
                }
                let amp0 = self.amplitudes.at(i0);
                let amp1 = self.amplitudes.at(i1);
                new_amplitudes.put(i0, sum_of(product_of(gate[0], amp0), product_of(gate[1], amp1)));
                new_amplitudes.put(i1, sum_of(product_of(gate[2], amp0), product_of(gate[3], amp1)));
            } else {
                proof {
                    lemma_not_a_base(i, qubit);
                }
            }
            i += 1;
        }
        proof {
            assert forall|j: int| 0 <= j < size implies #[trigger] new_amplitudes@[j]
                == single_qubit_entry(self@, gate@, qubit, j as usize) by {
                lemma_bit_stays_in_range(j as usize, qubit, n);
            }
            assert(new_amplitudes@ =~= single_qubit_image(self@, gate@, qubit));
        }
        self.amplitudes = new_amplitudes;
        Ok(())
    }

    /// Applies the 4×4 matrix `gate`, row-major, to `control` and `target`.
    /// Row and column `2·c + t` of the matrix belong to control bit `c` and
    /// target bit `t`.
    ///
    /// Every group of four basis states that differ only in the two qubits is
    /// replaced by the matrix applied to that group, all groups read from the
    /// vector as it was before the call. The call is refused, and the
    /// register left as it was, when either qubit is one that the register
    /// does not have or when both are the same qubit.
    pub fn apply_two_qubit_gate(
        &mut self,
        gate: &[Complex64; 16],
        control: usize,
        target: usize,
    ) -> (r: Result<(), SimError>)
        requires
            old(self).wf(),
        ensures
            final(self).wf(),
            final(self).num_qubits == old(self).num_qubits,
            match r {
                Ok(()) => {
                    &&& control < old(self).num_qubits
                    &&& target < old(self).num_qubits
                    &&& control != target
                    &&& final(self)@ == two_qubit_image(old(self)@, gate@, control, target)
                },
                Err(e) => {
                    &&& e == SimError::InvalidQubitIndex
                    &&& (control >= old(self).num_qubits || target >= old(self).num_qubits
                        || control == target)
                    &&& *final(self) == *old(self)
                },
            },
    {
        if control >= self.num_qubits || target >= self.num_qubits || control == target {
            return Err(SimError::InvalidQubitIndex);
        }
        let n = self.num_qubits;
        proof {
            lemma_shift_is_pow2(n);
        }
        let size: usize = 1usize << n;
        let control_bit: usize = 1usize << control;
        let target_bit: usize = 1usize << target;
        let mut new_amplitudes = Amplitudes::zeros(size);
        let mut i: usize = 0;
        while i < size
            invariant
                i <= size,
                size == 1usize << n,
                control < n < usize::BITS,
                target < n,
                control != target,
                control_bit == 1usize << control,
                target_bit == 1usize << target,
                self.amplitudes@.len() == size,
                new_amplitudes@.len() == size,
                forall|j: int|
                    0 <= j < size && without_bits(j as usize, control, target) < i
                        ==> #[trigger] new_amplitudes@[j] == two_qubit_entry(
                        self@,
                        gate@,
                        control,
                        target,
                        j as usize,
                    ),
            decreases size - i,
        {
            if (i & control_bit == 0) && (i & target_bit == 0) {
                let i00 = i;
                let i01 = i ^ target_bit;
                let i10 = i ^ control_bit;
                let i11 = i ^ control_bit ^ target_bit;
                proof {
                    lemma_quad(i, control, target, n);
                }
                let amp00 = self.amplitudes.at(i00);
                let amp01 = self.amplitudes.at(i01);
                let amp10 = self.amplitudes.at(i10);
                let amp11 = self.amplitudes.at(i11);
                new_amplitudes.put(
                    i00,
                    sum_of(
                        sum_of(
                            sum_of(product_of(gate[0], amp00), product_of(gate[1], amp01)),
                            product_of(gate[2], amp10),
                        ),
                        product_of(gate[3], amp11),
                    ),
                );
                new_amplitudes.put(
                    i01,
                    sum_of(
                        sum_of(
                            sum_of(product_of(gate[4], amp00), product_of(gate[5], amp01)),
                            product_of(gate[6], amp10),
                        ),
                        product_of(gate[7], amp11),
                    ),
                );
                new_amplitudes.put(
                    i10,
                    sum_of(
                        sum_of(
                            sum_of(product_of(gate[8], amp00), product_of(gate[9], amp01)),
                            product_of(gate[10], amp10),
                        ),
                        product_of(gate[11], amp11),
                    ),
                );
                new_amplitudes.put(
                    i11,
                    sum_of(
                        sum_of(
                            sum_of(product_of(gate[12], amp00), product_of(gate[13], amp01)),
                            product_of(gate[14], amp10),
                        ),
                        product_of(gate[15], amp11),
                    ),
                );
            } else {
                proof {
                    lemma_not_a_quad_base(i, control, target);
                }
            }
            i += 1;
        }
        proof {
            assert forall|j: int| 0 <= j < size implies #[trigger] new_amplitudes@[j]
                == two_qubit_entry(self@, gate@, control, target, j as usize) by {
                lemma_without_bits_le(j as usize, control, target);
            }
            assert(new_amplitudes@ =~= two_qubit_image(self@, gate@, control, target));
        }
        self.amplitudes = new_amplitudes;
        Ok(())
    }
}

} // verus!
