//! Gates on any number of qubits.
//!
//! A gate on `k` qubits is a `2^k × 2^k` matrix. It acts on groups of `2^k`
//! basis states that agree outside the `k` qubits; within a group, a state is
//! told by the pattern it has on the qubits, the first qubit being the
//! highest bit of the pattern. Row and column `p` of the matrix belong to
//! pattern `p`. For one qubit this is the layout of a 2×2 matrix on a pair,
//! for control and target that of a 4×4 matrix on a group of four.

use num_complex::Complex64;
use vstd::arithmetic::power2::{lemma2_to64, pow2};
use vstd::prelude::*;

use crate::amplitudes::Amplitudes;
use crate::basis::{
    bit_value, distinct_below, lemma_mask_of, lemma_member_in_range, lemma_member_of_own_group,
    lemma_pattern_of_member, lemma_shift_is_pow2, lemma_spread_within_mask, mask_of, pattern,
    spread,
};
use crate::complex::{complex_product, complex_sum, product_of, sum_of};
use crate::error::SimError;
use crate::quantum_state::{
    single_qubit_entry, single_qubit_image, two_qubit_entry, two_qubit_image, QuantumState,
};

verus! {

/// The index of the group of `base` that has pattern `c` on the qubits.
pub open spec fn member(base: usize, qubits: Seq<usize>, c: int) -> usize {
    base | spread(c, qubits)
}

/// Row `row` of the matrix applied to the group of `base`, taken over the
/// first `upto` patterns: the products are added left to right, starting
/// with that of pattern 0.
pub open spec fn weighted_sum(
    old: Seq<Complex64>,
    gate: Seq<Complex64>,
    qubits: Seq<usize>,
    base: usize,
    row: int,
    upto: int,
) -> Complex64
    decreases upto,
{
    let width = pow2(qubits.len()) as int;
    if upto <= 1 {
        complex_product(gate[row * width], old[member(base, qubits, 0) as int])
    } else {
        complex_sum(
            weighted_sum(old, gate, qubits, base, row, upto - 1),
            complex_product(
                gate[row * width + (upto - 1)],
                old[member(base, qubits, upto - 1) as int],
            ),
        )
    }
}

/// Entry `i` of the vector that a gate on `qubits` makes of `old`: the row
/// that belongs to the pattern of `i`, applied to the group of `i`.
pub open spec fn multi_qubit_entry(
    old: Seq<Complex64>,
    gate: Seq<Complex64>,
    qubits: Seq<usize>,
    i: usize,
) -> Complex64 {
    weighted_sum(
        old,
        gate,
        qubits,
        i & !mask_of(qubits),
        pattern(i, qubits),
        pow2(qubits.len()) as int,
    )
}

/// The vector that a gate on `qubits` makes of `old`.
pub open spec fn multi_qubit_image(
    old: Seq<Complex64>,
    gate: Seq<Complex64>,
    qubits: Seq<usize>,
) -> Seq<Complex64> {
    Seq::new(old.len(), |i: int| multi_qubit_entry(old, gate, qubits, i as usize))
}

/// Whether entry `j` has been written once every group whose base lies
/// below `base` is complete, and the group of `base` up to pattern `row`.
spec fn is_written(j: usize, qubits: Seq<usize>, base: usize, row: int) -> bool {
    let own = j & !mask_of(qubits);
    own < base || (own == base && pattern(j, qubits) < row)
}

/// Why a gate on `qubits` is refused by a register of `n` qubits, if it is:
/// a qubit that the register does not have, or one that is named twice, is
/// an invalid index; a matrix that is not `2^k × 2^k` for the `k` qubits is
/// no gate on them.
pub open spec fn refusal(qubits: Seq<usize>, n: usize, gate_len: nat) -> Option<SimError> {
    if !distinct_below(qubits, n) {
        Some(SimError::InvalidQubitIndex)
    } else if gate_len != pow2(qubits.len()) * pow2(qubits.len()) {
        Some(SimError::UnknownGate)
    } else {
        None
    }
}

/// On one qubit, the general operation is the one-qubit operation.
pub proof fn lemma_one_qubit_is_single(old: Seq<Complex64>, gate: Seq<Complex64>, qubit: usize)
    ensures
        multi_qubit_image(old, gate, seq![qubit]) == single_qubit_image(old, gate, qubit),
{
    let qs = seq![qubit];
    let none = qs.drop_last();
    let bit = 1usize << qubit;
    assert(none.len() == 0);
    assert(qs.last() == qubit);
    lemma2_to64();
    reveal_with_fuel(mask_of, 2);
    reveal_with_fuel(spread, 2);
    reveal_with_fuel(pattern, 2);
    assert(mask_of(qs) == 0usize | bit);
    assert(spread(0, qs) == 0usize | 0usize);
    assert(spread(1, qs) == 0usize | bit);
    assert forall|i: int| 0 <= i < old.len() implies #[trigger] multi_qubit_image(
        old,
        gate,
        qs,
    )[i] == single_qubit_entry(old, gate, qubit, i as usize) by {
        let j = i as usize;
        let base = j & !(0usize | bit);
        assert(pattern(j, qs) == 2 * pattern(j, none) + bit_value(j, qubit));
        assert(base | (0usize | 0usize) == j & !bit && base | (0usize | bit) == j | bit)
            by (bit_vector)
            requires
                base == j & !(0usize | bit),
        ;
        reveal_with_fuel(weighted_sum, 3);
    }
    assert(multi_qubit_image(old, gate, qs) =~= single_qubit_image(old, gate, qubit));
}

/// On two qubits, control first and target second, the general operation is
/// the two-qubit operation.
pub proof fn lemma_two_qubits_is_two(
    old: Seq<Complex64>,
    gate: Seq<Complex64>,
    control: usize,
    target: usize,
)
    ensures
        multi_qubit_image(old, gate, seq![control, target]) == two_qubit_image(
            old,
            gate,
            control,
            target,
        ),
{
    let qs = seq![control, target];
    let first = qs.drop_last();
    let none = first.drop_last();
    let cb = 1usize << control;
    let tb = 1usize << target;
    assert(first =~= seq![control]);
    assert(none.len() == 0);
    assert(first.last() == control);
    assert(qs.last() == target);
    lemma2_to64();
    reveal_with_fuel(mask_of, 2);
    reveal_with_fuel(spread, 2);
    reveal_with_fuel(pattern, 2);
    assert(mask_of(first) == 0usize | cb);
    assert(mask_of(qs) == (0usize | cb) | tb);
    assert(spread(0, first) == 0usize | 0usize);
    assert(spread(1, first) == 0usize | cb);
    assert(spread(0, qs) == (0usize | 0usize) | 0usize);
    assert(spread(1, qs) == (0usize | 0usize) | tb);
    assert(spread(2, qs) == (0usize | cb) | 0usize);
    assert(spread(3, qs) == (0usize | cb) | tb);
    assert forall|i: int| 0 <= i < old.len() implies #[trigger] multi_qubit_image(
        old,
        gate,
        qs,
    )[i] == two_qubit_entry(old, gate, control, target, i as usize) by {
        let j = i as usize;
        let base = j & !((0usize | cb) | tb);
        assert(pattern(j, first) == 2 * pattern(j, none) + bit_value(j, control));
        assert(pattern(j, qs) == 2 * pattern(j, first) + bit_value(j, target));
        assert({
            &&& base == (j & !cb) & !tb
            &&& base | ((0usize | 0usize) | 0usize) == base
            &&& base | ((0usize | 0usize) | tb) == base | tb
            &&& base | ((0usize | cb) | 0usize) == base | cb
            &&& base | ((0usize | cb) | tb) == (base | cb) | tb
        }) by (bit_vector)
            requires
                base == j & !((0usize | cb) | tb),
        ;
        reveal_with_fuel(weighted_sum, 5);
    }
    assert(multi_qubit_image(old, gate, qs) =~= two_qubit_image(old, gate, control, target));
}

/// Whether `qubits` names qubits of an `n`-qubit register, each at most
/// once.
fn are_distinct_below(qubits: &Vec<usize>, n: usize) -> (ok: bool)
    ensures
        ok == distinct_below(qubits@, n),
{
    if qubits.len() > n {
        return false;
    }
    let mut a: usize = 0;
    while a < qubits.len()
        invariant
            a <= qubits.len(),
            forall|x: int| 0 <= x < a ==> #[trigger] qubits[x] < n,
            forall|x: int, y: int| 0 <= x < y < a ==> qubits[x] != qubits[y],
        decreases qubits.len() - a,
    {
        if qubits[a] >= n {
            return false;
        }
        let mut b: usize = 0;
        while b < a
            invariant
                b <= a < qubits.len(),
                forall|x: int| 0 <= x < b ==> #[trigger] qubits[x] != qubits[a as int],
            decreases a - b,
        {
            if qubits[b] == qubits[a] {
                return false;
            }
            b += 1;
        }
        a += 1;
    }
    true
}

/// The mask of the qubits.
fn mask_for(qubits: &Vec<usize>, n: usize) -> (mask: usize)
    requires
        n < usize::BITS,
        distinct_below(qubits@, n),
    ensures
        mask == mask_of(qubits@),
{
    let mut mask: usize = 0;
    let mut a: usize = 0;
    while a < qubits.len()
        invariant
            a <= qubits.len(),
            n < usize::BITS,
            distinct_below(qubits@, n),
            mask == mask_of(qubits@.subrange(0, a as int)),
        decreases qubits.len() - a,
    {
        proof {
            assert(qubits@.subrange(0, a + 1).drop_last() =~= qubits@.subrange(0, a as int));
        }
        mask = mask | (1usize << qubits[a]);
        a += 1;
    }
    proof {
        assert(qubits@.subrange(0, qubits.len() as int) =~= qubits@);
    }
    mask
}

/// The pattern `c`, spread over the qubits.
fn spread_for(c: usize, qubits: &Vec<usize>, n: usize) -> (bits: usize)
    requires
        n < usize::BITS,
        distinct_below(qubits@, n),
    ensures
        bits == spread(c as int, qubits@),
{
    let mut bits: usize = 0;
    let mut rest: usize = c;
    let mut a: usize = qubits.len();
    proof {
        assert(qubits@.subrange(0, a as int) =~= qubits@);
        let whole = spread(c as int, qubits@);
        assert(whole | 0usize == whole) by (bit_vector);
    }
    while a > 0
        invariant
            a <= qubits.len(),
            n < usize::BITS,
            distinct_below(qubits@, n),
            spread(c as int, qubits@) == spread(rest as int, qubits@.subrange(0, a as int)) | bits,
        decreases a,
    {
        a -= 1;
        let ghost before = qubits@.subrange(0, a + 1);
        let ghost lower = spread(rest as int / 2, qubits@.subrange(0, a as int));
        proof {
            assert(before.drop_last() =~= qubits@.subrange(0, a as int));
            assert(before.last() == qubits[a as int]);
        }
        if rest % 2 == 1 {
            let bit = 1usize << qubits[a];
            proof {
                assert((lower | bit) | bits == lower | (bits | bit)) by (bit_vector);
            }
            bits = bits | bit;
        } else {
            proof {
                assert((lower | 0usize) | bits == lower | bits) by (bit_vector);
            }
        }
        rest = rest / 2;
    }
    proof {
        assert(0usize | bits == bits) by (bit_vector);
    }
    bits
}

impl QuantumState {
    /// Applies the `2^k × 2^k` matrix `gate`, row-major, to the `k` qubits
    /// `qubits`. The first qubit is the highest bit of a row or column
    /// number, the last qubit the lowest: for a controlled gate the controls
    /// come first and the target last.
    ///
    /// Every group of `2^k` basis states that differ only in the `k` qubits
    /// is replaced by the matrix applied to that group, all groups read from
    /// the vector as it was before the call. A refused call leaves the
    /// register as it was.
    #[verifier::loop_isolation(false)]
        pub fn apply_multi_qubit_gate(&mut self, gate: &Vec<Complex64>, qubits: &Vec<usize>) -> (r:
        Result<(), SimError>)
        requires
            old(self).wf(),
        ensures
            final(self).wf(),
            final(self).num_qubits == old(self).num_qubits,
            match r {
                Ok(()) => {
                    &&& refusal(qubits@, old(self).num_qubits, gate@.len()) is None
                    &&& final(self)@ == multi_qubit_image(old(self)@, gate@, qubits@)
                },
                Err(e) => {
                    &&& refusal(qubits@, old(self).num_qubits, gate@.len()) == Some(e)
                    &&& *final(self) == *old(self)
                },
            },
    {
        let n = self.num_qubits;
        if !are_distinct_below(qubits, n) {
            return Err(SimError::InvalidQubitIndex);
        }
        let k = qubits.len();
        let ghost qs = qubits@;
        let ghost old_amplitudes = self@;
        proof {
            lemma_shift_is_pow2(n);
            lemma_shift_is_pow2(k);
        }
        let size: usize = 1usize << n;
        let width: usize = 1usize << k;
        proof {
            assert(width * width == pow2(k as nat) * pow2(k as nat)) by (nonlinear_arith)
                requires
                    width == pow2(k as nat),
            ;
        }
        let gate_len = gate.len();
        match width.checked_mul(width) {
            Some(square) => {
                if square != gate_len {
                    return Err(SimError::UnknownGate);
                }
            },
            None => {
                return Err(SimError::UnknownGate);
            },
        }
        let mask = mask_for(qubits, n);
        proof {
            lemma_mask_of(qs, n, n);
        }
        let mut offsets: Vec<usize> = Vec::new();
        let mut c: usize = 0;
        while c < width
            invariant
                c <= width,
                offsets.len() == c,
                forall|x: int| 0 <= x < c ==> #[trigger] offsets[x] == spread(x, qs),
            decreases width - c,
        {
            offsets.push(spread_for(c, qubits, n));
            c += 1;
        }
        let mut new_amplitudes = Amplitudes::zeros(size);
        let mut i: usize = 0;
        proof {
            assert forall|j: int| 0 <= j < size implies !#[trigger] is_written(
                j as usize,
                qs,
                0,
                0,
            ) by {
                lemma_member_of_own_group(j as usize, qs);
            }
        }
        while i < size
            invariant
                i <= size,
                new_amplitudes@.len() == size,
                self@ == old_amplitudes,
                forall|j: int|
                    0 <= j < size && is_written(j as usize, qs, i, 0)
                        ==> #[trigger] new_amplitudes@[j] == multi_qubit_entry(
                        old_amplitudes,
                        gate@,
                        qs,
                        j as usize,
                    ),
            decreases size - i,
        {
            if i & mask == 0 {
                let mut amps: Vec<Complex64> = Vec::new();
                let mut c: usize = 0;
                while c < width
                    invariant
                        c <= width,
                        amps.len() == c,
                        forall|x: int|
                            0 <= x < c ==> #[trigger] amps[x] == old_amplitudes[member(
                                i,
                                qs,
                                x,
                            ) as int],
                    decreases width - c,
                {
                    proof {
                        lemma_spread_within_mask(c as int, qs);
                        lemma_member_in_range(i, offsets[c as int], mask, n);
                    }
                    amps.push(self.amplitudes.at(i | offsets[c]));
                    c += 1;
                }
                let mut row: usize = 0;
                while row < width
                    invariant
                        row <= width,
                        new_amplitudes@.len() == size,
                        forall|j: int|
                            0 <= j < size && is_written(j as usize, qs, i, row as int)
                                ==> #[trigger] new_amplitudes@[j] == multi_qubit_entry(
                                old_amplitudes,
                                gate@,
                                qs,
                                j as usize,
                            ),
                    decreases width - row,
                {
                    proof {
                        assert(row * width + width <= width * width) by (nonlinear_arith)
                            requires
                                row < width,
                        ;
                    }
                    let mut sum = product_of(gate[row * width], amps[0]);
                    let mut c: usize = 1;
                    while c < width
                        invariant
                            1 <= c <= width,
                            row < width,
                            row * width + width <= width * width,
                            sum == weighted_sum(
                                old_amplitudes,
                                gate@,
                                qs,
                                i,
                                row as int,
                                c as int,
                            ),
                        decreases width - c,
                    {
                        sum = sum_of(sum, product_of(gate[row * width + c], amps[c]));
                        c += 1;
                    }
                    let at = i | offsets[row];
                    proof {
                        lemma_spread_within_mask(row as int, qs);
                        lemma_member_in_range(i, offsets[row as int], mask, n);
                        lemma_pattern_of_member(i, row as int, qs, n);
                        assert forall|j: int|
                            0 <= j < size && #[trigger] is_written(j as usize, qs, i, row + 1)
                                && j != at implies is_written(j as usize, qs, i, row as int) by {
                            lemma_member_of_own_group(j as usize, qs);
                        }
                    }
                    new_amplitudes.put(at, sum);
                    row += 1;
                }
                proof {
                    assert forall|j: int|
                        0 <= j < size && #[trigger] is_written(
                            j as usize,
                            qs,
                            (i + 1) as usize,
                            0,
                        ) implies is_written(j as usize, qs, i, width as int) by {
                        lemma_member_of_own_group(j as usize, qs);
                    }
                }
            } else {
                proof {
                    assert forall|j: int|
                        0 <= j < size && #[trigger] is_written(
                            j as usize,
                            qs,
                            (i + 1) as usize,
                            0,
                        ) implies is_written(j as usize, qs, i, 0) by {
                        lemma_member_of_own_group(j as usize, qs);
                        let own = j as usize & !mask;
                        assert(own != i);
                    }
                }
            }
            i += 1;
        }
        proof {
            assert forall|j: int| 0 <= j < size implies #[trigger] new_amplitudes@[j]
                == multi_qubit_entry(old_amplitudes, gate@, qs, j as usize) by {
                lemma_member_of_own_group(j as usize, qs);
                assert(is_written(j as usize, qs, size, 0));
            }
            assert(new_amplitudes@ =~= multi_qubit_image(old_amplitudes, gate@, qs));
        }
        self.amplitudes = new_amplitudes;
        Ok(())
    }
}

} // verus!
