//! The catalog of fixed gates with exact entries.
//!
//! Each generator returns a unitary as a flat array, row by row. For a
//! two-qubit matrix, row and column `2·c + t` belong to control bit `c` and
//! target bit `t`; a three-qubit matrix continues this with the first qubit
//! as the highest bit.

use num_complex::Complex64;
use vstd::prelude::*;

use crate::complex::{from_integers, gaussian};
use crate::exact::{
    gi_conjugate, gi_product, is_self_inverse, is_unitary, monomial_matrix,
    theorem_monomial_self_inverse, theorem_monomial_unitary,
};

verus! {

/// The amplitudes that stand for an exact matrix, entry by entry.
pub open spec fn embed(m: Seq<(int, int)>) -> Seq<Complex64> {
    Seq::new(m.len(), |k: int| gaussian(m[k].0, m[k].1))
}

/// The exchange of rows `a` and `b`; every other row stays.
pub open spec fn exchange(a: int, b: int) -> spec_fn(int) -> int {
    |r: int|
        if r == a {
            b
        } else if r == b {
            a
        } else {
            r
        }
}

/// The permutation that leaves every row where it is.
pub open spec fn stay() -> spec_fn(int) -> int {
    |r: int| r
}

/// The factor one on every row.
pub open spec fn all_ones() -> spec_fn(int) -> (int, int) {
    |r: int| (1int, 0int)
}

/// The factor one on every row but `row`, which has `factor`.
pub open spec fn one_but(row: int, factor: (int, int)) -> spec_fn(int) -> (int, int) {
    |r: int|
        if r == row {
            factor
        } else {
            (1int, 0int)
        }
}

/// The identity on one qubit.
///
/// ```text
/// 1 0
/// 0 1
/// ```
pub open spec fn identity_gate_matrix() -> Seq<(int, int)> {
    monomial_matrix(2, stay(), all_ones())
}

/// Pauli-X, the bit flip.
///
/// ```text
/// 0 1
/// 1 0
/// ```
pub open spec fn pauli_x_matrix() -> Seq<(int, int)> {
    monomial_matrix(2, exchange(0, 1), all_ones())
}

/// Pauli-Y.
///
/// ```text
/// 0 −i
/// i  0
/// ```
pub open spec fn pauli_y_matrix() -> Seq<(int, int)> {
    monomial_matrix(2, exchange(0, 1), pauli_y_factors())
}

/// The factors of Pauli-Y: −i on row 0 and i on row 1.
pub open spec fn pauli_y_factors() -> spec_fn(int) -> (int, int) {
    |r: int|
        if r == 0 {
            (0int, -1int)
        } else {
            (0int, 1int)
        }
}

/// Pauli-Z, the phase flip.
///
/// ```text
/// 1  0
/// 0 −1
/// ```
pub open spec fn pauli_z_matrix() -> Seq<(int, int)> {
    monomial_matrix(2, stay(), one_but(1, (-1int, 0int)))
}

/// S, the phase `i` on `|1⟩`.
///
/// ```text
/// 1 0
/// 0 i
/// ```
pub open spec fn s_matrix() -> Seq<(int, int)> {
    monomial_matrix(2, stay(), one_but(1, (0int, 1int)))
}

/// The projector onto `|1⟩` if `outcome`, onto `|0⟩` if not: one on that
/// diagonal entry and zero elsewhere.
pub open spec fn projector_matrix(outcome: bool) -> Seq<(int, int)> {
    monomial_matrix(
        2,
        stay(),
        |r: int|
            if (r == 1) == outcome {
                (1int, 0int)
            } else {
                (0int, 0int)
            },
    )
}

/// CNOT: flips the target bit where the control bit is 1.
///
/// ```text
/// 1 0 0 0
/// 0 1 0 0
/// 0 0 0 1
/// 0 0 1 0
/// ```
pub open spec fn cnot_matrix() -> Seq<(int, int)> {
    monomial_matrix(4, exchange(2, 3), all_ones())
}

/// CZ: the phase −1 where both bits are 1.
///
/// ```text
/// 1 0 0  0
/// 0 1 0  0
/// 0 0 1  0
/// 0 0 0 −1
/// ```
pub open spec fn cz_matrix() -> Seq<(int, int)> {
    monomial_matrix(4, stay(), one_but(3, (-1int, 0int)))
}

/// SWAP: exchanges the two bits.
///
/// ```text
/// 1 0 0 0
/// 0 0 1 0
/// 0 1 0 0
/// 0 0 0 1
/// ```
pub open spec fn swap_matrix() -> Seq<(int, int)> {
    monomial_matrix(4, exchange(1, 2), all_ones())
}

/// Toffoli: flips the last of three bits where the first two are 1, which
/// exchanges basis states 6 and 7 and leaves the other six.
pub open spec fn toffoli_matrix() -> Seq<(int, int)> {
    monomial_matrix(8, exchange(6, 7), all_ones())
}

/// The products of the units 1, −1, i and −i that the proofs below need:
/// each has modulus one, ±1 are their own inverses, and i and −i are each
/// other's.
proof fn lemma_unit_products()
    ensures
        gi_product((1int, 0int), (1int, 0int)) == (1int, 0int),
        gi_product((-1int, 0int), (-1int, 0int)) == (1int, 0int),
        gi_product((0int, 1int), (0int, -1int)) == (1int, 0int),
        gi_product((0int, -1int), (0int, 1int)) == (1int, 0int),
        gi_conjugate((1int, 0int)) == (1int, 0int),
        gi_conjugate((-1int, 0int)) == (-1int, 0int),
        gi_conjugate((0int, 1int)) == (0int, -1int),
        gi_conjugate((0int, -1int)) == (0int, 1int),
{
}

/// A permutation matrix of an exchange of two rows is unitary and its own
/// inverse.
proof fn lemma_exchange_matrix(dim: int, a: int, b: int)
    requires
        0 <= a < dim,
        0 <= b < dim,
    ensures
        is_unitary(monomial_matrix(dim, exchange(a, b), all_ones()), dim),
        is_self_inverse(monomial_matrix(dim, exchange(a, b), all_ones()), dim),
{
    let image = exchange(a, b);
    let weight = all_ones();
    lemma_unit_products();
    assert forall|r: int| 0 <= r < dim implies {
        &&& 0 <= #[trigger] image(r) < dim
        &&& image(image(r)) == r
        &&& weight(r) == (1int, 0int)
        &&& weight(image(r)) == (1int, 0int)
    } by {}
    theorem_monomial_self_inverse(dim, image, weight);
    theorem_monomial_unitary(dim, image, image, weight);
}

/// A diagonal matrix that is one on every row but `row`, where it is a unit
/// `factor`, is unitary; it is its own inverse where the unit is ±1.
proof fn lemma_phase_matrix(dim: int, row: int, factor: (int, int))
    requires
        0 < dim,
        factor == (1int, 0int) || factor == (-1int, 0int) || factor == (0int, 1int) || factor == (
            0int,
            -1int,
        ),
    ensures
        is_unitary(monomial_matrix(dim, stay(), one_but(row, factor)), dim),
        factor.1 == 0 ==> is_self_inverse(monomial_matrix(dim, stay(), one_but(row, factor)), dim),
{
    let image = stay();
    let weight = one_but(row, factor);
    lemma_unit_products();
    assert forall|r: int| 0 <= r < dim implies {
        &&& 0 <= #[trigger] image(r) < dim
        &&& image(image(r)) == r
        &&& (weight(r) == (1int, 0int) || weight(r) == factor)
    } by {}
    theorem_monomial_unitary(dim, image, image, weight);
    if factor.1 == 0 {
        theorem_monomial_self_inverse(dim, image, weight);
    }
}

/// CNOT is unitary and its own inverse.
pub proof fn lemma_cnot_is_unitary_and_self_inverse()
    ensures
        is_unitary(cnot_matrix(), 4),
        is_self_inverse(cnot_matrix(), 4),
{
    lemma_exchange_matrix(4, 2, 3);
}

/// CZ is unitary and its own inverse.
pub proof fn lemma_cz_is_unitary_and_self_inverse()
    ensures
        is_unitary(cz_matrix(), 4),
        is_self_inverse(cz_matrix(), 4),
{
    lemma_phase_matrix(4, 3, (-1int, 0int));
}

/// SWAP is unitary and its own inverse.
pub proof fn lemma_swap_is_unitary_and_self_inverse()
    ensures
        is_unitary(swap_matrix(), 4),
        is_self_inverse(swap_matrix(), 4),
{
    lemma_exchange_matrix(4, 1, 2);
}

/// Toffoli is unitary and its own inverse.
pub proof fn lemma_toffoli_is_unitary_and_self_inverse()
    ensures
        is_unitary(toffoli_matrix(), 8),
        is_self_inverse(toffoli_matrix(), 8),
{
    lemma_exchange_matrix(8, 6, 7);
}

/// The identity is unitary and its own inverse.
pub proof fn lemma_identity_is_unitary_and_self_inverse()
    ensures
        is_unitary(identity_gate_matrix(), 2),
        is_self_inverse(identity_gate_matrix(), 2),
{
    let image = stay();
    let weight = all_ones();
    lemma_unit_products();
    assert forall|r: int| 0 <= r < 2 implies {
        &&& 0 <= #[trigger] image(r) < 2
        &&& image(image(r)) == r
        &&& weight(r) == (1int, 0int)
    } by {}
    theorem_monomial_self_inverse(2, image, weight);
    theorem_monomial_unitary(2, image, image, weight);
}

/// Pauli-X is unitary and its own inverse.
pub proof fn lemma_pauli_x_is_unitary_and_self_inverse()
    ensures
        is_unitary(pauli_x_matrix(), 2),
        is_self_inverse(pauli_x_matrix(), 2),
{
    lemma_exchange_matrix(2, 0, 1);
}

/// Pauli-Y is unitary and its own inverse.
pub proof fn lemma_pauli_y_is_unitary_and_self_inverse()
    ensures
        is_unitary(pauli_y_matrix(), 2),
        is_self_inverse(pauli_y_matrix(), 2),
{
    let image = exchange(0, 1);
    let weight = pauli_y_factors();
    lemma_unit_products();
    assert forall|r: int| 0 <= r < 2 implies {
        &&& 0 <= #[trigger] image(r) < 2
        &&& image(image(r)) == r
        &&& (r == 0 ==> weight(r) == (0int, -1int) && weight(image(r)) == (0int, 1int))
        &&& (r == 1 ==> weight(r) == (0int, 1int) && weight(image(r)) == (0int, -1int))
    } by {}
    theorem_monomial_self_inverse(2, image, weight);
    theorem_monomial_unitary(2, image, image, weight);
}

/// Pauli-Z is unitary and its own inverse.
pub proof fn lemma_pauli_z_is_unitary_and_self_inverse()
    ensures
        is_unitary(pauli_z_matrix(), 2),
        is_self_inverse(pauli_z_matrix(), 2),
{
    lemma_phase_matrix(2, 1, (-1int, 0int));
}

/// S is unitary.
pub proof fn lemma_s_is_unitary()
    ensures
        is_unitary(s_matrix(), 2),
{
    lemma_phase_matrix(2, 1, (0int, 1int));
}

/// The generators of the catalog.
pub struct Gates;

impl Gates {
    /// The identity on one qubit.
    pub fn identity() -> (gate: [Complex64; 4])
        ensures
            gate@ == embed(identity_gate_matrix()),
    {
        let zero = from_integers(0, 0);
        let one = from_integers(1, 0);
        let gate = [one, zero, zero, one];
        proof {
            assert(gate@ =~= embed(identity_gate_matrix()));
        }
        gate
    }

    /// Pauli-X, the bit flip.
    pub fn pauli_x() -> (gate: [Complex64; 4])
        ensures
            gate@ == embed(pauli_x_matrix()),
    {
        let zero = from_integers(0, 0);
        let one = from_integers(1, 0);
        let gate = [zero, one, one, zero];
        proof {
            assert(gate@ =~= embed(pauli_x_matrix()));
        }
        gate
    }

    /// Pauli-Y.
    pub fn pauli_y() -> (gate: [Complex64; 4])
        ensures
            gate@ == embed(pauli_y_matrix()),
    {
        let zero = from_integers(0, 0);
        let gate = [zero, from_integers(0, -1), from_integers(0, 1), zero];
        proof {
            assert(gate@ =~= embed(pauli_y_matrix()));
        }
        gate
    }

    /// Pauli-Z, the phase flip.
    pub fn pauli_z() -> (gate: [Complex64; 4])
        ensures
            gate@ == embed(pauli_z_matrix()),
    {
        let zero = from_integers(0, 0);
        let gate = [from_integers(1, 0), zero, zero, from_integers(-1, 0)];
        proof {
            assert(gate@ =~= embed(pauli_z_matrix()));
        }
        gate
    }

    /// S, the phase `i` on `|1⟩`.
    pub fn s_gate() -> (gate: [Complex64; 4])
        ensures
            gate@ == embed(s_matrix()),
    {
        let zero = from_integers(0, 0);
        let gate = [from_integers(1, 0), zero, zero, from_integers(0, 1)];
        proof {
            assert(gate@ =~= embed(s_matrix()));
        }
        gate
    }

    /// CNOT: flips the target where the control is 1.
    pub fn cnot() -> (gate: [Complex64; 16])
        ensures
            gate@ == embed(cnot_matrix()),
    {
        let one = from_integers(1, 0);
        let mut gate = [from_integers(0, 0);16];
        gate[0] = one;
        gate[5] = one;
        gate[14] = one;
        gate[11] = one;
        proof {
            assert(gate@ =~= embed(cnot_matrix()));
        }
        gate
    }

    /// CZ: the phase −1 where control and target are both 1.
    pub fn cz() -> (gate: [Complex64; 16])
        ensures
            gate@ == embed(cz_matrix()),
    {
        let one = from_integers(1, 0);
        let mut gate = [from_integers(0, 0);16];
        gate[0] = one;
        gate[5] = one;
        gate[10] = one;
        gate[15] = from_integers(-1, 0);
        proof {
            assert(gate@ =~= embed(cz_matrix()));
        }
        gate
    }

    /// SWAP: exchanges two qubits.
    pub fn swap() -> (gate: [Complex64; 16])
        ensures
            gate@ == embed(swap_matrix()),
    {
        let one = from_integers(1, 0);
        let mut gate = [from_integers(0, 0);16];
        gate[0] = one;
        gate[6] = one;
        gate[9] = one;
        gate[15] = one;
        proof {
            assert(gate@ =~= embed(swap_matrix()));
        }
        gate
    }

    /// Toffoli: flips the last of three qubits where the first two are 1.
    pub fn toffoli() -> (gate: [Complex64; 64])
        ensures
            gate@ == embed(toffoli_matrix()),
    {
        let zero = from_integers(0, 0);
        let one = from_integers(1, 0);
        let mut gate = [zero;64];
        let mut i: usize = 0;
        while i < 6
            invariant
                i <= 6,
                zero == gaussian(0, 0),
                one == gaussian(1, 0),
                forall|k: int|
                    0 <= k < 64 ==> #[trigger] gate@[k] == if k / 8 < i && k % 8 == k / 8 {
                        one
                    } else {
                        zero
                    },
            decreases 6 - i,
        {
            gate[i * 8 + i] = one;
            i += 1;
        }
        gate[6 * 8 + 7] = one;
        gate[7 * 8 + 6] = one;
        proof {
            assert(gate@ =~= embed(toffoli_matrix()));
        }
        gate
    }

    /// The projector onto `|1⟩` if `outcome`, onto `|0⟩` if not. It is not
    /// unitary, and no operation of the register applies it.
    pub fn measurement_z(outcome: bool) -> (gate: [Complex64; 4])
        ensures
            gate@ == embed(projector_matrix(outcome)),
    {
        let zero = from_integers(0, 0);
        let one = from_integers(1, 0);
        let gate = if outcome {
            [zero, zero, zero, one]
        } else {
            [one, zero, zero, zero]
        };
        proof {
            assert(gate@ =~= embed(projector_matrix(outcome)));
        }
        gate
    }
}

} // verus!
