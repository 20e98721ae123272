//! Gate names as a caller writes them, what each name asks for, and the
//! application of a call once its matrix is at hand.

use num_complex::Complex64;
use vstd::prelude::*;

use crate::error::SimError;
use crate::gates::{
    cnot_matrix, cz_matrix, embed, pauli_x_matrix, pauli_y_matrix, pauli_z_matrix, s_matrix,
    swap_matrix, Gates,
};
use crate::quantum_state::{single_qubit_image, two_qubit_image, QuantumState};

verus! {

/// The entries of the catalog that a call can name.
#[derive(Clone, Copy, Debug, PartialEq, Eq, Structural)]
pub enum GateKind {
    Hadamard,
    PauliX,
    PauliY,
    PauliZ,
    S,
    T,
    RotationX,
    RotationY,
    RotationZ,
    Cnot,
    Cz,
    Swap,
}

impl GateKind {
    /// How many qubit indices a call of this kind consumes: the first is the
    /// only qubit of a one-qubit gate and the control of a two-qubit gate,
    /// the second is the target.
    pub open spec fn spec_qubit_count(self) -> usize {
        match self {
            GateKind::Cnot | GateKind::Cz | GateKind::Swap => 2,
            _ => 1,
        }
    }

    /// How many parameters a call of this kind consumes: a rotation takes its
    /// angle in radians, every other kind takes nothing.
    pub open spec fn spec_parameter_count(self) -> usize {
        match self {
            GateKind::RotationX | GateKind::RotationY | GateKind::RotationZ => 1,
            _ => 0,
        }
    }

    #[verifier::when_used_as_spec(spec_qubit_count)]
    pub fn qubit_count(self) -> (count: usize)
        ensures
            count == self.spec_qubit_count(),
    {
        match self {
            GateKind::Cnot | GateKind::Cz | GateKind::Swap => 2,
            _ => 1,
        }
    }

    #[verifier::when_used_as_spec(spec_parameter_count)]
    pub fn parameter_count(self) -> (count: usize)
        ensures
            count == self.spec_parameter_count(),
    {
        match self {
            GateKind::RotationX | GateKind::RotationY | GateKind::RotationZ => 1,
            _ => 0,
        }
    }
}

/// Whether `name` is the one-letter word `a`.
pub open spec fn is_word1(name: Seq<char>, a: char) -> bool {
    name.len() == 1 && name[0] == a
}

/// Whether `name` is the two-letter word `ab`.
pub open spec fn is_word2(name: Seq<char>, a: char, b: char) -> bool {
    name.len() == 2 && name[0] == a && name[1] == b
}

/// Whether `name` is the four-letter word `abcd`.
pub open spec fn is_word4(name: Seq<char>, a: char, b: char, c: char, d: char) -> bool {
    name.len() == 4 && name[0] == a && name[1] == b && name[2] == c && name[3] == d
}

/// The kind that a name stands for. Names are upper case; `CX` is a second
/// name for `CNOT`.
pub open spec fn gate_named(name: Seq<char>) -> Option<GateKind> {
    if is_word1(name, 'H') {
        Some(GateKind::Hadamard)
    } else if is_word1(name, 'X') {
        Some(GateKind::PauliX)
    } else if is_word1(name, 'Y') {
        Some(GateKind::PauliY)
    } else if is_word1(name, 'Z') {
        Some(GateKind::PauliZ)
    } else if is_word1(name, 'S') {
        Some(GateKind::S)
    } else if is_word1(name, 'T') {
        Some(GateKind::T)
    } else if is_word2(name, 'R', 'X') {
        Some(GateKind::RotationX)
    } else if is_word2(name, 'R', 'Y') {
        Some(GateKind::RotationY)
    } else if is_word2(name, 'R', 'Z') {
        Some(GateKind::RotationZ)
    } else if is_word4(name, 'C', 'N', 'O', 'T') || is_word2(name, 'C', 'X') {
        Some(GateKind::Cnot)
    } else if is_word2(name, 'C', 'Z') {
        Some(GateKind::Cz)
    } else if is_word4(name, 'S', 'W', 'A', 'P') {
        Some(GateKind::Swap)
    } else {
        None
    }
}

/// What a call by name resolves to, given how many qubit indices and
/// parameters it brings: the kind, if the name is known and the call brings
/// at least what the kind consumes.
pub open spec fn resolved(name: Seq<char>, qubits: nat, parameters: nat) -> Result<
    GateKind,
    SimError,
> {
    match gate_named(name) {
        Some(kind) => if qubits >= kind.spec_qubit_count() && parameters
            >= kind.spec_parameter_count() {
            Ok(kind)
        } else {
            Err(SimError::UnknownGate)
        },
        None => Err(SimError::UnknownGate),
    }
}

/// A call that has been resolved: which catalog entry to apply, and to which
/// qubits.
#[derive(Clone, Copy, Debug, PartialEq, Eq, Structural)]
pub enum GateCall {
    /// A one-qubit gate on `qubit`.
    Single { kind: GateKind, qubit: usize },
    /// A two-qubit gate on `control` and `target`.
    Two { kind: GateKind, control: usize, target: usize },
}

impl GateCall {
    /// The catalog entry that the call names.
    pub open spec fn spec_kind(self) -> GateKind {
        match self {
            GateCall::Single { kind, qubit } => kind,
            GateCall::Two { kind, control, target } => kind,
        }
    }

    #[verifier::when_used_as_spec(spec_kind)]
    pub fn kind(self) -> (kind: GateKind)
        ensures
            kind == self.spec_kind(),
    {
        match self {
            GateCall::Single { kind, qubit: _ } => kind,
            GateCall::Two { kind, control: _, target: _ } => kind,
        }
    }
}

/// What a call by name asks for, given the qubit indices and the number of
/// parameters it brings. The first index is the qubit of a one-qubit gate
/// and the control of a two-qubit gate; the second is the target.
pub open spec fn planned(name: Seq<char>, qubits: Seq<usize>, parameters: nat) -> Result<
    GateCall,
    SimError,
> {
    match resolved(name, qubits.len(), parameters) {
        Ok(kind) => if kind.spec_qubit_count() == 2 {
            Ok(GateCall::Two { kind, control: qubits[0], target: qubits[1] })
        } else {
            Ok(GateCall::Single { kind, qubit: qubits[0] })
        },
        Err(e) => Err(e),
    }
}

/// A matrix for one qubit or for two, row by row.
pub enum GateMatrix {
    Single([Complex64; 4]),
    Two([Complex64; 16]),
}

impl GateMatrix {
    /// The entries of the matrix, row by row.
    pub open spec fn entries(self) -> Seq<Complex64> {
        match self {
            GateMatrix::Single(m) => m@,
            GateMatrix::Two(m) => m@,
        }
    }
}

/// The exact matrix of a kind. The kinds with an irrational or parametrized
/// entry have none.
pub open spec fn exact_matrix_of(kind: GateKind) -> Option<Seq<(int, int)>> {
    match kind {
        GateKind::PauliX => Some(pauli_x_matrix()),
        GateKind::PauliY => Some(pauli_y_matrix()),
        GateKind::PauliZ => Some(pauli_z_matrix()),
        GateKind::S => Some(s_matrix()),
        GateKind::Cnot => Some(cnot_matrix()),
        GateKind::Cz => Some(cz_matrix()),
        GateKind::Swap => Some(swap_matrix()),
        _ => None,
    }
}

/// What applying `matrix` as `call` makes of the amplitudes `old` of an
/// `n`-qubit register: the new amplitudes, or why the call is refused. A
/// matrix of the wrong size for the call is no gate for it.
pub open spec fn applied(old: Seq<Complex64>, n: usize, call: GateCall, matrix: GateMatrix) -> Result<
    Seq<Complex64>,
    SimError,
> {
    match (call, matrix) {
        (GateCall::Single { kind, qubit }, GateMatrix::Single(m)) => if qubit < n {
            Ok(single_qubit_image(old, m@, qubit))
        } else {
            Err(SimError::InvalidQubitIndex)
        },
        (GateCall::Two { kind, control, target }, GateMatrix::Two(m)) => if control < n && target
            < n && control != target {
            Ok(two_qubit_image(old, m@, control, target))
        } else {
            Err(SimError::InvalidQubitIndex)
        },
        _ => Err(SimError::UnknownGate),
    }
}

impl Gates {
    /// The catalog entry of a kind, for the kinds whose matrix is exact.
    pub fn for_kind(kind: GateKind) -> (found: Option<GateMatrix>)
        ensures
            match exact_matrix_of(kind) {
                Some(exact) => {
                    &&& found matches Some(matrix)
                    &&& matrix.entries() == embed(exact)
                    &&& (matrix is Two) == (kind.spec_qubit_count() == 2)
                },
                None => found is None,
            },
    {
        match kind {
            GateKind::PauliX => Some(GateMatrix::Single(Gates::pauli_x())),
            GateKind::PauliY => Some(GateMatrix::Single(Gates::pauli_y())),
            GateKind::PauliZ => Some(GateMatrix::Single(Gates::pauli_z())),
            GateKind::S => Some(GateMatrix::Single(Gates::s_gate())),
            GateKind::Cnot => Some(GateMatrix::Two(Gates::cnot())),
            GateKind::Cz => Some(GateMatrix::Two(Gates::cz())),
            GateKind::Swap => Some(GateMatrix::Two(Gates::swap())),
            _ => None,
        }
    }
}

impl QuantumState {
    /// Applies `matrix` to the qubits that `call` names. A call for one
    /// qubit takes a 2×2 matrix and a call for two a 4×4 matrix; any other
    /// pairing is refused as an unknown gate. A refused call leaves the
    /// register as it was.
    pub fn apply_call(&mut self, call: GateCall, matrix: &GateMatrix) -> (r: Result<(), SimError>)
        requires
            old(self).wf(),
        ensures
            final(self).wf(),
            final(self).num_qubits == old(self).num_qubits,
            match applied(old(self)@, old(self).num_qubits, call, *matrix) {
                Ok(amplitudes) => r is Ok && final(self)@ == amplitudes,
                Err(e) => r == Err::<(), SimError>(e) && *final(self) == *old(self),
            },
    {
        match call {
            GateCall::Single { kind: _, qubit } => match matrix {
                GateMatrix::Single(m) => self.apply_single_qubit_gate(m, qubit),
                GateMatrix::Two(_) => Err(SimError::UnknownGate),
            },
            GateCall::Two { kind: _, control, target } => match matrix {
                GateMatrix::Two(m) => self.apply_two_qubit_gate(m, control, target),
                GateMatrix::Single(_) => Err(SimError::UnknownGate),
            },
        }
    }
}

/// Whether two strings hold the same characters.
fn same_text(a: &str, b: &str) -> (same: bool)
    ensures
        same == (a@ == b@),
{
    let left = a.to_owned();
    let right = b.to_owned();
    left == right
}

/// Whether `name` is the one-letter word `word`.
fn spells1(name: &str, word: &str, a: char) -> (same: bool)
    requires
        is_word1(word@, a),
    ensures
        same == is_word1(name@, a),
{
    proof {
        if is_word1(name@, a) {
            assert(name@ =~= word@);
        }
    }
    same_text(name, word)
}

/// Whether `name` is the two-letter word `word`.
fn spells2(name: &str, word: &str, a: char, b: char) -> (same: bool)
    requires
        is_word2(word@, a, b),
    ensures
        same == is_word2(name@, a, b),
{
    proof {
        if is_word2(name@, a, b) {
            assert(name@ =~= word@);
        }
    }
    same_text(name, word)
}

/// Whether `name` is the four-letter word `word`.
fn spells4(name: &str, word: &str, a: char, b: char, c: char, d: char) -> (same: bool)
    requires
        is_word4(word@, a, b, c, d),
    ensures
        same == is_word4(name@, a, b, c, d),
{
    proof {
        if is_word4(name@, a, b, c, d) {
            assert(name@ =~= word@);
        }
    }
    same_text(name, word)
}

/// Looks a name up in the catalog.
pub fn parse_gate_name(name: &str) -> (kind: Option<GateKind>)
    ensures
        kind == gate_named(name@),
{
    proof {
        reveal_strlit("H");
        reveal_strlit("X");
        reveal_strlit("Y");
        reveal_strlit("Z");
        reveal_strlit("S");
        reveal_strlit("T");
        reveal_strlit("RX");
        reveal_strlit("RY");
        reveal_strlit("RZ");
        reveal_strlit("CNOT");
        reveal_strlit("CX");
        reveal_strlit("CZ");
        reveal_strlit("SWAP");
    }
    if spells1(name, "H", 'H') {
        Some(GateKind::Hadamard)
    } else if spells1(name, "X", 'X') {
        Some(GateKind::PauliX)
    } else if spells1(name, "Y", 'Y') {
        Some(GateKind::PauliY)
    } else if spells1(name, "Z", 'Z') {
        Some(GateKind::PauliZ)
    } else if spells1(name, "S", 'S') {
        Some(GateKind::S)
    } else if spells1(name, "T", 'T') {
        Some(GateKind::T)
    } else if spells2(name, "RX", 'R', 'X') {
        Some(GateKind::RotationX)
    } else if spells2(name, "RY", 'R', 'Y') {
        Some(GateKind::RotationY)
    } else if spells2(name, "RZ", 'R', 'Z') {
        Some(GateKind::RotationZ)
    } else if spells4(name, "CNOT", 'C', 'N', 'O', 'T') || spells2(name, "CX", 'C', 'X') {
        Some(GateKind::Cnot)
    } else if spells2(name, "CZ", 'C', 'Z') {
        Some(GateKind::Cz)
    } else if spells4(name, "SWAP", 'S', 'W', 'A', 'P') {
        Some(GateKind::Swap)
    } else {
        None
    }
}

/// Resolves a call by name. `qubits` and `parameters` are the numbers of
/// qubit indices and of parameters that the call brings; more than the kind
/// consumes are ignored. An unknown name, or a call that brings too few of
/// either, is an `UnknownGate`.
pub fn resolve_gate(name: &str, qubits: usize, parameters: usize) -> (r: Result<
    GateKind,
    SimError,
>)
    ensures
        r == resolved(name@, qubits as nat, parameters as nat),
{
    match parse_gate_name(name) {
        Some(kind) => {
            if qubits >= kind.qubit_count() && parameters >= kind.parameter_count() {
                Ok(kind)
            } else {
                Err(SimError::UnknownGate)
            }
        },
        None => Err(SimError::UnknownGate),
    }
}

/// Resolves a call by name into the catalog entry and the qubits it acts
/// on. Indices and parameters beyond those that the kind consumes are
/// ignored. Whether the qubits exist in a given register is for the
/// register to say when the call is applied.
pub fn plan_gate(name: &str, qubits: &Vec<usize>, parameters: usize) -> (r: Result<
    GateCall,
    SimError,
>)
    ensures
        r == planned(name@, qubits@, parameters as nat),
{
    match resolve_gate(name, qubits.len(), parameters) {
        Ok(kind) => {
            if kind.qubit_count() == 2 {
                Ok(GateCall::Two { kind, control: qubits[0], target: qubits[1] })
            } else {
                Ok(GateCall::Single { kind, qubit: qubits[0] })
            }
        },
        Err(e) => Err(e),
    }
}

} // verus!
