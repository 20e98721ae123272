//! A state-vector simulator for small quantum circuits.
//!
//! An `n`-qubit register is a vector of `2^n` complex amplitudes, indexed by
//! basis state with qubit 0 as the least-significant bit. A gate is a small
//! unitary matrix; it mixes the amplitudes of those basis states that agree
//! on every qubit it leaves alone.
//!
//! What is proved here is the indexing: which amplitudes are combined, into
//! which slots the results go, and that a rejected call changes nothing. The
//! arithmetic on a single amplitude is done by `num_complex` and is referred
//! to by name in the contracts (see [`complex`]).
//!
//! * [`quantum_state`] holds the register and the one- and two-qubit
//!   operations, [`multi_qubit`] the operation on any number of qubits.
//! * [`gates`] is the catalog of gates with exact entries, proved unitary
//!   over the Gaussian integers of [`exact`].
//! * [`measurement`] selects outcomes from a cumulative distribution, labels
//!   them and counts them.
//! * [`dispatch`] resolves a gate name into a catalog entry and its qubits.
//! * [`basis`] has the facts about bits that the operations rest on, and
//!   [`amplitudes`] the vector that a register is stored in.

pub mod amplitudes;
pub mod basis;
pub mod complex;
pub mod dispatch;
pub mod error;
pub mod exact;
pub mod gates;
pub mod measurement;
pub mod multi_qubit;
pub mod quantum_state;

pub use amplitudes::Amplitudes;
pub use error::SimError;
pub use gates::Gates;
pub use quantum_state::QuantumState;
