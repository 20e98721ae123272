//! Why an operation on a register is refused.

use vstd::prelude::*;

verus! {

/// The failures that an operation reports. A refused operation leaves the
/// register as it was.
#[derive(Clone, Copy, Debug, PartialEq, Eq, Structural)]
pub enum SimError {
    /// A qubit index is not below the number of qubits, or control and target
    /// are the same qubit.
    InvalidQubitIndex,
    /// No catalog entry has that name, or the call gives it too few operands
    /// or parameters.
    UnknownGate,
}

impl SimError {
    /// A short description for messages.
    pub fn describe(&self) -> (text: &'static str)
        ensures
            text@ == match *self {
                SimError::InvalidQubitIndex => "invalid qubit index"@,
                SimError::UnknownGate => "unknown gate"@,
            },
    {
        match self {
            SimError::InvalidQubitIndex => "invalid qubit index",
            SimError::UnknownGate => "unknown gate",
        }
    }
}

} // verus!
