use std::f64::consts::SQRT_2;

use num_complex::Complex64;
use quantum_sim::{Amplitudes, Gates, QuantumState, SimError};

fn c(re: f64, im: f64) -> Complex64 {
    Complex64::new(re, im)
}

fn hadamard() -> [Complex64; 4] {
    let inv_sqrt2 = 1.0 / SQRT_2;
    [c(inv_sqrt2, 0.0), c(inv_sqrt2, 0.0), c(inv_sqrt2, 0.0), c(-inv_sqrt2, 0.0)]
}

fn probabilities(sim: &QuantumState) -> Vec<f64> {
    sim.to_vec().iter().map(|amp| amp.norm_sqr()).collect()
}

#[test]
fn test_simulator_creation() {
    let sim = QuantumState::new(2);
    assert_eq!(sim.num_qubits, 2);
    assert_eq!(sim.amplitudes.len(), 4);
}

#[test]
fn test_hadamard_gate() {
    let mut sim = QuantumState::new(1);
    let h_gate = hadamard();
    sim.apply_single_qubit_gate(&h_gate, 0).unwrap();

    let probs = probabilities(&sim);
    assert!((probs[0] - 0.5).abs() < 1e-10);
    assert!((probs[1] - 0.5).abs() < 1e-10);
}

#[test]
fn test_cnot_bell_state() {
    let mut sim = QuantumState::new(2);
    let h_gate = hadamard();
    let cnot_gate = Gates::cnot();

    sim.apply_single_qubit_gate(&h_gate, 0).unwrap();
    sim.apply_two_qubit_gate(&cnot_gate, 0, 1).unwrap();

    let probs = probabilities(&sim);
    assert!((probs[0] - 0.5).abs() < 1e-10);
    assert!(probs[1] < 1e-10);
    assert!(probs[2] < 1e-10);
    assert!((probs[3] - 0.5).abs() < 1e-10);
}

#[test]
fn new_register_is_the_ground_state() {
    let sim = QuantumState::new(3);
    let all = sim.to_vec();
    assert_eq!(all.len(), 8);
    assert_eq!(all[0], c(1.0, 0.0));
    for i in 1..8 {
        assert_eq!(all[i], c(0.0, 0.0));
    }
    assert!(sim.is_well_formed());
    assert_eq!(sim.dimension(), 8);
}

#[test]
fn register_without_qubits_has_one_amplitude() {
    let mut sim = QuantumState::new(0);
    assert_eq!(sim.num_qubits, 0);
    assert_eq!(sim.to_vec(), vec![c(1.0, 0.0)]);
    assert_eq!(
        sim.apply_single_qubit_gate(&Gates::pauli_x(), 0),
        Err(SimError::InvalidQubitIndex)
    );
    assert_eq!(sim.to_vec(), vec![c(1.0, 0.0)]);
}

#[test]
fn representable_sizes() {
    assert!(QuantumState::is_representable(0));
    assert!(QuantumState::is_representable(20));
    assert!(!QuantumState::is_representable(usize::BITS as usize));
    assert!(!QuantumState::is_representable(usize::BITS as usize - 5));
    assert!(QuantumState::is_representable(usize::BITS as usize - 6));
    assert!(!QuantumState::is_representable(usize::MAX));
}

#[test]
fn tampered_register_is_not_well_formed() {
    let mut sim = QuantumState::new(2);
    sim.num_qubits = 3;
    assert!(!sim.is_well_formed());
    sim.num_qubits = 2;
    assert!(sim.is_well_formed());
    sim.amplitudes = Amplitudes::zeros(3);
    assert!(!sim.is_well_formed());
}

#[test]
fn pauli_x_flips_the_named_qubit() {
    let mut sim = QuantumState::new(3);
    sim.apply_single_qubit_gate(&Gates::pauli_x(), 1).unwrap();
    let all = sim.to_vec();
    for i in 0..8 {
        let expected = if i == 2 { c(1.0, 0.0) } else { c(0.0, 0.0) };
        assert_eq!(all[i], expected, "index {}", i);
    }
    sim.apply_single_qubit_gate(&Gates::pauli_x(), 2).unwrap();
    let all = sim.to_vec();
    for i in 0..8 {
        let expected = if i == 6 { c(1.0, 0.0) } else { c(0.0, 0.0) };
        assert_eq!(all[i], expected, "index {}", i);
    }
}

#[test]
fn single_qubit_gate_uses_rows_and_old_values() {
    // A matrix with four different entries on a state with two different
    // amplitudes tells rows from columns and old values from new ones.
    let gate = [c(2.0, 0.0), c(3.0, 0.0), c(5.0, 0.0), c(7.0, 0.0)];
    let mut sim = QuantumState::new(1);
    sim.amplitudes.set(0, c(1.0, 0.0));
    sim.amplitudes.set(1, c(10.0, 0.0));
    sim.apply_single_qubit_gate(&gate, 0).unwrap();
    assert_eq!(sim.to_vec(), vec![c(32.0, 0.0), c(75.0, 0.0)]);
}

#[test]
fn single_qubit_gate_multiplies_complex_numbers() {
    // (1 + 2i)(3 + 4i) = -5 + 10i, and (0 + i)(3 + 4i) = -4 + 3i.
    let gate = [c(1.0, 2.0), c(0.0, 0.0), c(0.0, 1.0), c(0.0, 0.0)];
    let mut sim = QuantumState::new(1);
    sim.amplitudes.set(0, c(3.0, 4.0));
    sim.apply_single_qubit_gate(&gate, 0).unwrap();
    assert_eq!(sim.to_vec(), vec![c(-5.0, 10.0), c(-4.0, 3.0)]);
}

#[test]
fn invalid_qubit_is_refused_and_changes_nothing() {
    let mut sim = QuantumState::new(2);
    sim.apply_single_qubit_gate(&hadamard(), 1).unwrap();
    let before = sim.to_vec();
    assert_eq!(
        sim.apply_single_qubit_gate(&Gates::pauli_x(), 2),
        Err(SimError::InvalidQubitIndex)
    );
    assert_eq!(
        sim.apply_single_qubit_gate(&Gates::pauli_x(), usize::MAX),
        Err(SimError::InvalidQubitIndex)
    );
    assert_eq!(sim.apply_two_qubit_gate(&Gates::cnot(), 0, 2), Err(SimError::InvalidQubitIndex));
    assert_eq!(sim.apply_two_qubit_gate(&Gates::cnot(), 2, 0), Err(SimError::InvalidQubitIndex));
    assert_eq!(sim.apply_two_qubit_gate(&Gates::cnot(), 1, 1), Err(SimError::InvalidQubitIndex));
    assert_eq!(sim.to_vec(), before);
    assert_eq!(sim.num_qubits, 2);
}

#[test]
fn cnot_control_is_the_first_qubit() {
    // |q1 q0> = |01>: qubit 0 is set.
    let mut sim = QuantumState::new(2);
    sim.apply_single_qubit_gate(&Gates::pauli_x(), 0).unwrap();
    // Control 1 is clear: nothing happens.
    sim.apply_two_qubit_gate(&Gates::cnot(), 1, 0).unwrap();
    assert_eq!(sim.to_vec(), vec![c(0.0, 0.0), c(1.0, 0.0), c(0.0, 0.0), c(0.0, 0.0)]);
    // Control 0 is set: qubit 1 flips, giving index 3.
    sim.apply_two_qubit_gate(&Gates::cnot(), 0, 1).unwrap();
    assert_eq!(sim.to_vec(), vec![c(0.0, 0.0), c(0.0, 0.0), c(0.0, 0.0), c(1.0, 0.0)]);
}

#[test]
fn two_qubit_gate_uses_rows_and_old_values() {
    // Entry (r, c) of the matrix is 10·r + c + 1; the four amplitudes of the
    // group are 1, 100, 10000, 1000000 in the order 00, 01, 10, 11 of
    // (control, target) = (qubit 2, qubit 0).
    let mut gate = [c(0.0, 0.0); 16];
    for r in 0..4 {
        for col in 0..4 {
            gate[r * 4 + col] = c((10 * r + col + 1) as f64, 0.0);
        }
    }
    let mut sim = QuantumState::new(3);
    for i in 0..8 {
        sim.amplitudes.set(i, c(0.0, 0.0));
    }
    sim.amplitudes.set(0b010, c(1.0, 0.0));
    sim.amplitudes.set(0b011, c(100.0, 0.0));
    sim.amplitudes.set(0b110, c(10000.0, 0.0));
    sim.amplitudes.set(0b111, c(1000000.0, 0.0));
    sim.apply_two_qubit_gate(&gate, 2, 0).unwrap();
    let all = sim.to_vec();
    let row = |r: f64| {
        (10.0 * r + 1.0) + (10.0 * r + 2.0) * 100.0
            + (10.0 * r + 3.0) * 10000.0
            + (10.0 * r + 4.0) * 1000000.0
    };
    assert_eq!(all[0b010], c(row(0.0), 0.0));
    assert_eq!(all[0b011], c(row(1.0), 0.0));
    assert_eq!(all[0b110], c(row(2.0), 0.0));
    assert_eq!(all[0b111], c(row(3.0), 0.0));
    for i in [0b000, 0b001, 0b100, 0b101] {
        assert_eq!(all[i], c(0.0, 0.0));
    }
}

#[test]
fn swap_exchanges_two_qubits() {
    let mut sim = QuantumState::new(3);
    sim.apply_single_qubit_gate(&Gates::pauli_x(), 0).unwrap();
    sim.apply_two_qubit_gate(&Gates::swap(), 0, 2).unwrap();
    let all = sim.to_vec();
    for i in 0..8 {
        let expected = if i == 4 { c(1.0, 0.0) } else { c(0.0, 0.0) };
        assert_eq!(all[i], expected, "index {}", i);
    }
}

#[test]
fn cz_changes_the_sign_where_both_bits_are_set() {
    let mut sim = QuantumState::new(2);
    sim.apply_single_qubit_gate(&hadamard(), 0).unwrap();
    sim.apply_single_qubit_gate(&hadamard(), 1).unwrap();
    let before = sim.to_vec();
    sim.apply_two_qubit_gate(&Gates::cz(), 0, 1).unwrap();
    let after = sim.to_vec();
    for i in 0..3 {
        assert!((after[i] - before[i]).norm() < 1e-12);
    }
    assert!((after[3] + before[3]).norm() < 1e-12);
}

#[test]
fn identity_gate_leaves_the_vector() {
    let mut sim = QuantumState::new(2);
    sim.apply_single_qubit_gate(&hadamard(), 0).unwrap();
    sim.apply_two_qubit_gate(&Gates::cnot(), 0, 1).unwrap();
    let before = sim.to_vec();
    sim.apply_single_qubit_gate(&Gates::identity(), 1).unwrap();
    let after = sim.to_vec();
    for i in 0..4 {
        assert!((after[i] - before[i]).norm() < 1e-12);
    }
}

fn conjugate_transpose(gate: &[Complex64; 4]) -> [Complex64; 4] {
    [gate[0].conj(), gate[2].conj(), gate[1].conj(), gate[3].conj()]
}

#[test]
fn gate_then_its_adjoint_restores_the_vector() {
    let gates = [
        Gates::identity(),
        Gates::pauli_x(),
        Gates::pauli_y(),
        Gates::pauli_z(),
        Gates::s_gate(),
        hadamard(),
    ];
    for gate in gates.iter() {
        let mut sim = QuantumState::new(2);
        sim.apply_single_qubit_gate(&hadamard(), 0).unwrap();
        sim.apply_single_qubit_gate(&Gates::s_gate(), 0).unwrap();
        sim.apply_two_qubit_gate(&Gates::cnot(), 0, 1).unwrap();
        let before = sim.to_vec();
        sim.apply_single_qubit_gate(gate, 1).unwrap();
        sim.apply_single_qubit_gate(&conjugate_transpose(gate), 1).unwrap();
        let after = sim.to_vec();
        for i in 0..4 {
            assert!((after[i] - before[i]).norm() < 1e-10);
        }
    }
}

#[test]
fn probabilities_sum_to_one_after_unitaries() {
    let mut sim = QuantumState::new(3);
    for q in 0..3 {
        sim.apply_single_qubit_gate(&hadamard(), q).unwrap();
        sim.apply_single_qubit_gate(&Gates::s_gate(), q).unwrap();
    }
    sim.apply_two_qubit_gate(&Gates::cnot(), 0, 2).unwrap();
    sim.apply_two_qubit_gate(&Gates::cz(), 1, 2).unwrap();
    sim.apply_two_qubit_gate(&Gates::swap(), 0, 1).unwrap();
    sim.apply_single_qubit_gate(&Gates::pauli_y(), 1).unwrap();
    let total: f64 = probabilities(&sim).iter().sum();
    assert!((total - 1.0).abs() < 1e-9);
}

#[test]
fn overlap_of_a_state_with_itself_is_one() {
    let mut sim = QuantumState::new(2);
    sim.apply_single_qubit_gate(&hadamard(), 0).unwrap();
    sim.apply_two_qubit_gate(&Gates::cnot(), 0, 1).unwrap();
    let overlap = sim.overlap(&sim).unwrap();
    assert!((overlap.norm_sqr() - 1.0).abs() < 1e-12);
}

#[test]
fn fidelity_of_two_states_lies_between_zero_and_one() {
    let mut a = QuantumState::new(2);
    a.apply_single_qubit_gate(&hadamard(), 0).unwrap();
    a.apply_single_qubit_gate(&Gates::s_gate(), 0).unwrap();
    a.apply_two_qubit_gate(&Gates::cnot(), 0, 1).unwrap();
    let mut b = QuantumState::new(2);
    b.apply_single_qubit_gate(&hadamard(), 1).unwrap();
    b.apply_two_qubit_gate(&Gates::cz(), 1, 0).unwrap();
    b.apply_single_qubit_gate(&hadamard(), 0).unwrap();
    let fidelity = a.overlap(&b).unwrap().norm_sqr();
    assert!(fidelity >= 0.0 && fidelity <= 1.0 + 1e-12);
    let reverse = b.overlap(&a).unwrap().norm_sqr();
    assert!((fidelity - reverse).abs() < 1e-12);
}

#[test]
fn overlap_conjugates_the_first_state() {
    // a = Y|0> = i|1>, b = X|0> = |1>: <a|b> = conj(i)·1 = -i.
    let mut a = QuantumState::new(1);
    a.apply_single_qubit_gate(&Gates::pauli_y(), 0).unwrap();
    let mut b = QuantumState::new(1);
    b.apply_single_qubit_gate(&Gates::pauli_x(), 0).unwrap();
    assert_eq!(a.overlap(&b), Some(c(0.0, -1.0)));
    assert_eq!(b.overlap(&a), Some(c(0.0, 1.0)));
}

#[test]
fn overlap_of_orthogonal_states_is_zero() {
    let a = QuantumState::new(2);
    let mut b = QuantumState::new(2);
    b.apply_single_qubit_gate(&Gates::pauli_x(), 1).unwrap();
    assert_eq!(a.overlap(&b).unwrap().norm_sqr(), 0.0);
}

#[test]
fn overlap_of_registers_of_different_size_is_none() {
    let a = QuantumState::new(2);
    let b = QuantumState::new(3);
    assert_eq!(a.overlap(&b), None);
    assert_eq!(b.overlap(&a), None);
    let fidelity = a.overlap(&b).map(|z| z.norm_sqr()).unwrap_or(0.0);
    assert_eq!(fidelity, 0.0);
}

#[test]
fn amplitudes_are_read_and_written_by_index() {
    let mut v = Amplitudes::zeros(4);
    assert_eq!(v.len(), 4);
    assert_eq!(v.get(3), Some(c(0.0, 0.0)));
    assert_eq!(v.get(4), None);
    assert!(v.set(2, c(0.5, -0.5)));
    assert!(!v.set(4, c(1.0, 0.0)));
    assert_eq!(v.get(2), Some(c(0.5, -0.5)));
    assert!(v.set(0, c(2.0, 0.0)));
    assert_eq!(v.get(0), Some(c(2.0, 0.0)));
    assert_eq!(v.get(1), Some(c(0.0, 0.0)));
    assert_eq!(v.get(2), Some(c(0.5, -0.5)));
    assert_eq!(v.len(), 4);
}

#[test]
fn errors_describe_themselves() {
    assert_eq!(SimError::InvalidQubitIndex.describe(), "invalid qubit index");
    assert_eq!(SimError::UnknownGate.describe(), "unknown gate");
}
