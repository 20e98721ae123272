use std::f64::consts::SQRT_2;

use num_complex::Complex64;
use quantum_sim::{Gates, QuantumState, SimError};

fn c(re: f64, im: f64) -> Complex64 {
    Complex64::new(re, im)
}

fn hadamard() -> [Complex64; 4] {
    let inv_sqrt2 = 1.0 / SQRT_2;
    [c(inv_sqrt2, 0.0), c(inv_sqrt2, 0.0), c(inv_sqrt2, 0.0), c(-inv_sqrt2, 0.0)]
}

/// A state in which no two amplitudes are equal.
fn scrambled(num_qubits: usize) -> QuantumState {
    let mut sim = QuantumState::new(num_qubits);
    for i in 0..(1usize << num_qubits) {
        sim.amplitudes.set(i, c(1.0 + i as f64, 0.5 * i as f64 - 3.0));
    }
    sim
}

/// A matrix in which no two entries are equal.
fn dense(dim: usize) -> Vec<Complex64> {
    (0..dim * dim).map(|k| c(0.25 * k as f64 - 1.0, 2.0 - 0.125 * k as f64)).collect()
}

#[test]
fn toffoli_flips_the_target_when_both_controls_are_set() {
    let toffoli = Gates::toffoli().to_vec();
    for input in 0..8usize {
        let mut sim = QuantumState::new(3);
        for q in 0..3 {
            if input & (1 << q) != 0 {
                sim.apply_single_qubit_gate(&Gates::pauli_x(), q).unwrap();
            }
        }
        // Controls are qubits 2 and 1, the target is qubit 0.
        sim.apply_multi_qubit_gate(&toffoli, &vec![2, 1, 0]).unwrap();
        let expected = if input & 0b110 == 0b110 { input ^ 1 } else { input };
        let all = sim.to_vec();
        for i in 0..8 {
            let amp = if i == expected { c(1.0, 0.0) } else { c(0.0, 0.0) };
            assert_eq!(all[i], amp, "input {} index {}", input, i);
        }
    }
}

#[test]
fn toffoli_with_other_controls() {
    let toffoli = Gates::toffoli().to_vec();
    // Controls are qubits 0 and 3, the target is qubit 1, of four qubits.
    for input in 0..16usize {
        let mut sim = QuantumState::new(4);
        for q in 0..4 {
            if input & (1 << q) != 0 {
                sim.apply_single_qubit_gate(&Gates::pauli_x(), q).unwrap();
            }
        }
        sim.apply_multi_qubit_gate(&toffoli, &vec![0, 3, 1]).unwrap();
        let expected = if input & 0b1001 == 0b1001 { input ^ 0b0010 } else { input };
        let all = sim.to_vec();
        for i in 0..16 {
            let amp = if i == expected { c(1.0, 0.0) } else { c(0.0, 0.0) };
            assert_eq!(all[i], amp, "input {} index {}", input, i);
        }
    }
}

#[test]
fn one_qubit_through_the_general_operation() {
    let gate = dense(2);
    let fixed: [Complex64; 4] = [gate[0], gate[1], gate[2], gate[3]];
    for qubit in 0..3 {
        let mut general = scrambled(3);
        let mut single = scrambled(3);
        general.apply_multi_qubit_gate(&gate, &vec![qubit]).unwrap();
        single.apply_single_qubit_gate(&fixed, qubit).unwrap();
        assert_eq!(general.to_vec(), single.to_vec());
    }
}

#[test]
fn two_qubits_through_the_general_operation() {
    let gate = dense(4);
    let mut fixed = [c(0.0, 0.0); 16];
    fixed.copy_from_slice(&gate);
    for control in 0..3 {
        for target in 0..3 {
            if control == target {
                continue;
            }
            let mut general = scrambled(3);
            let mut two = scrambled(3);
            general.apply_multi_qubit_gate(&gate, &vec![control, target]).unwrap();
            two.apply_two_qubit_gate(&fixed, control, target).unwrap();
            assert_eq!(general.to_vec(), two.to_vec());
        }
    }
}

#[test]
fn three_qubit_matrix_uses_rows_and_old_values() {
    // Entry (r, c) is 8·r + c + 1 and the amplitude of pattern p is 10^p, so
    // every sum shows which entries met which amplitudes.
    let gate: Vec<Complex64> = (0..64).map(|k| c(k as f64 + 1.0, 0.0)).collect();
    let qubits = vec![3, 0, 2];
    let place = |p: usize| -> usize {
        let mut index = 0b0010;
        if p & 4 != 0 {
            index |= 1 << 3;
        }
        if p & 2 != 0 {
            index |= 1 << 0;
        }
        if p & 1 != 0 {
            index |= 1 << 2;
        }
        index
    };
    let mut sim = QuantumState::new(4);
    sim.amplitudes.set(0, c(0.0, 0.0));
    for p in 0..8 {
        sim.amplitudes.set(place(p), c(10f64.powi(p as i32), 0.0));
    }
    sim.apply_multi_qubit_gate(&gate, &qubits).unwrap();
    let all = sim.to_vec();
    for r in 0..8 {
        let mut expected = 0.0;
        for p in 0..8 {
            expected += (8 * r + p + 1) as f64 * 10f64.powi(p as i32);
        }
        assert_eq!(all[place(r)], c(expected, 0.0), "row {}", r);
    }
    for i in 0..16 {
        if i & 0b0010 == 0 {
            assert_eq!(all[i], c(0.0, 0.0));
        }
    }
}

#[test]
fn gate_on_no_qubits_scales_every_amplitude() {
    let mut sim = scrambled(2);
    let before = sim.to_vec();
    sim.apply_multi_qubit_gate(&vec![c(0.0, 1.0)], &Vec::new()).unwrap();
    let after = sim.to_vec();
    for i in 0..4 {
        assert_eq!(after[i], c(0.0, 1.0) * before[i]);
    }
}

#[test]
fn bell_state_through_the_general_operation() {
    let mut sim = QuantumState::new(2);
    sim.apply_multi_qubit_gate(&hadamard().to_vec(), &vec![0]).unwrap();
    sim.apply_multi_qubit_gate(&Gates::cnot().to_vec(), &vec![0, 1]).unwrap();
    let probs: Vec<f64> = sim.to_vec().iter().map(|a| a.norm_sqr()).collect();
    assert!((probs[0] - 0.5).abs() < 1e-10);
    assert!(probs[1] < 1e-10);
    assert!(probs[2] < 1e-10);
    assert!((probs[3] - 0.5).abs() < 1e-10);
}

#[test]
fn general_operation_refuses_bad_qubits() {
    let mut sim = scrambled(3);
    let before = sim.to_vec();
    let toffoli = Gates::toffoli().to_vec();
    for qubits in [vec![0, 1, 3], vec![3, 1, 0], vec![0, 1, 1], vec![2, 0, 2], vec![usize::MAX, 0, 1]] {
        assert_eq!(
            sim.apply_multi_qubit_gate(&toffoli, &qubits),
            Err(SimError::InvalidQubitIndex),
            "{:?}",
            qubits
        );
    }
    assert_eq!(
        sim.apply_multi_qubit_gate(&dense(16), &vec![0, 1, 2, 0]),
        Err(SimError::InvalidQubitIndex)
    );
    assert_eq!(sim.to_vec(), before);
}

#[test]
fn general_operation_refuses_a_matrix_of_the_wrong_size() {
    let mut sim = scrambled(3);
    let before = sim.to_vec();
    assert_eq!(sim.apply_multi_qubit_gate(&dense(2), &vec![0, 1]), Err(SimError::UnknownGate));
    assert_eq!(sim.apply_multi_qubit_gate(&dense(4), &vec![0]), Err(SimError::UnknownGate));
    assert_eq!(sim.apply_multi_qubit_gate(&Vec::new(), &vec![0, 1, 2]), Err(SimError::UnknownGate));
    assert_eq!(sim.apply_multi_qubit_gate(&Vec::new(), &Vec::new()), Err(SimError::UnknownGate));
    // Bad qubits are reported before a bad size.
    assert_eq!(
        sim.apply_multi_qubit_gate(&dense(2), &vec![0, 7]),
        Err(SimError::InvalidQubitIndex)
    );
    assert_eq!(sim.to_vec(), before);
}
