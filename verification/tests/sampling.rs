use std::f64::consts::SQRT_2;

use num_complex::Complex64;
use quantum_sim::measurement::{
    basis_label_of, is_nondecreasing, select_outcome, select_outcome_by_bisection, OutcomeCount,
};
use quantum_sim::{Gates, QuantumState};

/// The order code of a probability or of a draw: the bit pattern of a
/// positive number, and 0 for anything that is not above zero.
fn code(x: f64) -> u64 {
    if x > 0.0 {
        x.to_bits()
    } else {
        0
    }
}

fn cumulative_codes(sim: &QuantumState) -> Vec<u64> {
    let mut sum = 0.0;
    let mut out = Vec::new();
    for amp in sim.to_vec() {
        sum += amp.norm_sqr();
        out.push(code(sum));
    }
    out
}

fn bell_state() -> QuantumState {
    let inv_sqrt2 = 1.0 / SQRT_2;
    let h = [
        Complex64::new(inv_sqrt2, 0.0),
        Complex64::new(inv_sqrt2, 0.0),
        Complex64::new(inv_sqrt2, 0.0),
        Complex64::new(-inv_sqrt2, 0.0),
    ];
    let mut sim = QuantumState::new(2);
    sim.apply_single_qubit_gate(&h, 0).unwrap();
    sim.apply_two_qubit_gate(&Gates::cnot(), 0, 1).unwrap();
    sim
}

fn line(basis_index: usize, bitstring: &str, count: usize) -> OutcomeCount {
    OutcomeCount { basis_index, bitstring: bitstring.to_string(), count }
}

#[test]
fn first_value_above_the_draw_is_selected() {
    let cumulative: Vec<u64> = [0.25, 0.25, 0.75, 1.0].iter().map(|&x| code(x)).collect();
    assert_eq!(select_outcome(&cumulative, code(0.0)), 0);
    assert_eq!(select_outcome(&cumulative, code(0.2)), 0);
    assert_eq!(select_outcome(&cumulative, code(0.25)), 2);
    assert_eq!(select_outcome(&cumulative, code(0.5)), 2);
    assert_eq!(select_outcome(&cumulative, code(0.75)), 3);
    assert_eq!(select_outcome(&cumulative, code(0.999)), 3);
}

#[test]
fn draw_that_nothing_exceeds_falls_back_to_zero() {
    let cumulative: Vec<u64> = [0.0, 0.5, 0.9999999].iter().map(|&x| code(x)).collect();
    assert_eq!(select_outcome(&cumulative, code(0.99999995)), 0);
    assert_eq!(select_outcome(&cumulative, code(0.9999999)), 0);
    assert_eq!(select_outcome(&cumulative, u64::MAX), 0);
    assert_eq!(select_outcome(&Vec::new(), 0), 0);
}

#[test]
fn linear_and_binary_search_agree() {
    let cumulative: Vec<u64> =
        [0.0, 0.125, 0.125, 0.5, 0.5, 0.5, 0.875, 0.9375].iter().map(|&x| code(x)).collect();
    assert!(is_nondecreasing(&cumulative));
    for step in 0..64 {
        let draw = code(step as f64 / 64.0);
        let by_partition = cumulative.partition_point(|&x| x <= draw);
        let expected = if by_partition < cumulative.len() { by_partition } else { 0 };
        assert_eq!(select_outcome(&cumulative, draw), expected);
        assert_eq!(select_outcome_by_bisection(&cumulative, draw), expected);
    }
    for len in 0..6usize {
        let short: Vec<u64> = cumulative[..len].to_vec();
        for draw in [0, code(0.1), code(0.125), code(0.3), code(0.5), u64::MAX] {
            assert_eq!(select_outcome_by_bisection(&short, draw), select_outcome(&short, draw));
        }
    }
}

#[test]
fn falling_values_are_recognised() {
    assert!(is_nondecreasing(&Vec::new()));
    assert!(is_nondecreasing(&vec![7]));
    assert!(is_nondecreasing(&vec![1, 1, 2, 2, 9]));
    assert!(!is_nondecreasing(&vec![1, 3, 2, 4]));
    assert!(!is_nondecreasing(&vec![5, 4]));
}

#[test]
fn falling_values_are_searched_from_the_left() {
    let sim = QuantumState::new(2);
    let cumulative: Vec<u64> = vec![10, 40, 20, 50];
    let draws: Vec<u64> = vec![5, 15, 30, 45, 60, 25];
    // 5 -> 0, 15 -> 1, 30 -> 1, 45 -> 3, 60 -> none -> 0, 25 -> 1.
    assert_eq!(
        sim.measure(&cumulative, &draws),
        vec![line(0, "00", 2), line(1, "01", 3), line(3, "11", 1)]
    );
}

#[test]
fn labels_are_binary_with_the_highest_qubit_first() {
    assert_eq!(basis_label_of(0, 0), "0");
    assert_eq!(basis_label_of(0, 1), "0");
    assert_eq!(basis_label_of(1, 1), "1");
    assert_eq!(basis_label_of(1, 2), "01");
    assert_eq!(basis_label_of(2, 2), "10");
    assert_eq!(basis_label_of(5, 4), "0101");
    assert_eq!(basis_label_of(0, 5), "00000");
    assert_eq!(basis_label_of(1023, 10), "1111111111");
    for width in 1..8usize {
        for index in 0..(1usize << width) {
            assert_eq!(
                basis_label_of(index, width),
                format!("{:0width$b}", index, width = width)
            );
        }
    }
}

#[test]
fn bell_state_is_observed_as_00_or_11() {
    let sim = bell_state();
    let cumulative = cumulative_codes(&sim);
    let shots = 1000;
    let draws: Vec<u64> = (0..shots).map(|k| code((k as f64 + 0.5) / shots as f64)).collect();
    let report = sim.measure(&cumulative, &draws);
    assert_eq!(report.len(), 2);
    assert_eq!(report[0].basis_index, 0);
    assert_eq!(report[0].bitstring, "00");
    assert_eq!(report[1].basis_index, 3);
    assert_eq!(report[1].bitstring, "11");
    assert_eq!(report[0].count + report[1].count, shots);
    assert!((report[0].count as i64 - 500).abs() <= 1);
    assert!((report[1].count as i64 - 500).abs() <= 1);
    // The register is as it was.
    assert_eq!(cumulative_codes(&sim), cumulative);
}

#[test]
fn counts_add_up_to_the_shots() {
    let mut sim = QuantumState::new(3);
    sim.apply_single_qubit_gate(&Gates::pauli_x(), 1).unwrap();
    let cumulative = cumulative_codes(&sim);
    let draws: Vec<u64> = [0.0, 0.1, 0.5, 0.9, 0.99].iter().map(|&x| code(x)).collect();
    assert_eq!(sim.measure(&cumulative, &draws), vec![line(2, "010", 5)]);
    assert_eq!(sim.measure(&cumulative, &Vec::new()), Vec::new());
}

#[test]
fn report_lists_observed_states_by_rising_index() {
    let sim = QuantumState::new(2);
    let cumulative: Vec<u64> = [0.1, 0.4, 0.4, 1.0].iter().map(|&x| code(x)).collect();
    let draws: Vec<u64> =
        [0.95, 0.05, 0.2, 0.5, 0.3, 0.0, 0.45].iter().map(|&x| code(x)).collect();
    assert_eq!(
        sim.measure(&cumulative, &draws),
        vec![line(0, "00", 2), line(1, "01", 2), line(3, "11", 3)]
    );
}

#[test]
fn fallback_is_counted_for_state_zero() {
    let sim = QuantumState::new(1);
    // The sum stops short of one, and the last draw lies above it.
    let cumulative: Vec<u64> = [0.0, 0.75].iter().map(|&x| code(x)).collect();
    let draws: Vec<u64> = [0.1, 0.8].iter().map(|&x| code(x)).collect();
    assert_eq!(sim.measure(&cumulative, &draws), vec![line(0, "0", 1), line(1, "1", 1)]);
}

#[test]
fn register_without_qubits_is_always_observed_as_0() {
    let sim = QuantumState::new(0);
    let cumulative = cumulative_codes(&sim);
    let draws: Vec<u64> = [0.0, 0.3, 0.999].iter().map(|&x| code(x)).collect();
    assert_eq!(sim.measure(&cumulative, &draws), vec![line(0, "0", 3)]);
}

#[test]
fn different_states_have_different_labels() {
    for width in 0..7usize {
        let count = 1usize << width;
        let mut labels: Vec<String> = (0..count).map(|i| basis_label_of(i, width)).collect();
        labels.sort();
        labels.dedup();
        assert_eq!(labels.len(), count);
    }
}
