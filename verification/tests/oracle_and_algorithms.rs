//! The oracle builder and the algorithm drivers, run end to end.

use quantum_simulation::bernstein_vazirani::dot_product;
use quantum_simulation::deutsch_jozsa_balanced::{is_constant, run_deutsch_jozsa_algo};
use quantum_simulation::simon::{function, id, not, run_simons_algo, shift, xor};
use quantum_simulation::simulation::Simulation;
use quantum_simulation::state_vector_simulation::QuantumSimulation;
use quantum_simulation::superdense_coding::{denote, send_and_receive};
use quantum_simulation::teleportation::teleport;

#[test]
fn oracle_on_definite_input_reads_f_of_x() {
    // f = identity on one bit; input qubit 0, answer qubit 1.
    let f = |x: Vec<bool>| -> Vec<bool> { vec![x[0]] };
    for &input in &[false, true] {
        let mut simulation = QuantumSimulation::new(2, 0u64);
        if input {
            simulation.pauli_x(0);
        }
        simulation.apply_u_f(f, &vec![0], &vec![1]);
        let outcome = simulation.measure_all();
        assert_eq!(outcome[0], input);
        assert_eq!(outcome[1], input, "answer qubit must read f(x)");
    }
}

#[test]
fn oracle_with_negation_toggles_answer() {
    let f = |x: Vec<bool>| -> Vec<bool> { vec![!x[0]] };
    let mut simulation = QuantumSimulation::new(2, 0u64);
    // input 0: f(0) = 1, so the answer qubit flips to 1.
    simulation.apply_u_f(f, &vec![0], &vec![1]);
    let outcome = simulation.measure_all();
    assert_eq!(outcome, vec![false, true]);
}

#[test]
fn oracle_multi_answer_writes_both_bits() {
    // Two answer qubits receive (x, !x).
    let f = |x: Vec<bool>| -> Vec<bool> { vec![x[0], !x[0]] };
    let mut simulation = QuantumSimulation::new(3, 0u64);
    simulation.pauli_x(0);
    simulation.apply_u_f(f, &vec![0], &vec![1, 2]);
    let outcome = simulation.measure_all();
    assert_eq!(outcome, vec![true, true, false]);
}

#[test]
fn oracle_applied_twice_is_identity() {
    let f = |x: Vec<bool>| -> Vec<bool> { vec![x[0] ^ x[1]] };
    let mut simulation = QuantumSimulation::new(3, 0u64);
    simulation.hadamard(0);
    simulation.hadamard(1);
    simulation.t(0);
    let before = simulation.amplitudes.clone();
    simulation.apply_u_f(f, &vec![0, 1], &vec![2]);
    simulation.apply_u_f(f, &vec![0, 1], &vec![2]);
    assert_eq!(simulation.amplitudes, before);
}

#[test]
fn deutsch_reports_parity() {
    // The measured bit is f(false) XOR f(true).
    let id = |x: bool| -> bool { x };
    let neg = |x: bool| -> bool { !x };
    let always_false = |_x: bool| -> bool { false };
    let always_true = |_x: bool| -> bool { true };

    for m in quantum_simulation::deutsch_parity::run_deutsch_algo(&id, 20) {
        assert_eq!(m, vec![true]);
    }
    for m in quantum_simulation::deutsch_parity::run_deutsch_algo(&neg, 20) {
        assert_eq!(m, vec![true]);
    }
    for m in quantum_simulation::deutsch_parity::run_deutsch_algo(&always_false, 20) {
        assert_eq!(m, vec![false]);
    }
    for m in quantum_simulation::deutsch_parity::run_deutsch_algo(&always_true, 20) {
        assert_eq!(m, vec![false]);
    }
}

#[test]
fn deutsch_jozsa_separates_constant_from_balanced() {

    let constant = |_x: Vec<bool>| -> bool { false };
    let (ms, constant_count) = run_deutsch_jozsa_algo(&constant, 4, 30);
    assert_eq!(ms.len(), 30);
    assert_eq!(constant_count, 30);

    let balanced = |x: Vec<bool>| -> bool { x[0] ^ x[1] ^ x[2] ^ x[3] };
    let (ms2, constant_count2) = run_deutsch_jozsa_algo(&balanced, 4, 30);
    assert_eq!(ms2.len(), 30);
    assert_eq!(constant_count2, 0);
    assert!(ms2.iter().all(|m| !is_constant(m)));
}

#[test]
fn bernstein_vazirani_recovers_the_secret_mask() {
    let secret = vec![true, false, true];
    let s = secret.clone();
    let f = move |x: Vec<bool>| -> bool {
        let mut acc = false;
        for i in 0..x.len() {
            acc ^= x[i] && s[i];
        }
        acc
    };
    let runs = quantum_simulation::bernstein_vazirani::run_bernstein_vazirani_algo(&f, 3, 25);
    for m in runs {
        assert_eq!(m, secret);
    }
}

#[test]
fn dot_product_is_the_masked_parity() {
    let x = vec![true, true, false, true];
    let s = vec![true, false, false, true];
    assert_eq!(dot_product(&x, &s), false);
    let s2 = vec![true, false, false, false];
    assert_eq!(dot_product(&x, &s2), true);
    assert_eq!(dot_product(&vec![], &vec![]), false);
}

#[test]
fn simons_measurements_are_orthogonal_to_the_mask() {
    // Secret mask (1, 0, 1); f collapses each {x, x ^ s} pair.
    let secret = vec![true, false, true];
    let s = secret.clone();
    let f = move |x: Vec<bool>| -> Vec<bool> { function(x, &s, &id) };
    let runs = run_simons_algo(&f, 3, 40);
    assert_eq!(runs.len(), 40);
    for m in runs {
        let mut dot = false;
        for i in 0..3 {
            dot ^= m[i] && secret[i];
        }
        assert!(!dot, "measured pattern must be orthogonal to the mask");
    }
}

#[test]
fn simon_helpers_behave_pointwise() {
    let x = vec![true, false, true];
    let y = vec![true, true, false];
    assert_eq!(xor(&x, &y), vec![false, true, true]);
    assert_eq!(not(&x), vec![false, true, false]);
    assert_eq!(shift(&x, 1), vec![true, true, false]);
    assert_eq!(shift(&x, 3), x);
}

#[test]
fn teleportation_moves_a_definite_state() {
    // Teleport |1>: the destination must always measure 1.
    for seed in 0..20u64 {
        let mut simulation = QuantumSimulation::new(3, seed);
        simulation.pauli_x(0);
        teleport(&mut simulation, 0, 1, 2);
        let outcome = simulation.measure(vec![2]);
        assert!(outcome[0]);
    }
}

#[test]
fn superdense_coding_round_trips_both_bits() {
    for &second_bit in &[false, true] {
        for &first_bit in &[false, true] {
            let (r0, r1) = send_and_receive(first_bit, second_bit);
            assert_eq!(r0, first_bit);
            assert_eq!(r1, second_bit);
            assert_eq!(denote(r0, r1), denote(first_bit, second_bit));
        }
    }
    assert_eq!(denote(true, false), "01");
    assert_eq!(denote(false, true), "10");
}
