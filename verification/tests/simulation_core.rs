//! End-to-end checks of the state-vector engine: construction, gates,
//! measurement determinism, and cross-consistency of partial and full
//! measurement.

use quantum_simulation::amplitude::Amp;
use quantum_simulation::simulation::Simulation;
use quantum_simulation::state_vector_simulation::QuantumSimulation;

fn run_program1(simulation: &mut QuantumSimulation) {
    simulation.reset();
    simulation.pauli_x(0);
    simulation.pauli_y(1);
    simulation.pauli_z(2);
    simulation.cz(0, 1);
    simulation.toffoli(0, 1, 2);
    simulation.s(0);
    simulation.swap(1, 2);
    simulation.t(1);
    simulation.cnot(0, 1);
    simulation.hadamard(1);
}

#[test]
fn measurements_are_consistent() {
    let qubit_count: usize = 3;
    let run_count: usize = 100;

    let mut simulation012 = QuantumSimulation::new(qubit_count, 0u64);
    let mut simulation1 = QuantumSimulation::new(qubit_count, 0u64);
    let mut simulation02 = QuantumSimulation::new(qubit_count, 0u64);
    for _ in 0..run_count {
        run_program1(&mut simulation012);
        run_program1(&mut simulation1);
        run_program1(&mut simulation02);
        let measurements012 = simulation012.measure_all();
        let measurements1 = simulation1.measure(vec![1]);
        let measurements02 = simulation02.measure(vec![0, 2]);
        assert_eq!(measurements012[1], measurements1[0]);
        assert_eq!(measurements012[0], measurements02[0]);
        assert_eq!(measurements012[2], measurements02[1]);
    }
}

#[test]
fn ground_state_measures_all_false_for_every_seed() {
    for seed in 0..50u64 {
        for n in 1..6usize {
            let mut simulation = QuantumSimulation::new(n, seed);
            let outcome = simulation.measure_all();
            assert_eq!(outcome.len(), n);
            assert!(outcome.iter().all(|b| !b));
        }
    }
}

#[test]
fn reset_restores_ground_state() {
    let mut simulation = QuantumSimulation::new(2, 7u64);
    simulation.pauli_x(0);
    simulation.hadamard(1);
    simulation.reset();
    let outcome = simulation.measure_all();
    assert_eq!(outcome, vec![false, false]);
}

#[test]
fn pauli_x_flips_one_qubit() {
    let mut simulation = QuantumSimulation::new(3, 1u64);
    simulation.pauli_x(1);
    let outcome = simulation.measure_all();
    assert_eq!(outcome, vec![false, true, false]);
}

#[test]
fn pauli_x_twice_is_identity_bit_for_bit() {
    let mut simulation = QuantumSimulation::new(3, 0u64);
    simulation.hadamard(0);
    simulation.t(0);
    simulation.cnot(0, 2);
    let before: Vec<Amp> = simulation.amplitudes.clone();
    simulation.pauli_x(1);
    simulation.pauli_x(1);
    assert_eq!(simulation.amplitudes, before);
}

#[test]
fn pauli_z_twice_is_identity_bit_for_bit() {
    let mut simulation = QuantumSimulation::new(2, 0u64);
    simulation.hadamard(0);
    simulation.hadamard(1);
    let before: Vec<Amp> = simulation.amplitudes.clone();
    simulation.pauli_z(0);
    simulation.pauli_z(0);
    assert_eq!(simulation.amplitudes, before);
}

#[test]
fn swap_twice_is_identity_bit_for_bit() {
    let mut simulation = QuantumSimulation::new(2, 0u64);
    simulation.hadamard(0);
    simulation.t(0);
    let before: Vec<Amp> = simulation.amplitudes.clone();
    simulation.swap(0, 1);
    simulation.swap(0, 1);
    assert_eq!(simulation.amplitudes, before);
}

#[test]
fn hadamard_twice_doubles_every_amplitude() {
    let mut simulation = QuantumSimulation::new(2, 0u64);
    simulation.hadamard(0);
    simulation.t(0);
    let before: Vec<Amp> = simulation.amplitudes.clone();
    simulation.hadamard(1);
    simulation.hadamard(1);
    for (after, orig) in simulation.amplitudes.iter().zip(before.iter()) {
        assert_eq!(after.a, 2 * orig.a);
        assert_eq!(after.b, 2 * orig.b);
        assert_eq!(after.c, 2 * orig.c);
        assert_eq!(after.d, 2 * orig.d);
    }
}

#[test]
fn norm_accounting_is_exact_after_gates() {
    let mut simulation = QuantumSimulation::new(3, 0u64);
    run_program1(&mut simulation);
    let mut sum_p: i64 = 0;
    let mut sum_q: i64 = 0;
    for z in simulation.amplitudes.iter() {
        sum_p += z.a * z.a + z.b * z.b + z.c * z.c + z.d * z.d;
        sum_q += z.a * z.b + z.b * z.c + z.c * z.d - z.d * z.a;
    }
    assert_eq!(sum_p, simulation.norm_p_total);
    assert_eq!(sum_q, simulation.norm_q_total);
    assert!(sum_p >= 1);
}

#[test]
fn bell_state_measures_equal_bits() {
    let mut simulation = QuantumSimulation::new(2, 42u64);
    for _ in 0..200 {
        simulation.reset();
        quantum_simulation::bell_state::entangle_into_bell_state(&mut simulation, 0, 1);
        let outcome = simulation.measure_all();
        assert_eq!(outcome[0], outcome[1]);
    }
}

#[test]
fn ghz_state_measures_equal_bits() {
    let mut simulation = QuantumSimulation::new(3, 9u64);
    for _ in 0..100 {
        simulation.reset();
        quantum_simulation::ghz_state::entangle_into_ghz_state(&mut simulation, 0, 1, 2);
        let outcome = simulation.measure_all();
        assert_eq!(outcome[0], outcome[1]);
        assert_eq!(outcome[1], outcome[2]);
    }
}

#[test]
fn hadamard_measurement_is_statistically_fair() {
    // One qubit in |+>: the fraction of 1-results over many cycles must
    // sit within 2% of one half.
    let trials = 10_000usize;
    let mut ones = 0usize;
    let mut simulation = QuantumSimulation::new(1, 123u64);
    for _ in 0..trials {
        simulation.reset();
        simulation.hadamard(0);
        let outcome = simulation.measure_all();
        if outcome[0] {
            ones += 1;
        }
    }
    let fraction = ones as f64 / trials as f64;
    assert!((fraction - 0.5).abs() < 0.02, "fraction was {}", fraction);
}

#[test]
fn toffoli_truth_table() {
    // (1,1,0) -> (1,1,1)
    let mut simulation = QuantumSimulation::new(3, 5u64);
    simulation.pauli_x(0);
    simulation.pauli_x(1);
    simulation.toffoli(0, 1, 2);
    let outcome = simulation.measure_all();
    assert_eq!(outcome, vec![true, true, true]);

    // (1,0,0) -> (1,0,0)
    let mut simulation2 = QuantumSimulation::new(3, 5u64);
    simulation2.pauli_x(0);
    simulation2.toffoli(0, 1, 2);
    let outcome2 = simulation2.measure_all();
    assert_eq!(outcome2, vec![true, false, false]);
}

#[test]
fn partial_measurement_zeroes_mismatched_amplitudes() {
    let mut simulation = QuantumSimulation::new(2, 3u64);
    quantum_simulation::bell_state::entangle_into_bell_state(&mut simulation, 0, 1);
    let outcome = simulation.measure(vec![0]);
    // After measuring qubit 0 of a Bell pair, the other qubit is fixed.
    let outcome2 = simulation.measure(vec![1]);
    assert_eq!(outcome[0], outcome2[0]);
}

#[test]
fn s_twice_equals_pauli_z() {
    let mut with_s = QuantumSimulation::new(2, 0u64);
    with_s.hadamard(0);
    with_s.t(1);
    with_s.s(0);
    with_s.s(0);
    let mut with_z = QuantumSimulation::new(2, 0u64);
    with_z.hadamard(0);
    with_z.t(1);
    with_z.pauli_z(0);
    assert_eq!(with_s.amplitudes, with_z.amplitudes);
}

#[test]
fn t_twice_equals_s() {
    let mut with_t = QuantumSimulation::new(1, 0u64);
    with_t.hadamard(0);
    with_t.t(0);
    with_t.t(0);
    let mut with_s = QuantumSimulation::new(1, 0u64);
    with_s.hadamard(0);
    with_s.s(0);
    assert_eq!(with_t.amplitudes, with_s.amplitudes);
}

#[test]
fn pauli_y_twice_is_identity() {
    let mut simulation = QuantumSimulation::new(2, 0u64);
    simulation.hadamard(0);
    simulation.t(0);
    simulation.cnot(0, 1);
    let before = simulation.amplitudes.clone();
    simulation.pauli_y(1);
    simulation.pauli_y(1);
    assert_eq!(simulation.amplitudes, before);
}

#[test]
fn cz_is_symmetric_in_its_qubits() {
    let mut one_way = QuantumSimulation::new(2, 0u64);
    one_way.hadamard(0);
    one_way.hadamard(1);
    one_way.cz(0, 1);
    let mut other_way = QuantumSimulation::new(2, 0u64);
    other_way.hadamard(0);
    other_way.hadamard(1);
    other_way.cz(1, 0);
    assert_eq!(one_way.amplitudes, other_way.amplitudes);
}

#[test]
fn largest_register_starts_in_the_ground_state() {
    let mut simulation = QuantumSimulation::new(20, 11u64);
    let outcome = simulation.measure_all();
    assert_eq!(outcome.len(), 20);
    assert!(outcome.iter().all(|b| !b));
}

#[test]
fn measuring_a_qubit_twice_in_one_call_is_consistent() {
    let mut simulation = QuantumSimulation::new(2, 8u64);
    simulation.hadamard(0);
    let outcome = simulation.measure(vec![0, 0]);
    assert_eq!(outcome[0], outcome[1]);
}
