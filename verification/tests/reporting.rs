//! The tallying and notation helpers.

use quantum_simulation::amplitude::Amp;
use quantum_simulation::state_vector_init::{
    excited_state_qubit, get_amplitudes, get_ground_state_amplitudes, ground_state_qubit,
};
use quantum_simulation::evaluation::{measurement_string, measurement_wildcard, tally_measurements};
use quantum_simulation::gate::{cnot, cz, pauli_x, pauli_z, swap};

#[test]
fn measurement_string_prints_highest_qubit_first() {
    assert_eq!(measurement_string(vec![true, false, false]), "|001>");
    assert_eq!(measurement_string(vec![false, true]), "|10>");
    assert_eq!(measurement_string(vec![]), "|>");
}

#[test]
fn measurement_wildcard_marks_one_qubit() {
    assert_eq!(measurement_wildcard(4, 1), "|**1*>");
    assert_eq!(measurement_wildcard(1, 0), "|1>");
}

#[test]
fn tally_counts_outcomes_and_marginals() {
    let measurements = vec![
        vec![true, false],   // index 1
        vec![false, true],   // index 2
        vec![true, false],   // index 1
        vec![true, true],    // index 3
    ];
    let (counts, one_counts) = tally_measurements(&measurements, 2);
    assert_eq!(counts, vec![0, 2, 1, 1]);
    assert_eq!(one_counts, vec![3, 2]);
}

#[test]
fn gate_library_tuple_functions_match_their_matrices() {
    let zero = Amp { a: 0, b: 0, c: 0, d: 0 };
    let one = Amp { a: 1, b: 0, c: 0, d: 0 };
    let two = Amp { a: 2, b: 0, c: 0, d: 0 };
    let three = Amp { a: 3, b: 0, c: 0, d: 0 };

    assert_eq!(pauli_x(one, zero), (zero, one));
    let (z0, z1) = pauli_z(one, one);
    assert_eq!((z0, z1.a), (one, -1));
    assert_eq!(cnot(zero, one, two, three), (zero, three, two, one));
    assert_eq!(swap(zero, one, two, three), (zero, two, one, three));
    let (c0, c1, c2, c3) = cz(zero, one, two, three);
    assert_eq!((c0, c1, c2, c3.a), (zero, one, two, -3));
}

#[test]
fn tensor_product_of_basis_qubits_is_a_basis_vector() {
    // |1> (x) |0> (x) |1>: index with bits 0 and 2 set, which is 5.
    let qubits = vec![excited_state_qubit(), ground_state_qubit(), excited_state_qubit()];
    let amps = get_amplitudes(qubits);
    assert_eq!(amps.len(), 8);
    for (i, z) in amps.iter().enumerate() {
        let expect: i64 = if i == 5 { 1 } else { 0 };
        assert_eq!((z.a, z.b, z.c, z.d), (expect, 0, 0, 0));
    }
}

#[test]
fn tensor_product_of_superpositions_is_uniform() {
    // Two qubits in (|0> + |1>) each: all four amplitudes equal.
    let plus = (Amp { a: 1, b: 0, c: 0, d: 0 }, Amp { a: 1, b: 0, c: 0, d: 0 });
    let amps = get_amplitudes(vec![plus, plus]);
    assert_eq!(amps.len(), 4);
    for z in amps.iter() {
        assert_eq!((z.a, z.b, z.c, z.d), (1, 0, 0, 0));
    }
}

#[test]
fn ground_state_amplitudes_are_the_first_basis_vector() {
    let amps = get_ground_state_amplitudes(2);
    assert_eq!(amps.len(), 4);
    assert_eq!(amps[0], Amp { a: 1, b: 0, c: 0, d: 0 });
    for z in &amps[1..] {
        assert_eq!(*z, Amp { a: 0, b: 0, c: 0, d: 0 });
    }
}
