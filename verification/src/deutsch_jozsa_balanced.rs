//! Deutsch-Jozsa algorithm: constant or balanced?
//!
//! For a boolean function promised to be constant or balanced, one oracle
//! call between two Hadamard layers answers the question: the input
//! register measures all-zero exactly when the function is constant.

use crate::encoding::{lemma_pow2_double, lemma_pow2_le_cap};
use crate::oracle::distinct_qubits;
use crate::simulation::Simulation;
use crate::state_vector_simulation::QuantumSimulation;
use vstd::arithmetic::power2::pow2;
use vstd::prelude::*;

verus! {

/// One run of the Deutsch-Jozsa circuit: prepare the `0 - 1` superposition on the answer
/// qubit and `|+>` on every input, call the oracle, undo the input
/// Hadamards, and measure the inputs.
pub fn apply_deutsch_jozsa_algo<S: Simulation, F: Fn(Vec<bool>) -> bool>(
    simulation: &mut S,
    input_qubits: &Vec<usize>,
    answer_qubit: usize,
    f: &F,
) -> (r: Vec<bool>)
    requires
        old(simulation).inv(),
        old(simulation).scale_p() == 1,
        distinct_qubits(input_qubits@, old(simulation).qubits() as int),
        answer_qubit < old(simulation).qubits(),
        forall|j: int| 0 <= j < input_qubits@.len() ==> #[trigger] input_qubits@[j] != answer_qubit,
        input_qubits@.len() <= 14,
        forall|x: Vec<bool>|
            x@.len() == input_qubits@.len() ==> #[trigger] call_requires(*f, (x,)),
    ensures
        final(simulation).inv(),
        final(simulation).qubits() == old(simulation).qubits(),
        r@.len() == input_qubits@.len(),
{
    let ghost n_in = input_qubits@.len();
    simulation.pauli_x(answer_qubit);
    proof {
        lemma_pow2_le_cap(1);
        vstd::arithmetic::power2::lemma2_to64();
    }
    simulation.hadamard(answer_qubit);
    let count = input_qubits.len();
    let mut i: usize = 0;
    while i < count
        invariant
            i <= count,
            count == n_in,
            n_in <= 14,
            simulation.inv(),
            simulation.qubits() == old(simulation).qubits(),
            distinct_qubits(input_qubits@, simulation.qubits() as int),
            n_in == input_qubits@.len(),
            simulation.scale_p() == pow2((1 + i) as nat),
        decreases count - i,
    {
        proof {
            lemma_pow2_double((1 + i) as nat);
            lemma_pow2_le_cap((2 + i) as nat);
        }
        simulation.hadamard(input_qubits[i]);
        i = i + 1;
    }
    let mut answer_list: Vec<usize> = Vec::new();
    answer_list.push(answer_qubit);
    let g = |x: Vec<bool>| -> (rr: Vec<bool>)
        requires
            x@.len() == n_in,
            forall|xv: Vec<bool>| xv@.len() == n_in ==> #[trigger] call_requires(*f, (xv,)),
        ensures
            rr@.len() == 1,
        {
            let mut v: Vec<bool> = Vec::new();
            v.push(f(x));
            v
        };
    simulation.apply_u_f(g, input_qubits, &answer_list);
    let mut i2: usize = 0;
    while i2 < count
        invariant
            i2 <= count,
            count == n_in,
            n_in <= 14,
            simulation.inv(),
            simulation.qubits() == old(simulation).qubits(),
            distinct_qubits(input_qubits@, simulation.qubits() as int),
            n_in == input_qubits@.len(),
            simulation.scale_p() == pow2((1 + count + i2) as nat),
        decreases count - i2,
    {
        proof {
            lemma_pow2_double((1 + count + i2) as nat);
            lemma_pow2_le_cap((2 + count + i2) as nat);
        }
        simulation.hadamard(input_qubits[i2]);
        i2 = i2 + 1;
    }
    let mut to_measure: Vec<usize> = Vec::new();
    let mut i3: usize = 0;
    while i3 < count
        invariant
            i3 <= count,
            count == input_qubits@.len(),
            simulation.inv(),
            simulation.qubits() == old(simulation).qubits(),
            distinct_qubits(input_qubits@, simulation.qubits() as int),
            to_measure@ == input_qubits@.take(i3 as int),
        decreases count - i3,
    {
        to_measure.push(input_qubits[i3]);
        proof {
            assert(to_measure@ =~= input_qubits@.take(i3 as int + 1));
        }
        i3 = i3 + 1;
    }
    proof {
        assert(to_measure@ =~= input_qubits@);
    }
    simulation.measure(to_measure)
}

/// An outcome list with every bit 0.
pub open spec fn all_false(m: Seq<bool>) -> bool {
    forall|i: int| 0 <= i < m.len() ==> !m[i]
}

/// How many outcome lists in `ms` are all-false.
pub open spec fn count_all_false(ms: Seq<Seq<bool>>) -> int
    decreases ms.len(),
{
    if ms.len() == 0 {
        0
    } else {
        count_all_false(ms.drop_last()) + if all_false(ms.last()) {
            1int
        } else {
            0int
        }
    }
}

/// All-false outcome: the measured register says "constant".
pub fn is_constant(measurements: &Vec<bool>) -> (r: bool)
    ensures
        r == all_false(measurements@),
{
    let mut i: usize = 0;
    while i < measurements.len()
        invariant
            i <= measurements@.len(),
            forall|t: int| 0 <= t < i ==> !measurements@[t],
        decreases measurements@.len() - i,
    {
        if measurements[i] {
            return false;
        }
        i = i + 1;
    }
    true
}

/// Run the Deutsch-Jozsa circuit `run_count` times on a fresh simulation
/// of `n_inputs + 1` qubits; return the collected measurements and how
/// many of them came out all-false.
pub fn run_deutsch_jozsa_algo<F: Fn(Vec<bool>) -> bool>(
    f: &F,
    n_inputs: usize,
    run_count: usize,
) -> (r: (Vec<Vec<bool>>, usize))
    requires
        1 <= n_inputs <= 14,
        forall|x: Vec<bool>| x@.len() == n_inputs ==> #[trigger] call_requires(*f, (x,)),
    ensures
        r.0@.len() == run_count,
        forall|i: int| 0 <= i < r.0@.len() ==> (#[trigger] r.0@[i])@.len() == n_inputs,
        r.1 == count_all_false(r.0@.map_values(|m: Vec<bool>| m@)),
        r.1 <= run_count,
{
    let mut simulation = QuantumSimulation::new(n_inputs + 1, 0u64);
    let mut input_qubits: Vec<usize> = Vec::new();
    let mut j: usize = 0;
    while j < n_inputs
        invariant
            j <= n_inputs,
            input_qubits@.len() == j,
            forall|t: int| 0 <= t < j ==> #[trigger] input_qubits@[t] == t,
        decreases n_inputs - j,
    {
        input_qubits.push(j);
        j = j + 1;
    }
    let mut measurements: Vec<Vec<bool>> = Vec::new();
    let mut constant_count: usize = 0;
    let mut i: usize = 0;
    while i < run_count
        invariant
            i <= run_count,
            n_inputs <= 14,
            simulation.qubit_count == n_inputs + 1,
            input_qubits@.len() == n_inputs,
            forall|t: int| 0 <= t < n_inputs ==> #[trigger] input_qubits@[t] == t,
            measurements@.len() == i,
            constant_count <= i,
            constant_count == count_all_false(measurements@.map_values(|m: Vec<bool>| m@)),
            forall|t: int| 0 <= t < i ==> (#[trigger] measurements@[t])@.len() == n_inputs,
            forall|x: Vec<bool>| x@.len() == n_inputs ==> #[trigger] call_requires(*f, (x,)),
        decreases run_count - i,
    {
        simulation.reset();
        let measured_states = apply_deutsch_jozsa_algo(&mut simulation, &input_qubits, n_inputs, f);
        let ghost before = measurements@.map_values(|m: Vec<bool>| m@);
        let row_is_constant = is_constant(&measured_states);
        if row_is_constant {
            constant_count = constant_count + 1;
        }
        measurements.push(measured_states);
        proof {
            let after = measurements@.map_values(|m: Vec<bool>| m@);
            assert(after.drop_last() =~= before);
            assert(after.last() == measured_states@);
        }
        i = i + 1;
    }
    (measurements, constant_count)
}

/// The constant-false function.
pub fn false_function(_x: Vec<bool>) -> (r: bool)
    ensures
        r == false,
{
    false
}

/// The constant-true function.
pub fn true_function(_x: Vec<bool>) -> (r: bool)
    ensures
        r == true,
{
    true
}

/// Projection onto the first input.
pub fn projection_function(x: Vec<bool>) -> (r: bool)
    requires
        x@.len() >= 1,
    ensures
        r == x@[0],
{
    x[0]
}

/// Parity of four inputs: balanced.
pub fn xor_function(x: Vec<bool>) -> (r: bool)
    requires
        x@.len() == 4,
    ensures
        r == (x@[0] ^ x@[1] ^ x@[2] ^ x@[3]),
{
    x[0] ^ x[1] ^ x[2] ^ x[3]
}

/// Conjunction of four inputs: neither constant nor balanced.
pub fn and_function(x: Vec<bool>) -> (r: bool)
    requires
        x@.len() == 4,
    ensures
        r == (x@[0] && x@[1] && x@[2] && x@[3]),
{
    x[0] && x[1] && x[2] && x[3]
}

} // verus!
