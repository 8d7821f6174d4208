//! Bernstein-Vazirani algorithm.
//!
//! For `f(x) = s . x` (the XOR of the inputs selected by a secret mask
//! `s`), a single oracle call between two Hadamard layers leaves the
//! whole mask in the input register.

use crate::encoding::{lemma_pow2_double, lemma_pow2_le_cap};
use crate::oracle::distinct_qubits;
use crate::simulation::Simulation;
use crate::state_vector_simulation::QuantumSimulation;
use vstd::arithmetic::power2::pow2;
use vstd::prelude::*;

verus! {

/// The XOR of the entries of `input_string` selected by `secret_string`.
pub open spec fn dot_spec(a: Seq<bool>, b: Seq<bool>) -> bool
    decreases a.len(),
{
    if a.len() == 0 {
        false
    } else {
        dot_spec(a.drop_last(), b.drop_last()) ^ (a.last() && b.last())
    }
}

/// The boolean dot product of two equal-length bit strings.
pub fn dot_product(input_string: &Vec<bool>, secret_string: &Vec<bool>) -> (r: bool)
    requires
        input_string@.len() == secret_string@.len(),
    ensures
        r == dot_spec(input_string@, secret_string@),
{
    let mut product = false;
    let mut i: usize = 0;
    while i < input_string.len()
        invariant
            i <= input_string@.len(),
            input_string@.len() == secret_string@.len(),
            product == dot_spec(input_string@.take(i as int), secret_string@.take(i as int)),
        decreases input_string@.len() - i,
    {
        proof {
            assert(input_string@.take(i as int + 1).drop_last() =~= input_string@.take(i as int));
            assert(secret_string@.take(i as int + 1).drop_last() =~= secret_string@.take(
                i as int,
            ));
        }
        product = product ^ (input_string[i] && secret_string[i]);
        i = i + 1;
    }
    proof {
        assert(input_string@.take(input_string@.len() as int) =~= input_string@);
        assert(secret_string@.take(secret_string@.len() as int) =~= secret_string@);
    }
    product
}

/// One run of the Bernstein-Vazirani circuit, measuring the input register.
pub fn apply_bernstein_vazirani_algo<S: Simulation, F: Fn(Vec<bool>) -> bool>(
    simulation: &mut S,
    input_qubits: &Vec<usize>,
    answer_qubit: usize,
    f: &F,
) -> (r: Vec<bool>)
    requires
        old(simulation).inv(),
        old(simulation).scale_p() == 1,
        distinct_qubits(input_qubits@, old(simulation).qubits() as int),
        answer_qubit < old(simulation).qubits(),
        forall|j: int| 0 <= j < input_qubits@.len() ==> #[trigger] input_qubits@[j] != answer_qubit,
        input_qubits@.len() <= 14,
        forall|x: Vec<bool>|
            x@.len() == input_qubits@.len() ==> #[trigger] call_requires(*f, (x,)),
    ensures
        final(simulation).inv(),
        final(simulation).qubits() == old(simulation).qubits(),
        r@.len() == input_qubits@.len(),
{
    let ghost n_in = input_qubits@.len();
    simulation.pauli_x(answer_qubit);
    proof {
        lemma_pow2_le_cap(1);
        vstd::arithmetic::power2::lemma2_to64();
    }
    simulation.hadamard(answer_qubit);
    let count = input_qubits.len();
    let mut i: usize = 0;
    while i < count
        invariant
            i <= count,
            count == n_in,
            n_in <= 14,
            simulation.inv(),
            simulation.qubits() == old(simulation).qubits(),
            distinct_qubits(input_qubits@, simulation.qubits() as int),
            n_in == input_qubits@.len(),
            simulation.scale_p() == pow2((1 + i) as nat),
        decreases count - i,
    {
        proof {
            lemma_pow2_double((1 + i) as nat);
            lemma_pow2_le_cap((2 + i) as nat);
        }
        simulation.hadamard(input_qubits[i]);
        i = i + 1;
    }
    let mut answer_list: Vec<usize> = Vec::new();
    answer_list.push(answer_qubit);
    let g = |x: Vec<bool>| -> (rr: Vec<bool>)
        requires
            x@.len() == n_in,
            forall|xv: Vec<bool>| xv@.len() == n_in ==> #[trigger] call_requires(*f, (xv,)),
        ensures
            rr@.len() == 1,
        {
            let mut v: Vec<bool> = Vec::new();
            v.push(f(x));
            v
        };
    simulation.apply_u_f(g, input_qubits, &answer_list);
    let mut i2: usize = 0;
    while i2 < count
        invariant
            i2 <= count,
            count == n_in,
            n_in <= 14,
            simulation.inv(),
            simulation.qubits() == old(simulation).qubits(),
            distinct_qubits(input_qubits@, simulation.qubits() as int),
            n_in == input_qubits@.len(),
            simulation.scale_p() == pow2((1 + count + i2) as nat),
        decreases count - i2,
    {
        proof {
            lemma_pow2_double((1 + count + i2) as nat);
            lemma_pow2_le_cap((2 + count + i2) as nat);
        }
        simulation.hadamard(input_qubits[i2]);
        i2 = i2 + 1;
    }
    let mut to_measure: Vec<usize> = Vec::new();
    let mut i3: usize = 0;
    while i3 < count
        invariant
            i3 <= count,
            count == input_qubits@.len(),
            simulation.inv(),
            simulation.qubits() == old(simulation).qubits(),
            distinct_qubits(input_qubits@, simulation.qubits() as int),
            to_measure@ == input_qubits@.take(i3 as int),
        decreases count - i3,
    {
        to_measure.push(input_qubits[i3]);
        proof {
            assert(to_measure@ =~= input_qubits@.take(i3 as int + 1));
        }
        i3 = i3 + 1;
    }
    proof {
        assert(to_measure@ =~= input_qubits@);
    }
    simulation.measure(to_measure)
}

/// Run the circuit `run_count` times on a fresh simulation of
/// `n_inputs + 1` qubits, collecting the measured masks.
pub fn run_bernstein_vazirani_algo<F: Fn(Vec<bool>) -> bool>(
    f: &F,
    n_inputs: usize,
    run_count: usize,
) -> (r: Vec<Vec<bool>>)
    requires
        1 <= n_inputs <= 14,
        forall|x: Vec<bool>| x@.len() == n_inputs ==> #[trigger] call_requires(*f, (x,)),
    ensures
        r@.len() == run_count,
        forall|i: int| 0 <= i < r@.len() ==> (#[trigger] r@[i])@.len() == n_inputs,
{
    let mut simulation = QuantumSimulation::new(n_inputs + 1, 0u64);
    let mut input_qubits: Vec<usize> = Vec::new();
    let mut j: usize = 0;
    while j < n_inputs
        invariant
            j <= n_inputs,
            input_qubits@.len() == j,
            forall|t: int| 0 <= t < j ==> #[trigger] input_qubits@[t] == t,
        decreases n_inputs - j,
    {
        input_qubits.push(j);
        j = j + 1;
    }
    let mut measurements: Vec<Vec<bool>> = Vec::new();
    let mut i: usize = 0;
    while i < run_count
        invariant
            i <= run_count,
            n_inputs <= 14,
            simulation.qubit_count == n_inputs + 1,
            input_qubits@.len() == n_inputs,
            forall|t: int| 0 <= t < n_inputs ==> #[trigger] input_qubits@[t] == t,
            measurements@.len() == i,
            forall|t: int| 0 <= t < i ==> (#[trigger] measurements@[t])@.len() == n_inputs,
            forall|x: Vec<bool>| x@.len() == n_inputs ==> #[trigger] call_requires(*f, (x,)),
        decreases run_count - i,
    {
        simulation.reset();
        let measured_states = apply_bernstein_vazirani_algo(
            &mut simulation,
            &input_qubits,
            n_inputs,
            f,
        );
        measurements.push(measured_states);
        i = i + 1;
    }
    measurements
}

} // verus!
