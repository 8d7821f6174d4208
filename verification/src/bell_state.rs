//! Bell-state preparation.
//!
//! A Hadamard on one qubit followed by a CNOT onto the other entangles the
//! pair into `(|00> + |11>)/sqrt(2)`, the maximally entangled two-qubit
//! state.

use crate::gate::TwoQubitGate;
use crate::state_vector_simulation::{
    hadamard_transform, norm_cap, two_qubit_transform, QuantumSimulation,
};
use vstd::prelude::*;

verus! {

/// Entangle two qubits into a Bell state, assuming they start in `|00>`.
pub fn entangle_into_bell_state(simulation: &mut QuantumSimulation, qubit0: usize, qubit1: usize)
    requires
        old(simulation).wf(),
        qubit0 < old(simulation).qubit_count,
        qubit1 < old(simulation).qubit_count,
        qubit0 != qubit1,
        2 * old(simulation).norm_p_total <= norm_cap(),
    ensures
        final(simulation).wf(),
        final(simulation).qubit_count == old(simulation).qubit_count,
        final(simulation).norm_p_total == 2 * old(simulation).norm_p_total,
        final(simulation).rng == old(simulation).rng,
        final(simulation).amplitudes@ == two_qubit_transform(
            TwoQubitGate::Cnot,
            hadamard_transform(old(simulation).amplitudes@, qubit0 as nat),
            qubit0 as nat,
            qubit1 as nat,
        ),
{
    simulation.hadamard(qubit0);
    simulation.cnot(qubit0, qubit1);
}

} // verus!
