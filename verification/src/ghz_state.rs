//! GHZ-state preparation.
//!
//! A Hadamard and two chained CNOTs entangle three qubits into
//! `(|000> + |111>)/sqrt(2)`.

use crate::gate::TwoQubitGate;
use crate::state_vector_simulation::{
    hadamard_transform, norm_cap, two_qubit_transform, QuantumSimulation,
};
use vstd::prelude::*;

verus! {

/// Entangle three qubits into a GHZ state, assuming they start in `|000>`.
pub fn entangle_into_ghz_state(
    simulation: &mut QuantumSimulation,
    qubit0: usize,
    qubit1: usize,
    qubit2: usize,
)
    requires
        old(simulation).wf(),
        qubit0 < old(simulation).qubit_count,
        qubit1 < old(simulation).qubit_count,
        qubit2 < old(simulation).qubit_count,
        qubit0 != qubit1,
        qubit1 != qubit2,
        2 * old(simulation).norm_p_total <= norm_cap(),
    ensures
        final(simulation).wf(),
        final(simulation).qubit_count == old(simulation).qubit_count,
        final(simulation).norm_p_total == 2 * old(simulation).norm_p_total,
        final(simulation).rng == old(simulation).rng,
        final(simulation).amplitudes@ == two_qubit_transform(
            TwoQubitGate::Cnot,
            two_qubit_transform(
                TwoQubitGate::Cnot,
                hadamard_transform(old(simulation).amplitudes@, qubit0 as nat),
                qubit0 as nat,
                qubit1 as nat,
            ),
            qubit1 as nat,
            qubit2 as nat,
        ),
{
    simulation.hadamard(qubit0);
    simulation.cnot(qubit0, qubit1);
    simulation.cnot(qubit1, qubit2);
}

} // verus!
