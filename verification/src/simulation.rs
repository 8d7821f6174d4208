//! The capability surface of a quantum simulation backend.
//!
//! Every backend exposes the same contract: reset to the ground state,
//! the fixed gate set, oracle application, and full or partial measurement.
//! The contract is stated over an abstract view — the backend's exact
//! amplitude vector and its total-squared-magnitude pair — so any
//! implementation of this trait evolves the state identically.

use crate::amplitude::Amp;
use crate::encoding::bit;
use crate::gate::{OneQubitGate, TwoQubitGate};
use crate::measurement::{collapse_seq, draw_scale, is_sample};
use crate::oracle::{disjoint_qubits, distinct_qubits, entry_ok, oracle_transform};
use crate::state_vector_init::basis_seq;
use crate::state_vector_simulation::{
    hadamard_transform, norm_cap, one_qubit_transform, toffoli_transform, two_qubit_transform,
    QuantumSimulation,
};
use rand::rngs::StdRng;
use vstd::arithmetic::power2::pow2;
use vstd::prelude::*;

verus! {

pub trait Simulation: Sized {
    /// The backend's well-formedness invariant.
    spec fn inv(&self) -> bool;

    /// Number of qubits simulated.
    spec fn qubits(&self) -> nat;

    /// The exact amplitude vector, implicitly normalized.
    spec fn state(&self) -> Seq<Amp>;

    /// Integer part of the vector's total squared magnitude.
    spec fn scale_p(&self) -> int;

    /// `sqrt(2)` part of the vector's total squared magnitude.
    spec fn scale_q(&self) -> int;

    /// The backend's seeded random source.  Only the two measurement
    /// operations may advance it; every other operation leaves it intact,
    /// which is what makes deterministic replay of a seed possible.
    spec fn random_source(&self) -> StdRng;

    /// Reinitialize the qubits to the ground state `|0...0>`.
    fn reset(&mut self)
        requires
            1 <= old(self).qubits() <= 20,
        ensures
            final(self).inv(),
            final(self).qubits() == old(self).qubits(),
            final(self).state() == basis_seq(pow2(old(self).qubits()) as int, 0),
            final(self).scale_p() == 1,
            final(self).scale_q() == 0,
            final(self).random_source() == old(self).random_source(),
    ;

    /// Measure all the qubits in the Z-basis, in ascending qubit order.
    fn measure_all(&mut self) -> (r: Vec<bool>)
        requires
            old(self).inv(),
        ensures
            final(self).inv(),
            final(self).qubits() == old(self).qubits(),
            final(self).scale_p() == 1,
            final(self).scale_q() == 0,
            r@.len() == old(self).qubits(),
            exists|u: int, idx: int|
                {
                    &&& 0 <= u < draw_scale()
                    &&& #[trigger] is_sample(old(self).state(), u, idx)
                    &&& forall|j: int| 0 <= j < r@.len() ==> r@[j] == bit(idx, j as nat)
                    &&& final(self).state() == basis_seq(old(self).state().len() as int, idx)
                },
    ;

    /// Measure the selected qubits in the Z-basis, in the caller's order.
    fn measure(&mut self, qubit_numbers: Vec<usize>) -> (r: Vec<bool>)
        requires
            old(self).inv(),
            forall|j: int|
                0 <= j < qubit_numbers@.len() ==> #[trigger] qubit_numbers@[j] < old(
                    self,
                ).qubits(),
        ensures
            final(self).inv(),
            final(self).qubits() == old(self).qubits(),
            r@.len() == qubit_numbers@.len(),
            exists|u: int, idx: int|
                {
                    &&& 0 <= u < draw_scale()
                    &&& #[trigger] is_sample(old(self).state(), u, idx)
                    &&& forall|j: int|
                        0 <= j < r@.len() ==> r@[j] == bit(idx, qubit_numbers@[j] as nat)
                    &&& final(self).state() == collapse_seq(
                        old(self).state(),
                        qubit_numbers@,
                        idx,
                    )
                },
    ;

    /// Pauli-X on one qubit.
    fn pauli_x(&mut self, qubit_number: usize)
        requires
            old(self).inv(),
            qubit_number < old(self).qubits(),
        ensures
            final(self).inv(),
            final(self).qubits() == old(self).qubits(),
            final(self).scale_p() == old(self).scale_p(),
            final(self).scale_q() == old(self).scale_q(),
            final(self).random_source() == old(self).random_source(),
            final(self).state() == one_qubit_transform(
                OneQubitGate::PauliX,
                old(self).state(),
                qubit_number as nat,
            ),
    ;

    /// Pauli-Y on one qubit.
    fn pauli_y(&mut self, qubit_number: usize)
        requires
            old(self).inv(),
            qubit_number < old(self).qubits(),
        ensures
            final(self).inv(),
            final(self).qubits() == old(self).qubits(),
            final(self).scale_p() == old(self).scale_p(),
            final(self).scale_q() == old(self).scale_q(),
            final(self).random_source() == old(self).random_source(),
            final(self).state() == one_qubit_transform(
                OneQubitGate::PauliY,
                old(self).state(),
                qubit_number as nat,
            ),
    ;

    /// Pauli-Z on one qubit.
    fn pauli_z(&mut self, qubit_number: usize)
        requires
            old(self).inv(),
            qubit_number < old(self).qubits(),
        ensures
            final(self).inv(),
            final(self).qubits() == old(self).qubits(),
            final(self).scale_p() == old(self).scale_p(),
            final(self).scale_q() == old(self).scale_q(),
            final(self).random_source() == old(self).random_source(),
            final(self).state() == one_qubit_transform(
                OneQubitGate::PauliZ,
                old(self).state(),
                qubit_number as nat,
            ),
    ;

    /// Hadamard on one qubit.  The stored vector absorbs this gate's
    /// `1/sqrt(2)` into the implicit normalization, so the scale doubles;
    /// the caller keeps it under the cap.
    fn hadamard(&mut self, qubit_number: usize)
        requires
            old(self).inv(),
            qubit_number < old(self).qubits(),
            2 * old(self).scale_p() <= norm_cap(),
        ensures
            final(self).inv(),
            final(self).qubits() == old(self).qubits(),
            final(self).scale_p() == 2 * old(self).scale_p(),
            final(self).scale_q() == 2 * old(self).scale_q(),
            final(self).random_source() == old(self).random_source(),
            final(self).state() == hadamard_transform(old(self).state(), qubit_number as nat),
    ;

    /// The S (quarter-turn phase) gate on one qubit.
    fn s(&mut self, qubit_number: usize)
        requires
            old(self).inv(),
            qubit_number < old(self).qubits(),
        ensures
            final(self).inv(),
            final(self).qubits() == old(self).qubits(),
            final(self).scale_p() == old(self).scale_p(),
            final(self).scale_q() == old(self).scale_q(),
            final(self).random_source() == old(self).random_source(),
            final(self).state() == one_qubit_transform(
                OneQubitGate::SGate,
                old(self).state(),
                qubit_number as nat,
            ),
    ;

    /// The T (eighth-turn phase) gate on one qubit.
    fn t(&mut self, qubit_number: usize)
        requires
            old(self).inv(),
            qubit_number < old(self).qubits(),
        ensures
            final(self).inv(),
            final(self).qubits() == old(self).qubits(),
            final(self).scale_p() == old(self).scale_p(),
            final(self).scale_q() == old(self).scale_q(),
            final(self).random_source() == old(self).random_source(),
            final(self).state() == one_qubit_transform(
                OneQubitGate::TGate,
                old(self).state(),
                qubit_number as nat,
            ),
    ;

    /// CNOT: flip the target qubit exactly where the control qubit is 1.
    fn cnot(&mut self, control_qubit_number: usize, target_qubit_number: usize)
        requires
            old(self).inv(),
            control_qubit_number < old(self).qubits(),
            target_qubit_number < old(self).qubits(),
            control_qubit_number != target_qubit_number,
        ensures
            final(self).inv(),
            final(self).qubits() == old(self).qubits(),
            final(self).scale_p() == old(self).scale_p(),
            final(self).scale_q() == old(self).scale_q(),
            final(self).random_source() == old(self).random_source(),
            final(self).state() == two_qubit_transform(
                TwoQubitGate::Cnot,
                old(self).state(),
                control_qubit_number as nat,
                target_qubit_number as nat,
            ),
    ;

    /// CZ: negate the amplitude exactly where both qubits are 1.
    fn cz(&mut self, control_qubit_number: usize, target_qubit_number: usize)
        requires
            old(self).inv(),
            control_qubit_number < old(self).qubits(),
            target_qubit_number < old(self).qubits(),
            control_qubit_number != target_qubit_number,
        ensures
            final(self).inv(),
            final(self).qubits() == old(self).qubits(),
            final(self).scale_p() == old(self).scale_p(),
            final(self).scale_q() == old(self).scale_q(),
            final(self).random_source() == old(self).random_source(),
            final(self).state() == two_qubit_transform(
                TwoQubitGate::Cz,
                old(self).state(),
                control_qubit_number as nat,
                target_qubit_number as nat,
            ),
    ;

    /// SWAP: exchange the two qubits' values.
    fn swap(&mut self, qubit_number0: usize, qubit_number1: usize)
        requires
            old(self).inv(),
            qubit_number0 < old(self).qubits(),
            qubit_number1 < old(self).qubits(),
            qubit_number0 != qubit_number1,
        ensures
            final(self).inv(),
            final(self).qubits() == old(self).qubits(),
            final(self).scale_p() == old(self).scale_p(),
            final(self).scale_q() == old(self).scale_q(),
            final(self).random_source() == old(self).random_source(),
            final(self).state() == two_qubit_transform(
                TwoQubitGate::SwapGate,
                old(self).state(),
                qubit_number0 as nat,
                qubit_number1 as nat,
            ),
    ;

    /// Toffoli: flip the target exactly where both controls are 1.
    fn toffoli(
        &mut self,
        control_qubit_number0: usize,
        control_qubit_number1: usize,
        target_qubit_number: usize,
    )
        requires
            old(self).inv(),
            control_qubit_number0 < old(self).qubits(),
            control_qubit_number1 < old(self).qubits(),
            target_qubit_number < old(self).qubits(),
            control_qubit_number0 != control_qubit_number1,
            control_qubit_number0 != target_qubit_number,
            control_qubit_number1 != target_qubit_number,
        ensures
            final(self).inv(),
            final(self).qubits() == old(self).qubits(),
            final(self).scale_p() == old(self).scale_p(),
            final(self).scale_q() == old(self).scale_q(),
            final(self).random_source() == old(self).random_source(),
            final(self).state() == toffoli_transform(
                old(self).state(),
                control_qubit_number0 as nat,
                control_qubit_number1 as nat,
                target_qubit_number as nat,
            ),
    ;

    /// Apply the XOR-into-answer oracle of the boolean function `f`.
    fn apply_u_f<F: Fn(Vec<bool>) -> Vec<bool>>(
        &mut self,
        f: F,
        input_qubits: &Vec<usize>,
        answer_qubits: &Vec<usize>,
    )
        requires
            old(self).inv(),
            distinct_qubits(input_qubits@, old(self).qubits() as int),
            distinct_qubits(answer_qubits@, old(self).qubits() as int),
            disjoint_qubits(input_qubits@, answer_qubits@),
            input_qubits@.len() <= 20,
            answer_qubits@.len() <= 20,
            forall|x: Vec<bool>|
                x@.len() == input_qubits@.len() ==> #[trigger] call_requires(f, (x,)),
            forall|x: Vec<bool>, y: Vec<bool>|
                #[trigger] call_ensures(f, (x,), y) ==> y@.len() == answer_qubits@.len(),
        ensures
            final(self).inv(),
            final(self).qubits() == old(self).qubits(),
            final(self).scale_p() == old(self).scale_p(),
            final(self).scale_q() == old(self).scale_q(),
            final(self).random_source() == old(self).random_source(),
            exists|tab: Seq<u64>|
                {
                    &&& tab.len() == pow2(input_qubits@.len() as nat)
                    &&& (forall|x: int|
                        0 <= x < tab.len() ==> entry_ok(
                            f,
                            x,
                            #[trigger] tab[x],
                            input_qubits@.len() as int,
                            answer_qubits@.len() as int,
                        ))
                    &&& final(self).state() == oracle_transform(
                        old(self).state(),
                        input_qubits@,
                        answer_qubits@,
                        tab,
                    )
                },
    ;
}

impl Simulation for QuantumSimulation {
    open spec fn inv(&self) -> bool {
        self.wf()
    }

    open spec fn qubits(&self) -> nat {
        self.qubit_count as nat
    }

    open spec fn state(&self) -> Seq<Amp> {
        self.amplitudes@
    }

    open spec fn scale_p(&self) -> int {
        self.norm_p_total as int
    }

    open spec fn scale_q(&self) -> int {
        self.norm_q_total as int
    }

    open spec fn random_source(&self) -> StdRng {
        self.rng
    }

    fn reset(&mut self) {
        QuantumSimulation::reset(self);
    }

    fn measure_all(&mut self) -> (r: Vec<bool>) {
        let ghost orig = old(self).amplitudes@;
        let r = QuantumSimulation::measure_all(self);
        proof {
            let (u, idx) = choose|u: int, idx: int|
                {
                    &&& 0 <= u < crate::measurement::draw_scale()
                    &&& #[trigger] crate::measurement::is_sample(orig, u, idx)
                    &&& forall|j: int| 0 <= j < r@.len() ==> r@[j] == bit(idx, j as nat)
                    &&& self.amplitudes@ == basis_seq(orig.len() as int, idx)
                };
            assert(old(self).state() == old(self).amplitudes@ && self.state()
                == self.amplitudes@);
            assert(0 <= u < crate::measurement::draw_scale()
                && crate::measurement::is_sample(old(self).state(), u, idx) && (forall|j: int|
                0 <= j < r@.len() ==> r@[j] == bit(idx, j as nat)) && self.state() == basis_seq(
                old(self).state().len() as int,
                idx,
            ));
        }
        r
    }

    fn measure(&mut self, qubit_numbers: Vec<usize>) -> (r: Vec<bool>) {
        let ghost orig = old(self).amplitudes@;
        let ghost qs = qubit_numbers@;
        let r = QuantumSimulation::measure(self, qubit_numbers);
        proof {
            let (u, idx) = choose|u: int, idx: int|
                {
                    &&& 0 <= u < crate::measurement::draw_scale()
                    &&& #[trigger] crate::measurement::is_sample(orig, u, idx)
                    &&& forall|j: int| 0 <= j < r@.len() ==> r@[j] == bit(idx, qs[j] as nat)
                    &&& self.amplitudes@ == crate::measurement::collapse_seq(orig, qs, idx)
                };
            assert(old(self).state() == old(self).amplitudes@ && self.state()
                == self.amplitudes@);
            assert(0 <= u < crate::measurement::draw_scale()
                && crate::measurement::is_sample(old(self).state(), u, idx) && (forall|j: int|
                0 <= j < r@.len() ==> r@[j] == bit(idx, qubit_numbers@[j] as nat))
                && self.state() == crate::measurement::collapse_seq(
                old(self).state(),
                qubit_numbers@,
                idx,
            ));
        }
        r
    }

    fn pauli_x(&mut self, qubit_number: usize) {
        QuantumSimulation::pauli_x(self, qubit_number);
    }

    fn pauli_y(&mut self, qubit_number: usize) {
        QuantumSimulation::pauli_y(self, qubit_number);
    }

    fn pauli_z(&mut self, qubit_number: usize) {
        QuantumSimulation::pauli_z(self, qubit_number);
    }

    fn hadamard(&mut self, qubit_number: usize) {
        QuantumSimulation::hadamard(self, qubit_number);
    }

    fn s(&mut self, qubit_number: usize) {
        QuantumSimulation::s(self, qubit_number);
    }

    fn t(&mut self, qubit_number: usize) {
        QuantumSimulation::t(self, qubit_number);
    }

    fn cnot(&mut self, control_qubit_number: usize, target_qubit_number: usize) {
        QuantumSimulation::cnot(self, control_qubit_number, target_qubit_number);
    }

    fn cz(&mut self, control_qubit_number: usize, target_qubit_number: usize) {
        QuantumSimulation::cz(self, control_qubit_number, target_qubit_number);
    }

    fn swap(&mut self, qubit_number0: usize, qubit_number1: usize) {
        QuantumSimulation::swap(self, qubit_number0, qubit_number1);
    }

    fn toffoli(
        &mut self,
        control_qubit_number0: usize,
        control_qubit_number1: usize,
        target_qubit_number: usize,
    ) {
        QuantumSimulation::toffoli(
            self,
            control_qubit_number0,
            control_qubit_number1,
            target_qubit_number,
        );
    }

    fn apply_u_f<F: Fn(Vec<bool>) -> Vec<bool>>(
        &mut self,
        f: F,
        input_qubits: &Vec<usize>,
        answer_qubits: &Vec<usize>,
    ) {
        let ghost orig = old(self).amplitudes@;
        let ghost ins = input_qubits@;
        let ghost outs = answer_qubits@;
        QuantumSimulation::apply_u_f(self, f, input_qubits, answer_qubits);
        proof {
            let tab = choose|tab: Seq<u64>|
                {
                    &&& tab.len() == pow2(ins.len() as nat)
                    &&& (forall|x: int|
                        0 <= x < tab.len() ==> crate::oracle::entry_ok(
                            f,
                            x,
                            #[trigger] tab[x],
                            ins.len() as int,
                            outs.len() as int,
                        ))
                    &&& self.amplitudes@ == crate::oracle::oracle_transform(
                        orig,
                        ins,
                        outs,
                        tab,
                    )
                };
            assert(old(self).state() == old(self).amplitudes@ && self.state()
                == self.amplitudes@);
            assert(tab.len() == pow2(input_qubits@.len() as nat) && (forall|x: int|
                0 <= x < tab.len() ==> crate::oracle::entry_ok(
                    f,
                    x,
                    #[trigger] tab[x],
                    input_qubits@.len() as int,
                    answer_qubits@.len() as int,
                )) && self.state() == crate::oracle::oracle_transform(
                old(self).state(),
                input_qubits@,
                answer_qubits@,
                tab,
            ));
        }
    }
}

} // verus!
