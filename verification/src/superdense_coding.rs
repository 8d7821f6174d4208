//! Superdense coding.
//!
//! Two classical bits ride on a single transmitted qubit: the sender and
//! receiver share an entangled pair, the sender encodes the bits with a
//! phase flip and a bit flip on its half, and the receiver undoes the
//! entangling circuit to read both bits.  The round trip is exact: the
//! received bits provably equal the sent ones, whatever the random draw
//! behind the final measurement.

use crate::amplitude::{amp_re, norm_p, Amp};
use crate::laws::{
    bell_seq, lemma_bell_preparation, lemma_deterministic_sample, lemma_two_qubit_index_facts,
    lemma_unit_amp_norms,
};
use crate::measurement::{draw_scale, is_sample};
use crate::state_vector_simulation::QuantumSimulation;
use vstd::prelude::*;
use vstd::string::StringExecFns;

verus! {

/// The basis index that encodes the two sent bits.
spec fn encoded_index(first_bit: bool, second_bit: bool) -> int {
    (if first_bit {
        1int
    } else {
        0int
    }) + (if second_bit {
        2int
    } else {
        0int
    })
}

/// Send and receive two bits of information through one qubit of a
/// freshly entangled pair.  The decoding is provably exact.
#[verifier::rlimit(100)]
pub fn send_and_receive(first_bit: bool, second_bit: bool) -> (r: (bool, bool))
    ensures
        r.0 == first_bit,
        r.1 == second_bit,
{
    let mut simulation = QuantumSimulation::new(2, 0u64);
    // Preparation: entangle the qubits into the Bell state.
    simulation.reset();
    proof {
        lemma_two_qubit_index_facts();
    }
    simulation.hadamard(0);
    simulation.cnot(0, 1);
    proof {
        lemma_bell_preparation();
        assert(simulation.amplitudes@ == bell_seq());
    }
    // Encode the message on the first qubit only.
    if first_bit {
        simulation.pauli_z(0);
        proof {
            lemma_two_qubit_index_facts();
            assert(simulation.amplitudes@ =~= seq![
                Amp::one_spec(),
                Amp::zero_spec(),
                Amp::zero_spec(),
                amp_re(-1i64),
            ]);
        }
    }
    if second_bit {
        simulation.pauli_x(0);
        proof {
            lemma_two_qubit_index_facts();
            if first_bit {
                assert(simulation.amplitudes@ =~= seq![
                    Amp::zero_spec(),
                    Amp::one_spec(),
                    amp_re(-1i64),
                    Amp::zero_spec(),
                ]);
            } else {
                assert(simulation.amplitudes@ =~= seq![
                    Amp::zero_spec(),
                    Amp::one_spec(),
                    Amp::one_spec(),
                    Amp::zero_spec(),
                ]);
            }
        }
    }
    // Send the first qubit; decode from the pair.
    simulation.cnot(0, 1);
    simulation.hadamard(0);
    let ghost enc = encoded_index(first_bit, second_bit);
    proof {
        lemma_two_qubit_index_facts();
        crate::laws::lemma_amp_two_norms();
        if first_bit {
            if second_bit {
                assert(simulation.amplitudes@ =~= seq![
                    Amp::zero_spec(),
                    Amp::zero_spec(),
                    Amp::zero_spec(),
                    amp_re(-2i64),
                ]);
                assert(enc == 3);
                assert(forall|k: int|
                    0 <= k < 4 && k != enc ==> simulation.amplitudes@[k] == Amp::zero_spec());
                assert(norm_p(simulation.amplitudes@[enc]) == 4);
            } else {
                assert(simulation.amplitudes@ =~= seq![
                    Amp::zero_spec(),
                    amp_re(2i64),
                    Amp::zero_spec(),
                    Amp::zero_spec(),
                ]);
                assert(enc == 1);
                assert(forall|k: int|
                    0 <= k < 4 && k != enc ==> simulation.amplitudes@[k] == Amp::zero_spec());
                assert(norm_p(simulation.amplitudes@[enc]) == 4);
            }
        } else {
            if second_bit {
                assert(simulation.amplitudes@ =~= seq![
                    Amp::zero_spec(),
                    Amp::zero_spec(),
                    amp_re(2i64),
                    Amp::zero_spec(),
                ]);
                assert(enc == 2);
                assert(forall|k: int|
                    0 <= k < 4 && k != enc ==> simulation.amplitudes@[k] == Amp::zero_spec());
                assert(norm_p(simulation.amplitudes@[enc]) == 4);
            } else {
                assert(simulation.amplitudes@ =~= seq![
                    amp_re(2i64),
                    Amp::zero_spec(),
                    Amp::zero_spec(),
                    Amp::zero_spec(),
                ]);
                assert(enc == 0);
                assert(forall|k: int|
                    0 <= k < 4 && k != enc ==> simulation.amplitudes@[k] == Amp::zero_spec());
                assert(norm_p(simulation.amplitudes@[enc]) == 4);
            }
        }
        assert(forall|k: int|
            0 <= k < 4 && k != enc ==> simulation.amplitudes@[k] == Amp::zero_spec());
        assert(norm_p(simulation.amplitudes@[enc]) == 4);
    }
    let ghost pre_measure = simulation.amplitudes@;
    let measured_states = simulation.measure_all();
    proof {
        let (u, idx) = choose|u: int, idx: int|
            {
                &&& 0 <= u < draw_scale()
                &&& #[trigger] is_sample(pre_measure, u, idx)
                &&& forall|j: int|
                    0 <= j < measured_states@.len() ==> measured_states@[j]
                        == crate::encoding::bit(idx, j as nat)
                &&& true
            };
        lemma_unit_amp_norms();
        crate::norms::lemma_sum_gnn(pre_measure);
        crate::norms::lemma_sum_element(pre_measure, enc);
        lemma_deterministic_sample(pre_measure, u, idx, enc);
        lemma_two_qubit_index_facts();
        assert(measured_states@[0] == crate::encoding::bit(enc, 0));
        assert(measured_states@[1] == crate::encoding::bit(enc, 1));
    }
    (measured_states[0], measured_states[1])
}

/// Write the two bits as a string, second bit first.
pub fn denote(first_bit: bool, second_bit: bool) -> (r: String)
    ensures
        r@ == seq![if second_bit { '1' } else { '0' }, if first_bit { '1' } else { '0' }],
{
    let mut s = String::from_str("");
    proof {
        reveal_strlit("");
        reveal_strlit("1");
        reveal_strlit("0");
    }
    if second_bit {
        s.append("1");
    } else {
        s.append("0");
    }
    if first_bit {
        s.append("1");
    } else {
        s.append("0");
    }
    proof {
        assert(s@ =~= seq![
            if second_bit {
                '1'
            } else {
                '0'
            },
            if first_bit {
                '1'
            } else {
                '0'
            },
        ]);
    }
    s
}

} // verus!
