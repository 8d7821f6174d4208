//! Deutsch's algorithm for the parity of a one-bit boolean function.
//!
//! With the answer qubit prepared in the `0 - 1` superposition and the
//! target in the `0 + 1` superposition, one oracle call followed by a
//! Hadamard leaves the parity in the target qubit with certainty: the
//! measured bit is 1 exactly when `f(false) != f(true)`.  That is proved
//! here, for every random draw, by tracking the four amplitudes the
//! circuit touches through each gate's exact contract.

use crate::amplitude::{amp_re, norm_p, Amp};
use crate::encoding::{base2, bit, flip, lemma_base2_props, lemma_flip_other, lemma_flip_props};
use crate::simulation::Simulation;
use crate::state_vector_simulation::{hadamard_transform, one_qubit_transform, QuantumSimulation};
use vstd::arithmetic::power2::{lemma_pow2_pos, pow2};
use vstd::prelude::*;

verus! {

/// A state supported on the four basis indices whose bits outside the
/// target qubit `qt` and answer qubit `qa` are all zero; the four
/// coefficients are indexed by the pair (target bit, answer bit).
pub open spec fn pair_state(
    len: int,
    qt: nat,
    qa: nat,
    c00: Amp,
    c01: Amp,
    c10: Amp,
    c11: Amp,
) -> Seq<Amp> {
    Seq::new(len as nat, |k: int| if base2(k, qt, qa) != 0 {
        Amp::zero_spec()
    } else if !bit(k, qt) && !bit(k, qa) {
        c00
    } else if bit(k, qt) && !bit(k, qa) {
        c01
    } else if !bit(k, qt) {
        c10
    } else {
        c11
    })
}

/// The ground state is the pair state with coefficient 1 on (0, 0).
proof fn lemma_pair_ground(n: nat, qt: nat, qa: nat)
    requires
        qt < n,
        qa < n,
        qt != qa,
    ensures
        crate::state_vector_init::basis_seq(pow2(n) as int, 0) == pair_state(
            pow2(n) as int,
            qt,
            qa,
            Amp::one_spec(),
            Amp::zero_spec(),
            Amp::zero_spec(),
            Amp::zero_spec(),
        ),
{
    let len = pow2(n) as int;
    let s = crate::state_vector_init::basis_seq(len, 0);
    let t = pair_state(len, qt, qa, Amp::one_spec(), Amp::zero_spec(), Amp::zero_spec(),
        Amp::zero_spec());
    lemma_pow2_pos(n);
    assert forall|k: int| 0 <= k < len implies s[k] == t[k] by {
        lemma_base2_props(k, qt, qa, n);
        if k == 0 {
            assert(base2(0, qt, qa) == 0);
            assert(!bit(0, qt) && !bit(0, qa));
        } else {
            if base2(k, qt, qa) == 0 && !bit(k, qt) && !bit(k, qa) {
                assert(k == 0);
            }
        }
    }
    assert(s =~= t);
}

/// Flipping the answer bit maps each group member to another member of
/// the same group.
proof fn lemma_flip_keeps_group(k: int, qt: nat, qa: nat, n: nat, q: nat)
    requires
        0 <= k < pow2(n),
        qt < n,
        qa < n,
        qt != qa,
        q == qt || q == qa,
    ensures
        base2(flip(k, q), qt, qa) == base2(k, qt, qa),
        0 <= flip(k, q) < pow2(n),
    decreases n,
{
    lemma_base2_props(k, qt, qa, n);
    lemma_flip_props(k, q, n);
    let b = base2(k, qt, qa);
    let mt = pow2(qt) as int;
    let ma = pow2(qa) as int;
    lemma_pow2_pos(qt);
    lemma_pow2_pos(qa);
    // k is b plus its two bit contributions; the flip moves it to the
    // member with the toggled contribution, whose representative is b too.
    if q == qt {
        if bit(k, qt) {
            assert(flip(k, q) == k - mt);
        } else {
            assert(flip(k, q) == k + mt);
        }
    } else {
        if bit(k, qa) {
            assert(flip(k, q) == k - ma);
        } else {
            assert(flip(k, q) == k + ma);
        }
    }
}

/// Pauli-X on the answer qubit swaps the answer-bit coefficient pairs.
proof fn lemma_pair_x_aux(
    n: nat,
    qt: nat,
    qa: nat,
    c00: Amp,
    c01: Amp,
    c10: Amp,
    c11: Amp,
)
    requires
        qt < n,
        qa < n,
        qt != qa,
    ensures
        one_qubit_transform(
            crate::gate::OneQubitGate::PauliX,
            pair_state(pow2(n) as int, qt, qa, c00, c01, c10, c11),
            qa,
        ) == pair_state(pow2(n) as int, qt, qa, c10, c11, c00, c01),
{
    let len = pow2(n) as int;
    let s = pair_state(len, qt, qa, c00, c01, c10, c11);
    let t = one_qubit_transform(crate::gate::OneQubitGate::PauliX, s, qa);
    let u = pair_state(len, qt, qa, c10, c11, c00, c01);
    assert forall|k: int| 0 <= k < len implies t[k] == u[k] by {
        lemma_flip_props(k, qa, n);
        lemma_flip_other(k, qa, qt, n);
        lemma_flip_keeps_group(k, qt, qa, n, qa);
        assert(t[k] == s[flip(k, qa)]);
    }
    assert(t =~= u);
}



/// Hadamard on the answer qubit combines the answer-bit pairs.
proof fn lemma_pair_h_aux(
    n: nat,
    qt: nat,
    qa: nat,
    c00: Amp,
    c01: Amp,
    c10: Amp,
    c11: Amp,
)
    requires
        qt < n,
        qa < n,
        qt != qa,
    ensures
        hadamard_transform(pair_state(pow2(n) as int, qt, qa, c00, c01, c10, c11), qa)
            == pair_state(
            pow2(n) as int,
            qt,
            qa,
            Amp::add_spec(c00, c10),
            Amp::add_spec(c01, c11),
            Amp::sub_spec(c00, c10),
            Amp::sub_spec(c01, c11),
        ),
{
    let len = pow2(n) as int;
    let s = pair_state(len, qt, qa, c00, c01, c10, c11);
    let t = hadamard_transform(s, qa);
    let u = pair_state(
        len,
        qt,
        qa,
        Amp::add_spec(c00, c10),
        Amp::add_spec(c01, c11),
        Amp::sub_spec(c00, c10),
        Amp::sub_spec(c01, c11),
    );
    assert(Amp::add_spec(Amp::zero_spec(), Amp::zero_spec()) == Amp::zero_spec());
    assert(Amp::sub_spec(Amp::zero_spec(), Amp::zero_spec()) == Amp::zero_spec());
    assert forall|k: int| 0 <= k < len implies t[k] == u[k] by {
        lemma_flip_props(k, qa, n);
        lemma_flip_other(k, qa, qt, n);
        lemma_flip_keeps_group(k, qt, qa, n, qa);
    }
    assert(t =~= u);
}

/// Hadamard on the target qubit combines the target-bit pairs.
proof fn lemma_pair_h_target(
    n: nat,
    qt: nat,
    qa: nat,
    c00: Amp,
    c01: Amp,
    c10: Amp,
    c11: Amp,
)
    requires
        qt < n,
        qa < n,
        qt != qa,
    ensures
        hadamard_transform(pair_state(pow2(n) as int, qt, qa, c00, c01, c10, c11), qt)
            == pair_state(
            pow2(n) as int,
            qt,
            qa,
            Amp::add_spec(c00, c01),
            Amp::sub_spec(c00, c01),
            Amp::add_spec(c10, c11),
            Amp::sub_spec(c10, c11),
        ),
{
    let len = pow2(n) as int;
    let s = pair_state(len, qt, qa, c00, c01, c10, c11);
    let t = hadamard_transform(s, qt);
    let u = pair_state(
        len,
        qt,
        qa,
        Amp::add_spec(c00, c01),
        Amp::sub_spec(c00, c01),
        Amp::add_spec(c10, c11),
        Amp::sub_spec(c10, c11),
    );
    assert(Amp::add_spec(Amp::zero_spec(), Amp::zero_spec()) == Amp::zero_spec());
    assert(Amp::sub_spec(Amp::zero_spec(), Amp::zero_spec()) == Amp::zero_spec());
    assert forall|k: int| 0 <= k < len implies t[k] == u[k] by {
        lemma_flip_props(k, qt, n);
        lemma_flip_other(k, qt, qa, n);
        lemma_flip_keeps_group(k, qt, qa, n, qt);
    }
    assert(t =~= u);
}

/// The single-input, single-answer oracle swaps each target-slot's
/// answer pair exactly where its table entry's low bit is set.
proof fn lemma_pair_oracle(
    n: nat,
    qtu: usize,
    qau: usize,
    tab: Seq<u64>,
    c00: Amp,
    c01: Amp,
    c10: Amp,
    c11: Amp,
)
    requires
        (qtu as nat) < n,
        (qau as nat) < n,
        qtu != qau,
        tab.len() == 2,
    ensures
        crate::oracle::oracle_transform(
            pair_state(pow2(n) as int, qtu as nat, qau as nat, c00, c01, c10, c11),
            seq![qtu],
            seq![qau],
            tab,
        ) == pair_state(
            pow2(n) as int,
            qtu as nat,
            qau as nat,
            if bit(tab[0] as int, 0) {
                c10
            } else {
                c00
            },
            if bit(tab[1] as int, 0) {
                c11
            } else {
                c01
            },
            if bit(tab[0] as int, 0) {
                c00
            } else {
                c10
            },
            if bit(tab[1] as int, 0) {
                c01
            } else {
                c11
            },
        ),
{
    let qt = qtu as nat;
    let qa = qau as nat;
    let len = pow2(n) as int;
    let ins: Seq<usize> = seq![qtu];
    let outs: Seq<usize> = seq![qau];
    let s = pair_state(len, qt, qa, c00, c01, c10, c11);
    let t = crate::oracle::oracle_transform(s, ins, outs, tab);
    let u = pair_state(
        len,
        qt,
        qa,
        if bit(tab[0] as int, 0) {
            c10
        } else {
            c00
        },
        if bit(tab[1] as int, 0) {
            c11
        } else {
            c01
        },
        if bit(tab[0] as int, 0) {
            c00
        } else {
            c10
        },
        if bit(tab[1] as int, 0) {
            c01
        } else {
            c11
        },
    );
    vstd::arithmetic::power2::lemma2_to64();
    assert forall|k: int| 0 <= k < len implies t[k] == u[k] by {
        lemma_flip_props(k, qa, n);
        lemma_flip_other(k, qa, qt, n);
        lemma_flip_keeps_group(k, qt, qa, n, qa);
        // The input pattern of a one-qubit input list is that qubit's bit.
        assert(ins.len() == 1 && ins[0] == qtu && ins.last() == qtu);
        assert(outs.len() == 1 && outs[0] == qau && outs.last() == qau);
        assert(ins.drop_last() =~= Seq::<usize>::empty());
        assert(outs.drop_last() =~= Seq::<usize>::empty());
        let pat = crate::oracle::input_pattern(k, ins);
        assert(crate::oracle::input_pattern(k, Seq::<usize>::empty()) == 0);
        assert(pat == crate::oracle::input_pattern(k, ins.drop_last()) + if bit(
            k,
            ins.last() as nat,
        ) {
            pow2(0) as int
        } else {
            0int
        });
        assert(pow2(0) == 1);
        assert(pat == if bit(k, qt) {
            1int
        } else {
            0int
        });
        let e = tab[pat] as int;
        assert(crate::oracle::toggle_bits(k, Seq::<usize>::empty(), e) == k);
        assert(crate::oracle::toggle_bits(k, outs, e) == if bit(e, (outs.len() - 1) as nat) {
            flip(crate::oracle::toggle_bits(k, outs.drop_last(), e), outs.last() as nat)
        } else {
            crate::oracle::toggle_bits(k, outs.drop_last(), e)
        });
        assert(crate::oracle::toggle_bits(k, outs, e) == if bit(e, 0) {
            flip(k, qa)
        } else {
            k
        });
        assert(t[k] == s[crate::oracle::oracle_image(k, ins, outs, tab)]);
    }
    assert(t =~= u);
}

/// Additions and differences of the unit-coordinate amplitudes the
/// Deutsch trace meets.
proof fn lemma_deutsch_amp_arith()
    ensures
        Amp::add_spec(Amp::zero_spec(), Amp::one_spec()) == Amp::one_spec(),
        Amp::sub_spec(Amp::zero_spec(), Amp::one_spec()) == amp_re(-1i64),
        Amp::add_spec(Amp::zero_spec(), Amp::zero_spec()) == Amp::zero_spec(),
        Amp::sub_spec(Amp::zero_spec(), Amp::zero_spec()) == Amp::zero_spec(),
        Amp::add_spec(Amp::one_spec(), Amp::zero_spec()) == Amp::one_spec(),
        Amp::sub_spec(Amp::one_spec(), Amp::zero_spec()) == Amp::one_spec(),
        Amp::add_spec(amp_re(-1i64), Amp::zero_spec()) == amp_re(-1i64),
        Amp::sub_spec(amp_re(-1i64), Amp::zero_spec()) == amp_re(-1i64),
        Amp::add_spec(Amp::one_spec(), Amp::one_spec()) == amp_re(2i64),
        Amp::sub_spec(Amp::one_spec(), Amp::one_spec()) == Amp::zero_spec(),
        Amp::add_spec(amp_re(-1i64), amp_re(-1i64)) == amp_re(-2i64),
        Amp::sub_spec(amp_re(-1i64), amp_re(-1i64)) == Amp::zero_spec(),
        Amp::add_spec(Amp::one_spec(), amp_re(-1i64)) == Amp::zero_spec(),
        Amp::sub_spec(Amp::one_spec(), amp_re(-1i64)) == amp_re(2i64),
        Amp::add_spec(amp_re(-1i64), Amp::one_spec()) == Amp::zero_spec(),
        Amp::sub_spec(amp_re(-1i64), Amp::one_spec()) == amp_re(-2i64),
{
    let z = Amp::zero_spec();
    let o = Amp::one_spec();
    let m = amp_re(-1i64);
    assert(z.a == 0 && z.b == 0 && z.c == 0 && z.d == 0);
    assert(o.a == 1 && o.b == 0 && o.c == 0 && o.d == 0);
    assert(m.a == -1 && m.b == 0 && m.c == 0 && m.d == 0);
}

/// Run Deutsch's circuit once and measure the target qubit.  Assumes the
/// register starts in the ground state; the measured bit is, with
/// certainty and for every random draw, the parity of the two values the
/// closure returned: 1 exactly when `f(false) != f(true)`.
#[verifier::rlimit(100)]
pub fn apply_deutsch_algo<S: Simulation, F: Fn(bool) -> bool>(
    simulation: &mut S,
    aux_qubit: usize,
    target_qubit: usize,
    f: &F,
) -> (r: Vec<bool>)
    requires
        old(simulation).inv(),
        aux_qubit < old(simulation).qubits(),
        target_qubit < old(simulation).qubits(),
        aux_qubit != target_qubit,
        old(simulation).state() == crate::state_vector_init::basis_seq(
            pow2(old(simulation).qubits()) as int,
            0,
        ),
        old(simulation).scale_p() == 1,
        forall|b: bool| #[trigger] call_requires(*f, (b,)),
    ensures
        final(simulation).inv(),
        final(simulation).qubits() == old(simulation).qubits(),
        r@.len() == 1,
        exists|bf: bool, bt: bool|
            {
                &&& #[trigger] call_ensures(*f, (false,), bf)
                &&& #[trigger] call_ensures(*f, (true,), bt)
                &&& r@[0] == (bf != bt)
            },
{
    let ghost n = old(simulation).qubits();
    let ghost qt = target_qubit as nat;
    let ghost qa = aux_qubit as nat;
    let ghost len = pow2(n) as int;
    let ghost one = Amp::one_spec();
    let ghost zero = Amp::zero_spec();
    let ghost m1 = amp_re(-1i64);
    proof {
        lemma_deutsch_amp_arith();
        crate::laws::lemma_unit_amp_norms();
        crate::laws::lemma_amp_two_norms();
        vstd::arithmetic::power2::lemma2_to64();
        lemma_pair_ground(n, qt, qa);
    }
    simulation.pauli_x(aux_qubit);
    proof {
        lemma_pair_x_aux(n, qt, qa, one, zero, zero, zero);
        assert(simulation.state() == pair_state(len, qt, qa, zero, zero, one, zero));
    }
    simulation.hadamard(aux_qubit);
    proof {
        lemma_pair_h_aux(n, qt, qa, zero, zero, one, zero);
        assert(simulation.state() == pair_state(len, qt, qa, one, zero, m1, zero));
    }
    simulation.hadamard(target_qubit);
    proof {
        lemma_pair_h_target(n, qt, qa, one, zero, m1, zero);
        assert(simulation.state() == pair_state(len, qt, qa, one, one, m1, m1));
    }
    let f_false = f(false);
    let f_true = f(true);
    let mut input_list: Vec<usize> = Vec::new();
    input_list.push(target_qubit);
    let mut answer_list: Vec<usize> = Vec::new();
    answer_list.push(aux_qubit);
    proof {
        assert(input_list@ =~= seq![target_qubit]);
        assert(answer_list@ =~= seq![aux_qubit]);
    }
    let g = |x: Vec<bool>| -> (rr: Vec<bool>)
        requires
            x@.len() == 1,
        ensures
            rr@.len() == 1,
            rr@[0] == (if x@[0] {
                f_true
            } else {
                f_false
            }),
        {
            let mut v: Vec<bool> = Vec::new();
            if x[0] {
                v.push(f_true);
            } else {
                v.push(f_false);
            }
            v
        };
    let ghost pre_oracle = simulation.state();
    simulation.apply_u_f(g, &input_list, &answer_list);
    let ghost b0: bool = f_false;
    let ghost b1: bool = f_true;
    proof {
        let tab = choose|tab: Seq<u64>|
            {
                &&& tab.len() == pow2(input_list@.len() as nat)
                &&& (forall|x: int|
                    0 <= x < tab.len() ==> crate::oracle::entry_ok(
                        g,
                        x,
                        #[trigger] tab[x],
                        input_list@.len() as int,
                        answer_list@.len() as int,
                    ))
                &&& simulation.state() == crate::oracle::oracle_transform(
                    pre_oracle,
                    input_list@,
                    answer_list@,
                    tab,
                )
            };
        assert(tab.len() == 2);
        // Read the closure's two answers out of the oracle table.
        assert(crate::oracle::entry_ok(g, 0, tab[0], 1, 1));
        assert(crate::oracle::entry_ok(g, 1, tab[1], 1, 1));
        let (xv0, yv0) = choose|xv: Vec<bool>, yv: Vec<bool>|
            {
                &&& xv@.len() == 1
                &&& (forall|j: int| 0 <= j < xv@.len() ==> xv@[j] == bit(0, j as nat))
                &&& #[trigger] call_ensures(g, (xv,), yv)
                &&& (forall|j: int| 0 <= j < 1 ==> bit(tab[0] as int, j as nat) == yv@[j])
            };
        assert(!bit(0, 0));
        assert(bit(tab[0] as int, 0) == f_false);
        let (xv1, yv1) = choose|xv: Vec<bool>, yv: Vec<bool>|
            {
                &&& xv@.len() == 1
                &&& (forall|j: int| 0 <= j < xv@.len() ==> xv@[j] == bit(1, j as nat))
                &&& #[trigger] call_ensures(g, (xv,), yv)
                &&& (forall|j: int| 0 <= j < 1 ==> bit(tab[1] as int, j as nat) == yv@[j])
            };
        assert(bit(1, 0));
        assert(bit(tab[1] as int, 0) == f_true);
        lemma_pair_oracle(n, target_qubit, aux_qubit, tab, one, one, m1, m1);
        assert(simulation.state() == pair_state(
            len,
            qt,
            qa,
            if b0 {
                m1
            } else {
                one
            },
            if b1 {
                m1
            } else {
                one
            },
            if b0 {
                one
            } else {
                m1
            },
            if b1 {
                one
            } else {
                m1
            },
        ));
    }
    simulation.hadamard(target_qubit);
    proof {
        lemma_pair_h_target(
            n,
            qt,
            qa,
            if b0 {
                m1
            } else {
                one
            },
            if b1 {
                m1
            } else {
                one
            },
            if b0 {
                one
            } else {
                m1
            },
            if b1 {
                one
            } else {
                m1
            },
        );
        if b0 == b1 {
            // Equal answers: all mass sits on target bit 0.
            assert(simulation.state() == pair_state(
                len,
                qt,
                qa,
                if b0 {
                    amp_re(-2i64)
                } else {
                    amp_re(2i64)
                },
                zero,
                if b0 {
                    amp_re(2i64)
                } else {
                    amp_re(-2i64)
                },
                zero,
            ));
        } else {
            // Different answers: all mass sits on target bit 1.
            assert(simulation.state() == pair_state(
                len,
                qt,
                qa,
                zero,
                if b0 {
                    amp_re(-2i64)
                } else {
                    amp_re(2i64)
                },
                zero,
                if b0 {
                    amp_re(2i64)
                } else {
                    amp_re(-2i64)
                },
            ));
        }
    }
    let ghost pre_measure = simulation.state();
    let mut to_measure: Vec<usize> = Vec::new();
    to_measure.push(target_qubit);
    let r = simulation.measure(to_measure);
    proof {
        let (u, idx) = choose|u: int, idx: int|
            {
                &&& 0 <= u < crate::measurement::draw_scale()
                &&& #[trigger] crate::measurement::is_sample(pre_measure, u, idx)
                &&& forall|j: int| 0 <= j < r@.len() ==> r@[j] == bit(idx, seq![target_qubit][j] as nat)
            };
        // The sampled index carries mass, so it sits on a nonzero slot.
        lemma_base2_props(0, qt, qa, n);
        lemma_pow2_pos(qt);
        lemma_pow2_pos(qa);
        let witness: int = if b0 == b1 {
            0
        } else {
            pow2(qt) as int
        };
        assert(norm_p(pre_measure[witness]) == 4);
        crate::norms::lemma_sum_element(pre_measure, witness);
        crate::measurement::lemma_sample_positive(pre_measure, u, idx);
        lemma_base2_props(idx, qt, qa, n);
        assert(norm_p(pre_measure[idx]) >= 1);
        assert(pre_measure[idx] != Amp::zero_spec());
        assert(bit(idx, qt) == (b0 != b1));
        assert(r@[0] == bit(idx, qt));
        assert(call_ensures(*f, (false,), b0) && call_ensures(*f, (true,), b1) && r@[0] == (
        b0 != b1));
    }
    r
}

/// Run Deutsch's algorithm `run_count` times on a fresh 2-qubit
/// simulation, collecting the measured parities.
pub fn run_deutsch_algo<F: Fn(bool) -> bool>(f: &F, run_count: usize) -> (r: Vec<Vec<bool>>)
    requires
        forall|b: bool| #[trigger] call_requires(*f, (b,)),
    ensures
        r@.len() == run_count,
        forall|i: int| 0 <= i < r@.len() ==> (#[trigger] r@[i])@.len() == 1,
{
    let mut simulation = QuantumSimulation::new(2, 0u64);
    let mut measurements: Vec<Vec<bool>> = Vec::new();
    let mut i: usize = 0;
    while i < run_count
        invariant
            i <= run_count,
            simulation.qubit_count == 2,
            measurements@.len() == i,
            forall|t: int| 0 <= t < i ==> (#[trigger] measurements@[t])@.len() == 1,
            forall|b: bool| #[trigger] call_requires(*f, (b,)),
        decreases run_count - i,
    {
        simulation.reset();
        let measured_states = apply_deutsch_algo(&mut simulation, 0, 1, f);
        measurements.push(measured_states);
        i = i + 1;
    }
    measurements
}

} // verus!
