//! Quantum teleportation.
//!
//! An entangled pair, two mid-circuit measurements, and two classically
//! controlled corrections move the full quantum state of the source qubit
//! onto the destination qubit.

use crate::amplitude::{bounded, coord_limit, Amp};
use crate::encoding::{
    base3, bit, flip, lemma_base2_props, lemma_base3_props, lemma_flip_other, lemma_flip_props,
};
use crate::gate::TwoQubitGate;
use crate::simulation::Simulation;
use crate::state_vector_simulation::{
    hadamard_transform, norm_cap, one_qubit_transform, two_qubit_transform,
};
use vstd::arithmetic::power2::{lemma_pow2_pos, pow2};
use vstd::prelude::*;

verus! {

/// What the CNOT transform leaves at one index: the amplitude of the
/// index with the target bit flipped, exactly where the control bit is 1.
proof fn lemma_cnot_value(s: Seq<Amp>, qc: nat, qt: nat, n: nat, k: int)
    requires
        s.len() == pow2(n),
        qc < n,
        qt < n,
        qc != qt,
        0 <= k < s.len(),
    ensures
        two_qubit_transform(TwoQubitGate::Cnot, s, qc, qt)[k] == (if bit(k, qc) {
            s[flip(k, qt)]
        } else {
            s[k]
        }),
{
    lemma_base2_props(k, qc, qt, n);
    lemma_flip_props(k, qt, n);
    lemma_flip_other(k, qt, qc, n);
    let b = crate::encoding::base2(k, qc, qt);
    let mc = pow2(qc) as int;
    let mt = pow2(qt) as int;
    lemma_pow2_pos(qc);
    lemma_pow2_pos(qt);
    if bit(k, qc) {
        if bit(k, qt) {
            assert(k == b + mc + mt);
            assert(flip(k, qt) == b + mc);
        } else {
            assert(k == b + mc);
            assert(flip(k, qt) == b + mc + mt);
        }
    }
}

/// Flipping any one of three distinct qubits keeps an index inside its
/// 8-element group.
proof fn lemma_flip_keeps_group3(k: int, q0: nat, q1: nat, q2: nat, n: nat, q: nat)
    requires
        0 <= k < pow2(n),
        q0 < n,
        q1 < n,
        q2 < n,
        q0 != q1,
        q0 != q2,
        q1 != q2,
        q == q0 || q == q1 || q == q2,
    ensures
        base3(flip(k, q), q0, q1, q2) == base3(k, q0, q1, q2),
        0 <= flip(k, q) < pow2(n),
{
    lemma_base3_props(k, q0, q1, q2, n);
    lemma_flip_props(k, q, n);
    lemma_pow2_pos(q0);
    lemma_pow2_pos(q1);
    lemma_pow2_pos(q2);
    let m0 = pow2(q0) as int;
    let m1 = pow2(q1) as int;
    let m2 = pow2(q2) as int;
    if q == q0 {
        if bit(k, q0) {
            assert(flip(k, q) == k - m0);
        } else {
            assert(flip(k, q) == k + m0);
        }
    } else if q == q1 {
        if bit(k, q1) {
            assert(flip(k, q) == k - m1);
        } else {
            assert(flip(k, q) == k + m1);
        }
    } else {
        if bit(k, q2) {
            assert(flip(k, q) == k - m2);
        } else {
            assert(flip(k, q) == k + m2);
        }
    }
}

/// A state supported on the eight basis indices whose bits outside the
/// source, auxiliary and destination qubits are all zero; coefficients
/// are indexed by that bit triple, source first, destination last.
pub open spec fn triple_state(
    len: int,
    qs: nat,
    qa: nat,
    qd: nat,
    c000: Amp,
    c001: Amp,
    c010: Amp,
    c011: Amp,
    c100: Amp,
    c101: Amp,
    c110: Amp,
    c111: Amp,
) -> Seq<Amp> {
    Seq::new(len as nat, |k: int| if base3(k, qs, qa, qd) != 0 {
        Amp::zero_spec()
    } else if !bit(k, qs) && !bit(k, qa) && !bit(k, qd) {
        c000
    } else if !bit(k, qs) && !bit(k, qa) {
        c001
    } else if !bit(k, qs) && !bit(k, qd) {
        c010
    } else if !bit(k, qs) {
        c011
    } else if !bit(k, qa) && !bit(k, qd) {
        c100
    } else if !bit(k, qa) {
        c101
    } else if !bit(k, qd) {
        c110
    } else {
        c111
    })
}


/// Adding or subtracting the zero amplitude, and double negation.
proof fn lemma_amp_zero_ops(x: Amp)
    requires
        bounded(x, coord_limit()),
    ensures
        Amp::add_spec(x, Amp::zero_spec()) == x,
        Amp::add_spec(Amp::zero_spec(), x) == x,
        Amp::sub_spec(x, Amp::zero_spec()) == x,
        Amp::sub_spec(Amp::zero_spec(), x) == Amp::neg_spec(x),
        Amp::neg_spec(Amp::neg_spec(x)) == x,
        Amp::neg_spec(Amp::zero_spec()) == Amp::zero_spec(),
{
    let z = Amp::zero_spec();
    assert(z.a == 0 && z.b == 0 && z.c == 0 && z.d == 0);
}

/// Hadamard on the source qubit combines the source-bit pairs.
proof fn lemma_triple_h_src(
    n: nat,
    qs: nat,
    qa: nat,
    qd: nat,
    c000: Amp,
    c001: Amp,
    c010: Amp,
    c011: Amp,
    c100: Amp,
    c101: Amp,
    c110: Amp,
    c111: Amp,
)
    requires
        qs < n,
        qa < n,
        qd < n,
        qs != qa,
        qs != qd,
        qa != qd,
    ensures
        hadamard_transform(
            triple_state(pow2(n) as int, qs, qa, qd, c000, c001, c010, c011, c100, c101, c110, c111),
            qs,
        ) == triple_state(
            pow2(n) as int,
            qs,
            qa,
            qd,
            Amp::add_spec(c000, c100),
            Amp::add_spec(c001, c101),
            Amp::add_spec(c010, c110),
            Amp::add_spec(c011, c111),
            Amp::sub_spec(c000, c100),
            Amp::sub_spec(c001, c101),
            Amp::sub_spec(c010, c110),
            Amp::sub_spec(c011, c111),
        ),
{
    let len = pow2(n) as int;
    let s = triple_state(len, qs, qa, qd, c000, c001, c010, c011, c100, c101, c110, c111);
    let t = hadamard_transform(s, qs);
    let u = triple_state(
        len,
        qs,
        qa,
        qd,
        Amp::add_spec(c000, c100),
        Amp::add_spec(c001, c101),
        Amp::add_spec(c010, c110),
        Amp::add_spec(c011, c111),
        Amp::sub_spec(c000, c100),
        Amp::sub_spec(c001, c101),
        Amp::sub_spec(c010, c110),
        Amp::sub_spec(c011, c111),
    );
    assert(Amp::add_spec(Amp::zero_spec(), Amp::zero_spec()) == Amp::zero_spec());
    assert(Amp::sub_spec(Amp::zero_spec(), Amp::zero_spec()) == Amp::zero_spec());
    assert forall|k: int| 0 <= k < len implies t[k] == u[k] by {
        lemma_flip_props(k, qs, n);
        lemma_flip_other(k, qs, qa, n);
        lemma_flip_other(k, qs, qd, n);
        lemma_flip_keeps_group3(k, qs, qa, qd, n, qs);
    }
    assert(t =~= u);
}

/// Hadamard on the auxiliary qubit combines the auxiliary-bit pairs.
proof fn lemma_triple_h_aux(
    n: nat,
    qs: nat,
    qa: nat,
    qd: nat,
    c000: Amp,
    c001: Amp,
    c010: Amp,
    c011: Amp,
    c100: Amp,
    c101: Amp,
    c110: Amp,
    c111: Amp,
)
    requires
        qs < n,
        qa < n,
        qd < n,
        qs != qa,
        qs != qd,
        qa != qd,
    ensures
        hadamard_transform(
            triple_state(pow2(n) as int, qs, qa, qd, c000, c001, c010, c011, c100, c101, c110, c111),
            qa,
        ) == triple_state(
            pow2(n) as int,
            qs,
            qa,
            qd,
            Amp::add_spec(c000, c010),
            Amp::add_spec(c001, c011),
            Amp::sub_spec(c000, c010),
            Amp::sub_spec(c001, c011),
            Amp::add_spec(c100, c110),
            Amp::add_spec(c101, c111),
            Amp::sub_spec(c100, c110),
            Amp::sub_spec(c101, c111),
        ),
{
    let len = pow2(n) as int;
    let s = triple_state(len, qs, qa, qd, c000, c001, c010, c011, c100, c101, c110, c111);
    let t = hadamard_transform(s, qa);
    let u = triple_state(
        len,
        qs,
        qa,
        qd,
        Amp::add_spec(c000, c010),
        Amp::add_spec(c001, c011),
        Amp::sub_spec(c000, c010),
        Amp::sub_spec(c001, c011),
        Amp::add_spec(c100, c110),
        Amp::add_spec(c101, c111),
        Amp::sub_spec(c100, c110),
        Amp::sub_spec(c101, c111),
    );
    assert(Amp::add_spec(Amp::zero_spec(), Amp::zero_spec()) == Amp::zero_spec());
    assert(Amp::sub_spec(Amp::zero_spec(), Amp::zero_spec()) == Amp::zero_spec());
    assert forall|k: int| 0 <= k < len implies t[k] == u[k] by {
        lemma_flip_props(k, qa, n);
        lemma_flip_other(k, qa, qs, n);
        lemma_flip_other(k, qa, qd, n);
        lemma_flip_keeps_group3(k, qs, qa, qd, n, qa);
    }
    assert(t =~= u);
}

/// CNOT from the auxiliary onto the destination qubit: where the
/// auxiliary bit is 1, the destination pair swaps.
proof fn lemma_triple_cnot_ad(
    n: nat,
    qs: nat,
    qa: nat,
    qd: nat,
    c000: Amp,
    c001: Amp,
    c010: Amp,
    c011: Amp,
    c100: Amp,
    c101: Amp,
    c110: Amp,
    c111: Amp,
)
    requires
        qs < n,
        qa < n,
        qd < n,
        qs != qa,
        qs != qd,
        qa != qd,
    ensures
        two_qubit_transform(
            TwoQubitGate::Cnot,
            triple_state(pow2(n) as int, qs, qa, qd, c000, c001, c010, c011, c100, c101, c110, c111),
            qa,
            qd,
        ) == triple_state(
            pow2(n) as int,
            qs,
            qa,
            qd,
            c000,
            c001,
            c011,
            c010,
            c100,
            c101,
            c111,
            c110,
        ),
{
    let len = pow2(n) as int;
    let s = triple_state(len, qs, qa, qd, c000, c001, c010, c011, c100, c101, c110, c111);
    let t = two_qubit_transform(TwoQubitGate::Cnot, s, qa, qd);
    let u = triple_state(len, qs, qa, qd, c000, c001, c011, c010, c100, c101, c111, c110);
    assert forall|k: int| 0 <= k < len implies t[k] == u[k] by {
        lemma_cnot_value(s, qa, qd, n, k);
        lemma_flip_props(k, qd, n);
        lemma_flip_other(k, qd, qs, n);
        lemma_flip_other(k, qd, qa, n);
        lemma_flip_keeps_group3(k, qs, qa, qd, n, qd);
    }
    assert(t =~= u);
}

/// CNOT from the source onto the auxiliary qubit: where the source bit
/// is 1, the auxiliary pair swaps.
proof fn lemma_triple_cnot_sa(
    n: nat,
    qs: nat,
    qa: nat,
    qd: nat,
    c000: Amp,
    c001: Amp,
    c010: Amp,
    c011: Amp,
    c100: Amp,
    c101: Amp,
    c110: Amp,
    c111: Amp,
)
    requires
        qs < n,
        qa < n,
        qd < n,
        qs != qa,
        qs != qd,
        qa != qd,
    ensures
        two_qubit_transform(
            TwoQubitGate::Cnot,
            triple_state(pow2(n) as int, qs, qa, qd, c000, c001, c010, c011, c100, c101, c110, c111),
            qs,
            qa,
        ) == triple_state(
            pow2(n) as int,
            qs,
            qa,
            qd,
            c000,
            c001,
            c010,
            c011,
            c110,
            c111,
            c100,
            c101,
        ),
{
    let len = pow2(n) as int;
    let s = triple_state(len, qs, qa, qd, c000, c001, c010, c011, c100, c101, c110, c111);
    let t = two_qubit_transform(TwoQubitGate::Cnot, s, qs, qa);
    let u = triple_state(len, qs, qa, qd, c000, c001, c010, c011, c110, c111, c100, c101);
    assert forall|k: int| 0 <= k < len implies t[k] == u[k] by {
        lemma_cnot_value(s, qs, qa, n, k);
        lemma_flip_props(k, qa, n);
        lemma_flip_other(k, qa, qs, n);
        lemma_flip_other(k, qa, qd, n);
        lemma_flip_keeps_group3(k, qs, qa, qd, n, qa);
    }
    assert(t =~= u);
}

/// Pauli-Z on the destination qubit negates the destination-1 slots.
proof fn lemma_triple_z_dest(
    n: nat,
    qs: nat,
    qa: nat,
    qd: nat,
    c000: Amp,
    c001: Amp,
    c010: Amp,
    c011: Amp,
    c100: Amp,
    c101: Amp,
    c110: Amp,
    c111: Amp,
)
    requires
        qs < n,
        qa < n,
        qd < n,
        qs != qa,
        qs != qd,
        qa != qd,
    ensures
        one_qubit_transform(
            crate::gate::OneQubitGate::PauliZ,
            triple_state(pow2(n) as int, qs, qa, qd, c000, c001, c010, c011, c100, c101, c110, c111),
            qd,
        ) == triple_state(
            pow2(n) as int,
            qs,
            qa,
            qd,
            c000,
            Amp::neg_spec(c001),
            c010,
            Amp::neg_spec(c011),
            c100,
            Amp::neg_spec(c101),
            c110,
            Amp::neg_spec(c111),
        ),
{
    let len = pow2(n) as int;
    let s = triple_state(len, qs, qa, qd, c000, c001, c010, c011, c100, c101, c110, c111);
    let t = one_qubit_transform(crate::gate::OneQubitGate::PauliZ, s, qd);
    let u = triple_state(
        len,
        qs,
        qa,
        qd,
        c000,
        Amp::neg_spec(c001),
        c010,
        Amp::neg_spec(c011),
        c100,
        Amp::neg_spec(c101),
        c110,
        Amp::neg_spec(c111),
    );
    assert(Amp::neg_spec(Amp::zero_spec()) == Amp::zero_spec());
    assert forall|k: int| 0 <= k < len implies t[k] == u[k] by {
        lemma_flip_props(k, qd, n);
        lemma_flip_other(k, qd, qs, n);
        lemma_flip_other(k, qd, qa, n);
        lemma_flip_keeps_group3(k, qs, qa, qd, n, qd);
    }
    assert(t =~= u);
}

/// Pauli-X on the destination qubit swaps the destination pairs.
proof fn lemma_triple_x_dest(
    n: nat,
    qs: nat,
    qa: nat,
    qd: nat,
    c000: Amp,
    c001: Amp,
    c010: Amp,
    c011: Amp,
    c100: Amp,
    c101: Amp,
    c110: Amp,
    c111: Amp,
)
    requires
        qs < n,
        qa < n,
        qd < n,
        qs != qa,
        qs != qd,
        qa != qd,
    ensures
        one_qubit_transform(
            crate::gate::OneQubitGate::PauliX,
            triple_state(pow2(n) as int, qs, qa, qd, c000, c001, c010, c011, c100, c101, c110, c111),
            qd,
        ) == triple_state(
            pow2(n) as int,
            qs,
            qa,
            qd,
            c001,
            c000,
            c011,
            c010,
            c101,
            c100,
            c111,
            c110,
        ),
{
    let len = pow2(n) as int;
    let s = triple_state(len, qs, qa, qd, c000, c001, c010, c011, c100, c101, c110, c111);
    let t = one_qubit_transform(crate::gate::OneQubitGate::PauliX, s, qd);
    let u = triple_state(len, qs, qa, qd, c001, c000, c011, c010, c101, c100, c111, c110);
    assert forall|k: int| 0 <= k < len implies t[k] == u[k] by {
        lemma_flip_props(k, qd, n);
        lemma_flip_other(k, qd, qs, n);
        lemma_flip_other(k, qd, qa, n);
        lemma_flip_keeps_group3(k, qs, qa, qd, n, qd);
        assert(t[k] == s[flip(k, qd)]);
    }
    assert(t =~= u);
}

/// Collapsing on the source and auxiliary qubits zeroes every slot that
/// disagrees with the sampled index on those two bits.
proof fn lemma_triple_collapse(
    n: nat,
    qsu: usize,
    qau: usize,
    qd: nat,
    idx: int,
    c000: Amp,
    c001: Amp,
    c010: Amp,
    c011: Amp,
    c100: Amp,
    c101: Amp,
    c110: Amp,
    c111: Amp,
)
    requires
        (qsu as nat) < n,
        (qau as nat) < n,
        qd < n,
        (qsu as nat) != (qau as nat),
        (qsu as nat) != qd,
        (qau as nat) != qd,
    ensures
        ({
            let m1 = bit(idx, qsu as nat);
            let m2 = bit(idx, qau as nat);
            crate::measurement::collapse_seq(
                triple_state(
                    pow2(n) as int,
                    qsu as nat,
                    qau as nat,
                    qd,
                    c000,
                    c001,
                    c010,
                    c011,
                    c100,
                    c101,
                    c110,
                    c111,
                ),
                seq![qsu, qau],
                idx,
            ) == triple_state(
                pow2(n) as int,
                qsu as nat,
                qau as nat,
                qd,
                if !m1 && !m2 {
                    c000
                } else {
                    Amp::zero_spec()
                },
                if !m1 && !m2 {
                    c001
                } else {
                    Amp::zero_spec()
                },
                if !m1 && m2 {
                    c010
                } else {
                    Amp::zero_spec()
                },
                if !m1 && m2 {
                    c011
                } else {
                    Amp::zero_spec()
                },
                if m1 && !m2 {
                    c100
                } else {
                    Amp::zero_spec()
                },
                if m1 && !m2 {
                    c101
                } else {
                    Amp::zero_spec()
                },
                if m1 && m2 {
                    c110
                } else {
                    Amp::zero_spec()
                },
                if m1 && m2 {
                    c111
                } else {
                    Amp::zero_spec()
                },
            )
        }),
{
    let qs = qsu as nat;
    let qa = qau as nat;
    let len = pow2(n) as int;
    let m1 = bit(idx, qs);
    let m2 = bit(idx, qa);
    let qlist: Seq<usize> = seq![qsu, qau];
    let s = triple_state(len, qs, qa, qd, c000, c001, c010, c011, c100, c101, c110, c111);
    let t = crate::measurement::collapse_seq(s, qlist, idx);
    let u = triple_state(
        len,
        qs,
        qa,
        qd,
        if !m1 && !m2 {
            c000
        } else {
            Amp::zero_spec()
        },
        if !m1 && !m2 {
            c001
        } else {
            Amp::zero_spec()
        },
        if !m1 && m2 {
            c010
        } else {
            Amp::zero_spec()
        },
        if !m1 && m2 {
            c011
        } else {
            Amp::zero_spec()
        },
        if m1 && !m2 {
            c100
        } else {
            Amp::zero_spec()
        },
        if m1 && !m2 {
            c101
        } else {
            Amp::zero_spec()
        },
        if m1 && m2 {
            c110
        } else {
            Amp::zero_spec()
        },
        if m1 && m2 {
            c111
        } else {
            Amp::zero_spec()
        },
    );
    assert forall|k: int| 0 <= k < len implies t[k] == u[k] by {
        assert(qlist.len() == 2 && qlist[0] == qsu && qlist[1] == qau);
        if crate::measurement::matches_on(k, idx, qlist) {
            assert(bit(k, qs) == m1 && bit(k, qa) == m2);
        } else {
            assert(!(bit(k, qs) == m1 && bit(k, qa) == m2));
        }
    }
    assert(t =~= u);
}

/// The state teleportation leaves behind: the source and auxiliary
/// qubits are collapsed to the measured bits `(m1, m2)`, and the
/// destination qubit carries the source's original amplitude pair —
/// negated as a whole (a global phase) exactly when both measured bits
/// are 1.
pub open spec fn teleported_state(
    len: int,
    qs: nat,
    qa: nat,
    qd: nat,
    av: Amp,
    bv: Amp,
    m1: bool,
    m2: bool,
) -> Seq<Amp> {
    let fa = if m1 && m2 {
        Amp::neg_spec(av)
    } else {
        av
    };
    let fb = if m1 && m2 {
        Amp::neg_spec(bv)
    } else {
        bv
    };
    let z = Amp::zero_spec();
    triple_state(
        len,
        qs,
        qa,
        qd,
        if !m1 && !m2 {
            fa
        } else {
            z
        },
        if !m1 && !m2 {
            fb
        } else {
            z
        },
        if !m1 && m2 {
            fa
        } else {
            z
        },
        if !m1 && m2 {
            fb
        } else {
            z
        },
        if m1 && !m2 {
            fa
        } else {
            z
        },
        if m1 && !m2 {
            fb
        } else {
            z
        },
        if m1 && m2 {
            fa
        } else {
            z
        },
        if m1 && m2 {
            fb
        } else {
            z
        },
    )
}

/// Teleport the state of `src_qubit` onto `dest_qubit`, using `aux_qubit`
/// as the shared half of an entangled pair.  Starting from a product
/// state — source amplitudes `(a, b)`, auxiliary and destination ground —
/// the destination provably ends carrying `(a, b)` exactly, up to a
/// global sign, whatever the measurement draw.
#[verifier::rlimit(100)]
pub fn teleport<S: Simulation>(
    simulation: &mut S,
    src_qubit: usize,
    aux_qubit: usize,
    dest_qubit: usize,
)
    requires
        old(simulation).inv(),
        src_qubit < old(simulation).qubits(),
        aux_qubit < old(simulation).qubits(),
        dest_qubit < old(simulation).qubits(),
        src_qubit != aux_qubit,
        src_qubit != dest_qubit,
        aux_qubit != dest_qubit,
        4 * old(simulation).scale_p() <= norm_cap(),
        ({
            let len = pow2(old(simulation).qubits()) as int;
            let z = Amp::zero_spec();
            let av = old(simulation).state()[0];
            let bv = old(simulation).state()[pow2(src_qubit as nat) as int];
            &&& bounded(av, coord_limit())
            &&& bounded(bv, coord_limit())
            &&& old(simulation).state() == triple_state(
                len,
                src_qubit as nat,
                aux_qubit as nat,
                dest_qubit as nat,
                av,
                z,
                z,
                z,
                bv,
                z,
                z,
                z,
            )
        }),
    ensures
        final(simulation).inv(),
        final(simulation).qubits() == old(simulation).qubits(),
        exists|m1: bool, m2: bool|
            final(simulation).state() == teleported_state(
                pow2(old(simulation).qubits()) as int,
                src_qubit as nat,
                aux_qubit as nat,
                dest_qubit as nat,
                old(simulation).state()[0],
                old(simulation).state()[pow2(src_qubit as nat) as int],
                m1,
                m2,
            ),
{
    let ghost n = old(simulation).qubits();
    let ghost qs = src_qubit as nat;
    let ghost qa = aux_qubit as nat;
    let ghost qd = dest_qubit as nat;
    let ghost len = pow2(n) as int;
    let ghost z = Amp::zero_spec();
    let ghost av = old(simulation).state()[0];
    let ghost bv = old(simulation).state()[pow2(qs) as int];
    proof {
        lemma_amp_zero_ops(av);
        lemma_amp_zero_ops(bv);
        lemma_amp_zero_ops(Amp::neg_spec(bv));
        assert(Amp::add_spec(z, z) == z && Amp::sub_spec(z, z) == z) by {
            assert(z.a == 0 && z.b == 0 && z.c == 0 && z.d == 0);
        }
    }
    // Entangle the auxiliary and destination qubits.
    simulation.hadamard(aux_qubit);
    proof {
        lemma_triple_h_aux(n, qs, qa, qd, av, z, z, z, bv, z, z, z);
        assert(simulation.state() == triple_state(len, qs, qa, qd, av, z, av, z, bv, z, bv, z));
    }
    simulation.cnot(aux_qubit, dest_qubit);
    proof {
        lemma_triple_cnot_ad(n, qs, qa, qd, av, z, av, z, bv, z, bv, z);
        assert(simulation.state() == triple_state(len, qs, qa, qd, av, z, z, av, bv, z, z, bv));
    }
    // Bell-measure the source against the auxiliary qubit.
    simulation.cnot(src_qubit, aux_qubit);
    proof {
        lemma_triple_cnot_sa(n, qs, qa, qd, av, z, z, av, bv, z, z, bv);
        assert(simulation.state() == triple_state(len, qs, qa, qd, av, z, z, av, z, bv, bv, z));
    }
    simulation.hadamard(src_qubit);
    proof {
        lemma_triple_h_src(n, qs, qa, qd, av, z, z, av, z, bv, bv, z);
        assert(simulation.state() == triple_state(
            len,
            qs,
            qa,
            qd,
            av,
            bv,
            bv,
            av,
            av,
            Amp::neg_spec(bv),
            Amp::neg_spec(bv),
            av,
        ));
    }
    let ghost pre_measure = simulation.state();
    let mut to_measure: Vec<usize> = Vec::new();
    to_measure.push(src_qubit);
    to_measure.push(aux_qubit);
    proof {
        assert(to_measure@ =~= seq![src_qubit, aux_qubit]);
    }
    let measured_states = simulation.measure(to_measure);
    let first_bit = measured_states[0];
    let second_bit = measured_states[1];
    proof {
        let (u, idx) = choose|u: int, idx: int|
            {
                &&& 0 <= u < crate::measurement::draw_scale()
                &&& #[trigger] crate::measurement::is_sample(pre_measure, u, idx)
                &&& forall|j: int|
                    0 <= j < measured_states@.len() ==> measured_states@[j] == bit(
                        idx,
                        seq![src_qubit, aux_qubit][j] as nat,
                    )
            };
        assert(first_bit == bit(idx, qs) && second_bit == bit(idx, qa));
        lemma_triple_collapse(
            n,
            src_qubit,
            aux_qubit,
            qd,
            idx,
            av,
            bv,
            bv,
            av,
            av,
            Amp::neg_spec(bv),
            Amp::neg_spec(bv),
            av,
        );
        assert(simulation.state() == triple_state(
            len,
            qs,
            qa,
            qd,
            if !first_bit && !second_bit {
                av
            } else {
                z
            },
            if !first_bit && !second_bit {
                bv
            } else {
                z
            },
            if !first_bit && second_bit {
                bv
            } else {
                z
            },
            if !first_bit && second_bit {
                av
            } else {
                z
            },
            if first_bit && !second_bit {
                av
            } else {
                z
            },
            if first_bit && !second_bit {
                Amp::neg_spec(bv)
            } else {
                z
            },
            if first_bit && second_bit {
                Amp::neg_spec(bv)
            } else {
                z
            },
            if first_bit && second_bit {
                av
            } else {
                z
            },
        ));
    }
    if first_bit {
        simulation.pauli_z(dest_qubit);
        proof {
            if second_bit {
                lemma_triple_z_dest(n, qs, qa, qd, z, z, z, z, z, z, Amp::neg_spec(bv), av);
                assert(simulation.state() == triple_state(
                    len,
                    qs,
                    qa,
                    qd,
                    z,
                    z,
                    z,
                    z,
                    z,
                    z,
                    Amp::neg_spec(bv),
                    Amp::neg_spec(av),
                ));
            } else {
                lemma_triple_z_dest(n, qs, qa, qd, z, z, z, z, av, Amp::neg_spec(bv), z, z);
                assert(simulation.state() == triple_state(len, qs, qa, qd, z, z, z, z, av, bv, z, z));
            }
        }
    }
    if second_bit {
        simulation.pauli_x(dest_qubit);
        proof {
            if first_bit {
                lemma_triple_x_dest(
                    n,
                    qs,
                    qa,
                    qd,
                    z,
                    z,
                    z,
                    z,
                    z,
                    z,
                    Amp::neg_spec(bv),
                    Amp::neg_spec(av),
                );
                assert(simulation.state() == triple_state(
                    len,
                    qs,
                    qa,
                    qd,
                    z,
                    z,
                    z,
                    z,
                    z,
                    z,
                    Amp::neg_spec(av),
                    Amp::neg_spec(bv),
                ));
            } else {
                lemma_triple_x_dest(n, qs, qa, qd, z, z, bv, av, z, z, z, z);
                assert(simulation.state() == triple_state(len, qs, qa, qd, z, z, av, bv, z, z, z, z));
            }
        }
    }
    proof {
        let m1 = first_bit;
        let m2 = second_bit;
        if m1 {
            if m2 {
                assert(simulation.state() == teleported_state(len, qs, qa, qd, av, bv, m1, m2));
            } else {
                assert(simulation.state() == teleported_state(len, qs, qa, qd, av, bv, m1, m2));
            }
        } else {
            if m2 {
                assert(simulation.state() == teleported_state(len, qs, qa, qd, av, bv, m1, m2));
            } else {
                assert(simulation.state() == teleported_state(len, qs, qa, qd, av, bv, m1, m2));
            }
        }
    }
}

} // verus!
