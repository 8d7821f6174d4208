//! The engine's global guarantees, stated and proved once.
//!
//! Each gate's contract pins its state transition down exactly; this module
//! derives from them the properties a user of the simulator relies on:
//! exact normalization bookkeeping, self-inverse gates, determinism of
//! measurements on basis states, Bell-pair correlation, agreement of
//! partial and full measurement under one random draw, the Toffoli truth
//! table, and oracle correctness on definite inputs.

use crate::amplitude::{bounded, coord_limit, norm_p, norm_q, Amp};
use crate::encoding::{bit, flip, lemma_flip_other, lemma_flip_props};
use crate::gate::OneQubitGate;
use crate::measurement::{
    draw_scale, is_sample, lemma_sample_positive, sample_d, sample_e, selected,
};
use crate::norms::{lemma_sum_gnn, lemma_sum_subrange_split, lemma_sum_take_step, sum_p, sum_q};
use crate::oracle::{
    distinct_qubits, oracle_image, oracle_transform, toggle_bits,
};
use crate::root_two::{gnn, lemma_gnn_pos, lemma_pos2_neg, lemma_pos2_scale, pos2};
use crate::state_vector_init::basis_seq;
use crate::state_vector_simulation::{
    hadamard_transform, one_qubit_transform, toffoli_transform, QuantumSimulation,
};
use vstd::arithmetic::power2::{lemma_pow2_pos, pow2};
use vstd::prelude::*;

verus! {

/// Exact normalization: a well-formed simulation's stored norm pair is a
/// genuine squared magnitude and a strictly positive number, so the
/// implicitly normalized state always has total probability exactly 1.
/// Every public operation ensures well-formedness, so this holds after
/// every gate and measurement.
pub proof fn lemma_normalization(sim: QuantumSimulation)
    requires
        sim.wf(),
    ensures
        sum_p(sim.amplitudes@) == sim.norm_p_total as int,
        sum_q(sim.amplitudes@) == sim.norm_q_total as int,
        gnn(sim.norm_p_total as int, sim.norm_q_total as int),
        pos2(sim.norm_p_total as int, sim.norm_q_total as int),
{
    lemma_sum_gnn(sim.amplitudes@);
    lemma_gnn_pos(sim.norm_p_total as int, sim.norm_q_total as int);
}

/// Pauli-X is self-inverse: two applications restore the vector exactly.
pub proof fn lemma_pauli_x_self_inverse(s: Seq<Amp>, q: nat, n: nat)
    requires
        s.len() == pow2(n),
        q < n,
    ensures
        one_qubit_transform(
            OneQubitGate::PauliX,
            one_qubit_transform(OneQubitGate::PauliX, s, q),
            q,
        ) == s,
{
    let t1 = one_qubit_transform(OneQubitGate::PauliX, s, q);
    let t2 = one_qubit_transform(OneQubitGate::PauliX, t1, q);
    assert forall|k: int| 0 <= k < s.len() implies t2[k] == s[k] by {
        lemma_flip_props(k, q, n);
    }
    assert(t2 =~= s);
}

/// Pauli-Z is self-inverse.
pub proof fn lemma_pauli_z_self_inverse(s: Seq<Amp>, q: nat, n: nat)
    requires
        s.len() == pow2(n),
        q < n,
        forall|k: int| 0 <= k < s.len() ==> bounded(#[trigger] s[k], coord_limit()),
    ensures
        one_qubit_transform(
            OneQubitGate::PauliZ,
            one_qubit_transform(OneQubitGate::PauliZ, s, q),
            q,
        ) == s,
{
    let t1 = one_qubit_transform(OneQubitGate::PauliZ, s, q);
    let t2 = one_qubit_transform(OneQubitGate::PauliZ, t1, q);
    assert forall|k: int| 0 <= k < s.len() implies t2[k] == s[k] by {
        lemma_flip_props(k, q, n);
        if bit(k, q) {
            assert(t2[k] == Amp::neg_spec(Amp::neg_spec(s[k])));
        }
    }
    assert(t2 =~= s);
}

/// The vector with every amplitude doubled: the same physical state, one
/// implicit power of 2 further from unit scale.
pub open spec fn double_seq(s: Seq<Amp>) -> Seq<Amp> {
    Seq::new(s.len(), |k: int| Amp::add_spec(s[k], s[k]))
}

/// Hadamard is self-inverse up to the implicit normalization: applying it
/// twice doubles every stored amplitude, which represents the starting
/// physical state exactly (the scale pair quadruples alongside).
pub proof fn lemma_hadamard_self_inverse(s: Seq<Amp>, q: nat, n: nat)
    requires
        s.len() == pow2(n),
        q < n,
        forall|k: int| 0 <= k < s.len() ==> bounded(#[trigger] s[k], coord_limit()),
    ensures
        hadamard_transform(hadamard_transform(s, q), q) == double_seq(s),
{
    let t1 = hadamard_transform(s, q);
    let t2 = hadamard_transform(t1, q);
    assert forall|k: int| 0 <= k < s.len() implies t2[k] == double_seq(s)[k] by {
        lemma_flip_props(k, q, n);
        let f = flip(k, q);
        lemma_flip_props(f, q, n);
        if !bit(k, q) {
            assert(t1[k] == Amp::add_spec(s[k], s[f]));
            assert(t1[f] == Amp::sub_spec(s[k], s[f]));
            assert(t2[k] == Amp::add_spec(t1[k], t1[f]));
        } else {
            assert(t1[f] == Amp::add_spec(s[f], s[k]));
            assert(t1[k] == Amp::sub_spec(s[f], s[k]));
            assert(t2[k] == Amp::sub_spec(t1[f], t1[k]));
        }
    }
    assert(t2 =~= double_seq(s));
}

/// A state that is zero everywhere except one index is measured to that
/// index, whatever the random draw: prefix masses below it are zero (never
/// strictly above the drawn fraction) and its own cumulative mass is the
/// whole.
pub proof fn lemma_deterministic_sample(s: Seq<Amp>, u: int, idx: int, j: int)
    requires
        0 <= j < s.len(),
        forall|k: int| 0 <= k < s.len() && k != j ==> s[k] == Amp::zero_spec(),
        norm_p(s[j]) >= 1,
        sum_p(s) >= 1,
        0 <= u < draw_scale(),
        is_sample(s, u, idx),
    ensures
        idx == j,
{
    lemma_sum_gnn(s);
    // Cumulative sums below j are zero; from j on they are the total.
    assert forall|i: int| 0 <= i <= j implies sum_p(s.take(i)) == 0 && sum_q(s.take(i))
        == 0 by {
        lemma_zero_sums(s, j, i);
    }
    if idx < j {
        assert(selected(s, u, idx));
        assert(sum_p(s.take(idx + 1)) == 0 && sum_q(s.take(idx + 1)) == 0);
        lemma_not_selected_at_zero(s, u, idx);
    }
    if idx > j {
        // j itself is selected, contradicting minimality of idx.
        assert(!selected(s, u, j));
        assert(sum_p(s.take(j + 1)) == sum_p(s) && sum_q(s.take(j + 1)) == sum_q(s)) by {
            lemma_sum_take_step(s, j);
            lemma_tail_zero_sums(s, j);
        }
        let ds = draw_scale();
        let k = ds - u;
        let p = sum_p(s);
        let qq = sum_q(s);
        lemma_gnn_pos(p, qq);
        lemma_pos2_scale(p, qq, k);
        assert(k * p == ds * p - u * p && k * qq == ds * qq - u * qq) by (nonlinear_arith)
            requires
                k == ds - u,
        ;
        assert(sample_d(s, u, j) == ds * p - u * p);
        assert(sample_e(s, u, j) == ds * qq - u * qq);
        assert(selected(s, u, j));
    }
}


/// Norms of the two literal amplitudes.
pub proof fn lemma_unit_amp_norms()
    ensures
        norm_p(Amp::zero_spec()) == 0,
        norm_q(Amp::zero_spec()) == 0,
        norm_p(Amp::one_spec()) == 1,
        norm_q(Amp::one_spec()) == 0,
{
    let z = Amp::zero_spec();
    let o = Amp::one_spec();
    assert(z.a == 0 && z.b == 0 && z.c == 0 && z.d == 0);
    assert(o.a == 1 && o.b == 0 && o.c == 0 && o.d == 0);
    assert(norm_p(z) == 0);
    assert(norm_q(z) == 0);
    assert(norm_p(o) == 1);
    assert(norm_q(o) == 0);
}

/// Prefix sums of an all-zero-except-`j` vector vanish below `j`.
proof fn lemma_zero_sums(s: Seq<Amp>, j: int, i: int)
    requires
        0 <= i <= j < s.len(),
        forall|k: int| 0 <= k < s.len() && k != j ==> s[k] == Amp::zero_spec(),
    ensures
        sum_p(s.take(i)) == 0,
        sum_q(s.take(i)) == 0,
    decreases i,
{
    if i > 0 {
        lemma_zero_sums(s, j, i - 1);
        lemma_sum_take_step(s, i - 1);
        assert(s[i - 1] == Amp::zero_spec());
        lemma_unit_amp_norms();
    } else {
        assert(s.take(0).len() == 0);
    }
}

/// The mass beyond `j` in an all-zero-except-`j` vector is zero.
proof fn lemma_tail_zero_sums(s: Seq<Amp>, j: int)
    requires
        0 <= j < s.len(),
        forall|k: int| 0 <= k < s.len() && k != j ==> s[k] == Amp::zero_spec(),
    ensures
        sum_p(s.take(j + 1)) == sum_p(s),
        sum_q(s.take(j + 1)) == sum_q(s),
{
    let tail = s.subrange(j + 1, s.len() as int);
    assert forall|k: int| 0 <= k < tail.len() implies tail[k] == Amp::zero_spec() by {}
    lemma_all_zero_sums(tail);
    lemma_sum_subrange_split(s, 0, j + 1, s.len() as int);
    assert(s.subrange(0, j + 1) =~= s.take(j + 1));
    assert(s.subrange(0, s.len() as int) =~= s);
}

/// Sums of an all-zero vector vanish.
proof fn lemma_all_zero_sums(s: Seq<Amp>)
    requires
        forall|k: int| 0 <= k < s.len() ==> s[k] == Amp::zero_spec(),
    ensures
        sum_p(s) == 0,
        sum_q(s) == 0,
    decreases s.len(),
{
    if s.len() > 0 {
        lemma_all_zero_sums(s.drop_last());
        lemma_unit_amp_norms();
    }
}

/// At an index whose cumulative mass is still zero, the drawn fraction is
/// never exceeded.
proof fn lemma_not_selected_at_zero(s: Seq<Amp>, u: int, i: int)
    requires
        0 <= i < s.len(),
        sum_p(s.take(i + 1)) == 0,
        sum_q(s.take(i + 1)) == 0,
        sum_p(s) >= 1,
        0 <= u < draw_scale(),
    ensures
        !selected(s, u, i),
{
    lemma_sum_gnn(s);
    assert(sample_d(s, u, i) == -(u * sum_p(s)) && sample_e(s, u, i) == -(u * sum_q(s)))
        by (nonlinear_arith)
        requires
            sum_p(s.take(i + 1)) == 0,
            sum_q(s.take(i + 1)) == 0,
            sample_d(s, u, i) == draw_scale() * sum_p(s.take(i + 1)) - u * sum_p(s),
            sample_e(s, u, i) == draw_scale() * sum_q(s.take(i + 1)) - u * sum_q(s),
    ;
    if u == 0 {
        assert(sample_d(s, u, i) == 0 && sample_e(s, u, i) == 0) by (nonlinear_arith)
            requires
                sample_d(s, u, i) == -(u * sum_p(s)),
                sample_e(s, u, i) == -(u * sum_q(s)),
                u == 0,
        ;
        assert(!pos2(0, 0));
    } else {
        lemma_gnn_pos(sum_p(s), sum_q(s));
        lemma_pos2_scale(sum_p(s), sum_q(s), u);
        lemma_pos2_neg(u * sum_p(s), u * sum_q(s));
    }
}

/// Measuring a freshly reset register yields all-false, for every draw:
/// the ground state is a basis state, so its measurement is certain.
pub proof fn lemma_ground_measurement(n: nat, u: int, idx: int)
    requires
        n >= 1,
        0 <= u < draw_scale(),
        is_sample(basis_seq(pow2(n) as int, 0), u, idx),
    ensures
        idx == 0,
        forall|j: nat| !bit(0, j),
{
    let s = basis_seq(pow2(n) as int, 0);
    lemma_pow2_pos(n);
    crate::state_vector_init::lemma_basis_norm(pow2(n) as int, 0);
    lemma_unit_amp_norms();
    lemma_deterministic_sample(s, u, idx, 0);
    assert forall|j: nat| !bit(0, j) by {
        lemma_pow2_pos(j);
        assert(0int / (pow2(j) as int) == 0) by {
            vstd::arithmetic::div_mod::lemma_basic_div(0, pow2(j) as int);
        }
    }
}

/// Any basis state measures to its own index, for every draw.
pub proof fn lemma_basis_measurement(len: int, v: int, u: int, idx: int)
    requires
        0 <= v < len,
        0 <= u < draw_scale(),
        is_sample(basis_seq(len, v), u, idx),
    ensures
        idx == v,
{
    crate::state_vector_init::lemma_basis_norm(len, v);
    lemma_unit_amp_norms();
    lemma_deterministic_sample(basis_seq(len, v), u, idx, v);
}

/// One draw, one sample: the inverse-CDF search has a unique answer, so
/// simulations that share a state and a draw agree on the sampled index —
/// and therefore partial and full measurements agree on every overlapping
/// qubit.
pub proof fn lemma_sample_unique(s: Seq<Amp>, u: int, i1: int, i2: int)
    requires
        is_sample(s, u, i1),
        is_sample(s, u, i2),
    ensures
        i1 == i2,
{
    if i1 < i2 {
        assert(selected(s, u, i1));
        assert(!selected(s, u, i1));
    }
    if i2 < i1 {
        assert(selected(s, u, i2));
        assert(!selected(s, u, i2));
    }
}


/// Cross-consistency of partial and full measurement: from one state and
/// one random draw, a full measurement and any partial measurement sample
/// the same basis index, so their outcomes agree on every qubit they
/// share.
pub proof fn lemma_measurement_consistency(
    s: Seq<Amp>,
    u: int,
    full_idx: int,
    part_idx: int,
    qs: Seq<usize>,
    j: int,
)
    requires
        is_sample(s, u, full_idx),
        is_sample(s, u, part_idx),
        0 <= j < qs.len(),
    ensures
        bit(part_idx, qs[j] as nat) == bit(full_idx, qs[j] as nat),
{
    lemma_sample_unique(s, u, full_idx, part_idx);
}

/// The Toffoli gate permutes basis states by its truth table: the target
/// bit flips exactly when both control bits are 1.
pub proof fn lemma_toffoli_on_basis(len: int, v: int, q0: nat, q1: nat, q2: nat, n: nat)
    requires
        len == pow2(n),
        0 <= v < len,
        q0 < n,
        q1 < n,
        q2 < n,
        q0 != q1,
        q0 != q2,
        q1 != q2,
    ensures
        toffoli_transform(basis_seq(len, v), q0, q1, q2) == basis_seq(
            len,
            if bit(v, q0) && bit(v, q1) {
                flip(v, q2)
            } else {
                v
            },
        ),
{
    let s = basis_seq(len, v);
    let w: int = if bit(v, q0) && bit(v, q1) {
        flip(v, q2)
    } else {
        v
    };
    lemma_flip_props(v, q2, n);
    lemma_flip_other(v, q2, q0, n);
    lemma_flip_other(v, q2, q1, n);
    let t = toffoli_transform(s, q0, q1, q2);
    assert forall|k: int| 0 <= k < len implies t[k] == basis_seq(len, w)[k] by {
        lemma_flip_props(k, q2, n);
        lemma_flip_other(k, q2, q0, n);
        lemma_flip_other(k, q2, q1, n);
        if bit(k, q0) && bit(k, q1) {
            assert(t[k] == s[flip(k, q2)]);
        } else {
            assert(t[k] == s[k]);
        }
    }
    assert(t =~= basis_seq(len, w));
}

/// The oracle permutes basis states: on a definite input it toggles the
/// answer bits by exactly the table entry of that input's pattern.
pub proof fn lemma_oracle_on_basis(
    len: int,
    v: int,
    ins: Seq<usize>,
    outs: Seq<usize>,
    table: Seq<u64>,
    n: nat,
)
    requires
        len == pow2(n),
        0 <= v < len,
        forall|j: int| 0 <= j < ins.len() ==> #[trigger] ins[j] < n,
        distinct_qubits(outs, n as int),
        crate::oracle::disjoint_qubits(ins, outs),
        table.len() == pow2(ins.len() as nat),
    ensures
        oracle_transform(basis_seq(len, v), ins, outs, table) == basis_seq(
            len,
            oracle_image(v, ins, outs, table),
        ),
{
    let s = basis_seq(len, v);
    let w = oracle_image(v, ins, outs, table);
    crate::oracle::lemma_oracle_image_props(v, ins, outs, table, n);
    let t = oracle_transform(s, ins, outs, table);
    assert forall|k: int| 0 <= k < len implies t[k] == basis_seq(len, w)[k] by {
        crate::oracle::lemma_oracle_image_props(k, ins, outs, table, n);
        assert(t[k] == s[oracle_image(k, ins, outs, table)]);
        if k == w {
            assert(oracle_image(w, ins, outs, table) == v);
        } else {
            if oracle_image(k, ins, outs, table) == v {
                assert(oracle_image(v, ins, outs, table) == k);
                assert(k == w);
            }
        }
    }
    assert(t =~= basis_seq(len, w));
}


/// Where the SWAP gate sends a basis index: the two targeted bits change
/// places.
pub open spec fn swap_image(k: int, q0: nat, q1: nat) -> int {
    if bit(k, q0) == bit(k, q1) {
        k
    } else {
        flip(flip(k, q0), q1)
    }
}

/// The SWAP transform reads each index from its bit-swapped partner.
proof fn lemma_swap_value(s: Seq<Amp>, q0: nat, q1: nat, n: nat, k: int)
    requires
        s.len() == pow2(n),
        q0 < n,
        q1 < n,
        q0 != q1,
        0 <= k < s.len(),
    ensures
        crate::state_vector_simulation::two_qubit_transform(
            crate::gate::TwoQubitGate::SwapGate,
            s,
            q0,
            q1,
        )[k] == s[swap_image(k, q0, q1)],
        0 <= swap_image(k, q0, q1) < s.len(),
        swap_image(swap_image(k, q0, q1), q0, q1) == k,
{
    crate::encoding::lemma_base2_props(k, q0, q1, n);
    let m0 = pow2(q0) as int;
    let m1 = pow2(q1) as int;
    let b = crate::encoding::base2(k, q0, q1);
    if bit(k, q0) != bit(k, q1) {
        lemma_flip_props(k, q0, n);
        lemma_flip_other(k, q0, q1, n);
        lemma_flip_props(flip(k, q0), q1, n);
        lemma_flip_other(flip(k, q0), q1, q0, n);
        if bit(k, q0) {
            assert(k == b + m0);
            assert(flip(k, q0) == b);
            assert(flip(b, q1) == b + m1);
            assert(swap_image(k, q0, q1) == b + m1);
        } else {
            assert(k == b + m1);
            assert(flip(k, q0) == b + m0 + m1);
            assert(flip(b + m0 + m1, q1) == b + m0);
            assert(swap_image(k, q0, q1) == b + m0);
        }
    }
}

/// SWAP is self-inverse: two applications restore the vector exactly.
pub proof fn lemma_swap_self_inverse(s: Seq<Amp>, q0: nat, q1: nat, n: nat)
    requires
        s.len() == pow2(n),
        q0 < n,
        q1 < n,
        q0 != q1,
    ensures
        crate::state_vector_simulation::two_qubit_transform(
            crate::gate::TwoQubitGate::SwapGate,
            crate::state_vector_simulation::two_qubit_transform(
                crate::gate::TwoQubitGate::SwapGate,
                s,
                q0,
                q1,
            ),
            q0,
            q1,
        ) == s,
{
    let t1 = crate::state_vector_simulation::two_qubit_transform(
        crate::gate::TwoQubitGate::SwapGate,
        s,
        q0,
        q1,
    );
    let t2 = crate::state_vector_simulation::two_qubit_transform(
        crate::gate::TwoQubitGate::SwapGate,
        t1,
        q0,
        q1,
    );
    assert forall|k: int| 0 <= k < s.len() implies t2[k] == s[k] by {
        lemma_swap_value(t1, q0, q1, n, k);
        lemma_swap_value(s, q0, q1, n, swap_image(k, q0, q1));
    }
    assert(t2 =~= s);
}

/// Which answer bit a toggle leaves behind: the prior value XOR the
/// matching bit of the packed entry.
pub proof fn lemma_toggle_readout(k: int, outs: Seq<usize>, e: int, n: nat, j: int)
    requires
        0 <= k < pow2(n),
        distinct_qubits(outs, n as int),
        0 <= j < outs.len(),
    ensures
        bit(toggle_bits(k, outs, e), outs[j] as nat) == (bit(k, outs[j] as nat) != bit(
            e,
            j as nat,
        )),
    decreases outs.len(),
{
    let outs1 = outs.drop_last();
    let t1 = toggle_bits(k, outs1, e);
    crate::oracle::lemma_toggle_range_pub(k, outs1, e, n);
    if j == outs.len() - 1 {
        crate::oracle::lemma_toggle_other_pub(k, outs1, e, n, outs[j] as nat);
        if bit(e, (outs.len() - 1) as nat) {
            lemma_flip_props(t1, outs.last() as nat, n);
        }
    } else {
        lemma_toggle_readout(k, outs1, e, n, j);
        if bit(e, (outs.len() - 1) as nat) {
            lemma_flip_other(t1, outs.last() as nat, outs[j] as nat, n);
        }
    }
}

/// Oracle correctness on a definite input: starting from the basis state
/// `v`, applying the oracle and measuring (with any draw) reads, on each
/// answer qubit, the prior answer bit XOR the oracle's table bit for
/// `v`'s input pattern.  With answer qubits prepared at 0, that is exactly
/// the boolean function's output.
pub proof fn lemma_oracle_definite_input(
    len: int,
    v: int,
    ins: Seq<usize>,
    outs: Seq<usize>,
    table: Seq<u64>,
    n: nat,
    u: int,
    idx: int,
    j: int,
)
    requires
        len == pow2(n),
        0 <= v < len,
        forall|t: int| 0 <= t < ins.len() ==> #[trigger] ins[t] < n,
        distinct_qubits(outs, n as int),
        crate::oracle::disjoint_qubits(ins, outs),
        table.len() == pow2(ins.len() as nat),
        0 <= u < draw_scale(),
        0 <= j < outs.len(),
        is_sample(oracle_transform(basis_seq(len, v), ins, outs, table), u, idx),
    ensures
        bit(idx, outs[j] as nat) == (bit(v, outs[j] as nat) != bit(
            table[crate::oracle::input_pattern(v, ins)] as int,
            j as nat,
        )),
{
    lemma_oracle_on_basis(len, v, ins, outs, table, n);
    let w = oracle_image(v, ins, outs, table);
    crate::oracle::lemma_oracle_image_props(v, ins, outs, table, n);
    lemma_basis_measurement(len, w, u, idx);
    lemma_toggle_readout(v, outs, table[crate::oracle::input_pattern(v, ins)] as int, n, j);
}



/// Norms of the doubled real amplitudes.
pub proof fn lemma_amp_two_norms()
    ensures
        norm_p(crate::amplitude::amp_re(2i64)) == 4,
        norm_p(crate::amplitude::amp_re(-2i64)) == 4,
{
    let p = crate::amplitude::amp_re(2i64);
    let m = crate::amplitude::amp_re(-2i64);
    assert(p.a == 2 && p.b == 0 && p.c == 0 && p.d == 0);
    assert(m.a == -2 && m.b == 0 && m.c == 0 && m.d == 0);
    assert(norm_p(p) == 4);
    assert(norm_p(m) == 4);
}

/// The Bell state of two qubits, as stored: equal amplitudes on `|00>`
/// and `|11>`, none elsewhere (implicit scale `sqrt(2)`).
pub open spec fn bell_seq() -> Seq<Amp> {
    seq![Amp::one_spec(), Amp::zero_spec(), Amp::zero_spec(), Amp::one_spec()]
}

/// Everything about two-qubit basis indices, by direct evaluation.
pub proof fn lemma_two_qubit_index_facts()
    ensures
        pow2(0) == 1,
        pow2(1) == 2,
        pow2(2) == 4,
        !bit(0, 0) && !bit(0, 1),
        bit(1, 0) && !bit(1, 1),
        !bit(2, 0) && bit(2, 1),
        bit(3, 0) && bit(3, 1),
        flip(0, 0) == 1 && flip(1, 0) == 0 && flip(2, 0) == 3 && flip(3, 0) == 2,
        flip(0, 1) == 2 && flip(1, 1) == 3 && flip(2, 1) == 0 && flip(3, 1) == 1,
        crate::encoding::base2(0, 0, 1) == 0 && crate::encoding::base2(1, 0, 1) == 0
            && crate::encoding::base2(2, 0, 1) == 0 && crate::encoding::base2(3, 0, 1) == 0,
{
    vstd::arithmetic::power2::lemma2_to64();
}

/// A Hadamard then a CNOT take the two-qubit ground state to the Bell
/// state.
pub proof fn lemma_bell_preparation()
    ensures
        crate::state_vector_simulation::two_qubit_transform(
            crate::gate::TwoQubitGate::Cnot,
            hadamard_transform(basis_seq(4, 0), 0),
            0,
            1,
        ) == bell_seq(),
{
    lemma_two_qubit_index_facts();
    let s0 = basis_seq(4, 0);
    let h = hadamard_transform(s0, 0);
    assert(h[0] == Amp::add_spec(s0[0], s0[1]));
    assert(h[1] == Amp::sub_spec(s0[0], s0[1]));
    assert(h[2] == Amp::add_spec(s0[2], s0[3]));
    assert(h[3] == Amp::sub_spec(s0[2], s0[3]));
    assert(h =~= seq![Amp::one_spec(), Amp::one_spec(), Amp::zero_spec(), Amp::zero_spec()]);
    let t = crate::state_vector_simulation::two_qubit_transform(
        crate::gate::TwoQubitGate::Cnot,
        h,
        0,
        1,
    );
    assert(t[0] == h[0]);
    assert(t[1] == h[3]);
    assert(t[2] == h[2]);
    assert(t[3] == h[1]);
    assert(t =~= bell_seq());
}

/// Bell-state correlation: whatever the draw, measuring the Bell state
/// gives two equal bits — `|01>` and `|10>` carry no probability mass.
pub proof fn lemma_bell_correlation(u: int, idx: int)
    requires
        0 <= u < draw_scale(),
        is_sample(bell_seq(), u, idx),
    ensures
        bit(idx, 0) == bit(idx, 1),
{
    lemma_two_qubit_index_facts();
    lemma_unit_amp_norms();
    let b = bell_seq();
    assert(sum_p(b) >= 1) by {
        crate::norms::lemma_sum_element(b, 0);
        lemma_sum_gnn(b);
    }
    lemma_sample_positive(b, u, idx);
    assert(0 <= idx < 4);
    if idx == 1 || idx == 2 {
        assert(norm_p(b[idx]) == 0);
    }
}

} // verus!
