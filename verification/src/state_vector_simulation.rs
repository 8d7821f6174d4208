//! Dense state-vector simulation backend.
//!
//! The joint state of `qubit_count` qubits is the vector `amplitudes` of
//! `2^qubit_count` exact amplitudes, read as implicitly normalized: the
//! physical state is the stored vector divided by the square root of its
//! total squared magnitude.  That total is kept exactly in the pair
//! `(norm_p_total, norm_q_total)`, meaning `norm_p_total +
//! norm_q_total*sqrt(2)`, and the well-formedness invariant ties it to the
//! vector after every operation — the exact form of the Born-rule
//! normalization guarantee.
//!
//! Memory is `O(2^qubit_count)` and every gate pass is one sweep over the
//! vector, so the construction ceiling is kept at 20 qubits: far below the
//! 32 that the 64-bit basis encoding itself would allow, and comfortable
//! for the textbook algorithms this engine drives.

use crate::amplitude::{bounded, coord_limit, lemma_coord_bound, norm_p, Amp};
use crate::encoding::{
    base2, base3, bit, flip, lemma_base2_props, lemma_base3_props, lemma_bit_compose,
    lemma_flip_props, pow2_usize,
};
use crate::gate::{
    apply_gate1, apply_gate2, gate1_out0, gate1_out1, gate2_out, lemma_gate1_norm,
    lemma_gate2_norm, OneQubitGate, TwoQubitGate,
};
use crate::norms::{
    lemma_sum_element, lemma_sum_gnn, lemma_sum_subrange_split, lemma_sum_subrange_step,
    lemma_sum_update, sum_p, sum_q,
};
use crate::random::rng_from_seed;
use crate::state_vector_init::{basis_seq, get_ground_state_amplitudes, lemma_basis_norm};
use rand::rngs::StdRng;
use vstd::arithmetic::power2::{lemma2_to64, lemma_pow2_adds, lemma_pow2_pos, pow2};
use vstd::prelude::*;

verus! {

/// Largest supported qubit count.
pub const MAX_QUBIT_COUNT: usize = 20;

/// Cap on the integer part of the total squared magnitude.  Keeping the
/// total under `2^29` bounds every amplitude coordinate by `sqrt(2^29)`,
/// which keeps all gate arithmetic and the sampling comparisons inside
/// `i64` and `i128`.
pub open spec fn norm_cap() -> int {
    0x2000_0000
}

/// The dense state-vector simulation of a register of qubits, with its
/// seeded random source for measurements.
pub struct QuantumSimulation {
    pub qubit_count: usize,
    pub amplitudes: Vec<Amp>,
    pub norm_p_total: i64,
    pub norm_q_total: i64,
    pub rng: StdRng,
}

impl QuantumSimulation {
    /// Well-formedness: the vector has length `2^qubit_count`, and the
    /// stored norm pair is exactly its total squared magnitude, positive
    /// and under the cap.
    pub open spec fn wf(self) -> bool {
        &&& 1 <= self.qubit_count <= MAX_QUBIT_COUNT
        &&& self.amplitudes@.len() == pow2(self.qubit_count as nat)
        &&& self.norm_p_total as int == sum_p(self.amplitudes@)
        &&& self.norm_q_total as int == sum_q(self.amplitudes@)
        &&& 1 <= self.norm_p_total as int <= norm_cap()
    }
}

/// Any element of a vector whose total squared magnitude is under the cap
/// has all coordinates bounded well inside the ring operations' headroom.
pub proof fn lemma_element_bounds(s: Seq<Amp>, i: int)
    requires
        0 <= i < s.len(),
        sum_p(s) <= norm_cap(),
    ensures
        bounded(s[i], 0x5a83),
        bounded(s[i], coord_limit()),
        bounded(s[i], 0x20_0000),
{
    lemma_sum_element(s, i);
    assert(norm_p(s[i]) <= 0x5a83 * 0x5a83);
    lemma_coord_bound(s[i], 0x5a83);
}

/// The state after a rotation-like 1-qubit gate on qubit `q`: each index
/// pairs with its bit-`q` partner, and each such pair is rewritten.
pub open spec fn one_qubit_transform(g: OneQubitGate, s: Seq<Amp>, q: nat) -> Seq<Amp> {
    Seq::new(s.len(), |k: int| if !bit(k, q) {
        gate1_out0(g, s[k], s[flip(k, q)])
    } else {
        gate1_out1(g, s[flip(k, q)], s[k])
    })
}

/// Mid-sweep state of the applicator: pairs whose low index is below
/// `upto` are rewritten, the rest still hold their old amplitudes.
spec fn one_qubit_mid(g: OneQubitGate, s: Seq<Amp>, q: nat, upto: int, k: int) -> Amp {
    if !bit(k, q) {
        if k < upto {
            gate1_out0(g, s[k], s[flip(k, q)])
        } else {
            s[k]
        }
    } else {
        if flip(k, q) < upto {
            gate1_out1(g, s[flip(k, q)], s[k])
        } else {
            s[k]
        }
    }
}


/// The state after a Hadamard on qubit `q`, up to the implicit global
/// `1/sqrt(2)`: each bit-0 index takes the sum of its pair, each bit-1
/// index the difference.
pub open spec fn hadamard_transform(s: Seq<Amp>, q: nat) -> Seq<Amp> {
    Seq::new(s.len(), |k: int| if !bit(k, q) {
        Amp::add_spec(s[k], s[flip(k, q)])
    } else {
        Amp::sub_spec(s[flip(k, q)], s[k])
    })
}

/// Mid-sweep state of the Hadamard applicator.
spec fn hadamard_mid(s: Seq<Amp>, q: nat, upto: int, k: int) -> Amp {
    if !bit(k, q) {
        if k < upto {
            Amp::add_spec(s[k], s[flip(k, q)])
        } else {
            s[k]
        }
    } else {
        if flip(k, q) < upto {
            Amp::sub_spec(s[flip(k, q)], s[k])
        } else {
            s[k]
        }
    }
}

/// Paired prefix of one Hadamard block: the first `j` pairs of the block
/// starting at `2m * bigb` carry twice the squared magnitude they did.
proof fn lemma_hadamard_pairs(s: Seq<Amp>, q: nat, n: nat, bigb: int, j: int)
    requires
        s.len() == pow2(n),
        q < n,
        bigb >= 0,
        0 <= j <= pow2(q),
        2 * pow2(q) * bigb + 2 * pow2(q) <= s.len(),
        forall|k: int| 0 <= k < s.len() ==> bounded(#[trigger] s[k], coord_limit()),
    ensures
        ({
            let m = pow2(q) as int;
            let base = 2 * m * bigb;
            let t = hadamard_transform(s, q);
            &&& sum_p(t.subrange(base, base + j)) + sum_p(
                t.subrange(base + m, base + m + j),
            ) == 2 * sum_p(s.subrange(base, base + j)) + 2 * sum_p(
                s.subrange(base + m, base + m + j),
            )
            &&& sum_q(t.subrange(base, base + j)) + sum_q(
                t.subrange(base + m, base + m + j),
            ) == 2 * sum_q(s.subrange(base, base + j)) + 2 * sum_q(
                s.subrange(base + m, base + m + j),
            )
        }),
    decreases j,
{
    let m = pow2(q) as int;
    let base = 2 * m * bigb;
    let t = hadamard_transform(s, q);
    lemma_pow2_pos(q);
    assert(base >= 0) by (nonlinear_arith)
        requires
            bigb >= 0,
            m > 0,
            base == 2 * m * bigb,
    ;
    if j == 0 {
        assert(t.subrange(base, base).len() == 0);
        assert(t.subrange(base + m, base + m).len() == 0);
        assert(s.subrange(base, base).len() == 0);
        assert(s.subrange(base + m, base + m).len() == 0);
    } else {
        lemma_hadamard_pairs(s, q, n, bigb, j - 1);
        let idx0 = base + j - 1;
        let idx1 = base + m + j - 1;
        lemma_bit_compose(bigb, 0, j - 1, q);
        lemma_bit_compose(bigb, 1, j - 1, q);
        assert(!bit(idx0, q) && flip(idx0, q) == idx1);
        assert(bit(idx1, q) && flip(idx1, q) == idx0);
        assert(t[idx0] == Amp::add_spec(s[idx0], s[idx1]));
        assert(t[idx1] == Amp::sub_spec(s[idx0], s[idx1]));
        crate::amplitude::lemma_hadamard_pair_norm(s[idx0], s[idx1]);
        lemma_sum_subrange_step(t, base, idx0);
        lemma_sum_subrange_step(t, base + m, idx1);
        lemma_sum_subrange_step(s, base, idx0);
        lemma_sum_subrange_step(s, base + m, idx1);
    }
}

/// The first `bigb` blocks of the Hadamard sweep carry twice the squared
/// magnitude they did.
proof fn lemma_hadamard_blocks(s: Seq<Amp>, q: nat, n: nat, bigb: int)
    requires
        s.len() == pow2(n),
        q < n,
        bigb >= 0,
        2 * pow2(q) * bigb <= s.len(),
        forall|k: int| 0 <= k < s.len() ==> bounded(#[trigger] s[k], coord_limit()),
    ensures
        ({
            let m = pow2(q) as int;
            let t = hadamard_transform(s, q);
            &&& sum_p(t.subrange(0, 2 * m * bigb)) == 2 * sum_p(s.subrange(0, 2 * m * bigb))
            &&& sum_q(t.subrange(0, 2 * m * bigb)) == 2 * sum_q(s.subrange(0, 2 * m * bigb))
        }),
    decreases bigb,
{
    let m = pow2(q) as int;
    let t = hadamard_transform(s, q);
    lemma_pow2_pos(q);
    if bigb == 0 {
        assert(2 * m * bigb == 0) by (nonlinear_arith)
            requires
                bigb == 0,
        ;
        assert(t.subrange(0, 0).len() == 0);
        assert(s.subrange(0, 0).len() == 0);
    } else {
        let mid = 2 * m * (bigb - 1);
        let hi = 2 * m * bigb;
        assert(mid + 2 * m == hi && mid >= 0) by (nonlinear_arith)
            requires
                m > 0,
                bigb >= 1,
                mid == 2 * m * (bigb - 1),
                hi == 2 * m * bigb,
        ;
        assert(2 * m * (bigb - 1) + 2 * m == 2 * m * bigb) by (nonlinear_arith);
        lemma_hadamard_blocks(s, q, n, bigb - 1);
        lemma_hadamard_pairs(s, q, n, bigb - 1, m);
        assert(sum_p(t.subrange(mid, mid + m)) + sum_p(t.subrange(mid + m, mid + m + m)) == 2
            * sum_p(s.subrange(mid, mid + m)) + 2 * sum_p(s.subrange(mid + m, mid + m + m)));
        assert(mid + m + m == hi);
        lemma_sum_subrange_split(t, mid, mid + m, hi);
        lemma_sum_subrange_split(s, mid, mid + m, hi);
        assert(sum_p(t.subrange(mid, hi)) == 2 * sum_p(s.subrange(mid, hi)));
        assert(sum_q(t.subrange(mid, hi)) == 2 * sum_q(s.subrange(mid, hi)));
        lemma_sum_subrange_split(t, 0, mid, hi);
        lemma_sum_subrange_split(s, 0, mid, hi);
    }
}

/// A Hadamard sweep doubles the total squared magnitude: the stored vector
/// grows by exactly the square of the implicit `sqrt(2)`.
pub proof fn lemma_hadamard_transform_norm(s: Seq<Amp>, q: nat, n: nat)
    requires
        s.len() == pow2(n),
        q < n,
        forall|k: int| 0 <= k < s.len() ==> bounded(#[trigger] s[k], coord_limit()),
    ensures
        sum_p(hadamard_transform(s, q)) == 2 * sum_p(s),
        sum_q(hadamard_transform(s, q)) == 2 * sum_q(s),
{
    let m = pow2(q) as int;
    let t = hadamard_transform(s, q);
    let bigb = pow2((n - q - 1) as nat) as int;
    lemma_pow2_pos(q);
    lemma_pow2_pos((n - q - 1) as nat);
    lemma_pow2_adds((q + 1) as nat, (n - q - 1) as nat);
    lemma_pow2_adds(q, 1);
    lemma2_to64();
    assert(pow2(n) as int == 2 * m * bigb) by {
        assert(pow2(n) == pow2((q + 1) as nat) * pow2((n - q - 1) as nat));
        assert(pow2((q + 1) as nat) == pow2(q) * 2);
        assert((pow2(q) * 2) * bigb == 2 * (pow2(q) as int) * bigb) by (nonlinear_arith);
    }
    lemma_hadamard_blocks(s, q, n, bigb);
    assert(t.subrange(0, 2 * m * bigb) =~= t);
    assert(s.subrange(0, 2 * m * bigb) =~= s);
}



/// The amplitude that a 2-qubit gate leaves at index `k`: it rewrites
/// the 4-tuple of `k`'s group, addressed from the group's representative.
pub open spec fn two_qubit_value(g: TwoQubitGate, s: Seq<Amp>, q0: nat, q1: nat, k: int) -> Amp {
    let m0 = pow2(q0) as int;
    let m1 = pow2(q1) as int;
    let b = base2(k, q0, q1);
    let out = gate2_out(g, s[b], s[b + m0], s[b + m1], s[b + m0 + m1]);
    if !bit(k, q0) && !bit(k, q1) {
        out.0
    } else if bit(k, q0) && !bit(k, q1) {
        out.1
    } else if !bit(k, q0) {
        out.2
    } else {
        out.3
    }
}

/// The state after a 2-qubit gate on qubits `(q0, q1)`.
pub open spec fn two_qubit_transform(g: TwoQubitGate, s: Seq<Amp>, q0: nat, q1: nat) -> Seq<
    Amp,
> {
    Seq::new(s.len(), |k: int| two_qubit_value(g, s, q0, q1, k))
}

/// Mid-sweep state of the 2-qubit applicator: groups whose representative
/// is below `upto` are rewritten.
spec fn two_qubit_mid(g: TwoQubitGate, s: Seq<Amp>, q0: nat, q1: nat, upto: int, k: int) -> Amp {
    if base2(k, q0, q1) < upto {
        two_qubit_value(g, s, q0, q1, k)
    } else {
        s[k]
    }
}


/// The amplitude the Toffoli gate leaves at index `k`: the target bit
/// `q2` flips exactly where both controls `q0`, `q1` are 1.
pub open spec fn toffoli_value(s: Seq<Amp>, q0: nat, q1: nat, q2: nat, k: int) -> Amp {
    if bit(k, q0) && bit(k, q1) {
        s[flip(k, q2)]
    } else {
        s[k]
    }
}

/// The state after a Toffoli gate with controls `q0`, `q1` and target `q2`.
pub open spec fn toffoli_transform(s: Seq<Amp>, q0: nat, q1: nat, q2: nat) -> Seq<Amp> {
    Seq::new(s.len(), |k: int| toffoli_value(s, q0, q1, q2, k))
}

/// Mid-sweep state of the Toffoli applicator.
spec fn toffoli_mid(s: Seq<Amp>, q0: nat, q1: nat, q2: nat, upto: int, k: int) -> Amp {
    if base3(k, q0, q1, q2) < upto {
        toffoli_value(s, q0, q1, q2, k)
    } else {
        s[k]
    }
}

impl QuantumSimulation {
    /// Construct a simulation of `qubit_count` qubits in the ground state,
    /// with a random source seeded by `rnd_seed`.
    pub fn new(qubit_count: usize, rnd_seed: u64) -> (r: QuantumSimulation)
        requires
            1 <= qubit_count <= MAX_QUBIT_COUNT,
        ensures
            r.wf(),
            r.qubit_count == qubit_count,
            r.amplitudes@ == basis_seq(pow2(qubit_count as nat) as int, 0),
    {
        let mut simulation = QuantumSimulation {
            qubit_count,
            amplitudes: Vec::new(),
            norm_p_total: 1,
            norm_q_total: 0,
            rng: rng_from_seed(rnd_seed),
        };
        simulation.reset();
        simulation
    }

    /// Reinitialize to the ground state, preserving the qubit count and
    /// the random source's progression.
    pub fn reset(&mut self)
        requires
            1 <= old(self).qubit_count <= MAX_QUBIT_COUNT,
        ensures
            final(self).wf(),
            final(self).qubit_count == old(self).qubit_count,
            final(self).amplitudes@ == basis_seq(pow2(old(self).qubit_count as nat) as int, 0),
            final(self).norm_p_total == 1,
            final(self).norm_q_total == 0,
            final(self).rng == old(self).rng,
    {
        self.amplitudes = get_ground_state_amplitudes(self.qubit_count);
        self.norm_p_total = 1;
        self.norm_q_total = 0;
        proof {
            lemma_pow2_pos(self.qubit_count as nat);
            lemma_basis_norm(pow2(self.qubit_count as nat) as int, 0);
        }
    }

    /// One sweep of a rotation-like 1-qubit gate over the vector: visit
    /// every index whose bit `qubit_number` is 0, gather it with its
    /// partner, and rewrite the pair.  Each index is touched exactly once,
    /// and the total squared magnitude is unchanged.
    fn apply_one_qubit_gate(&mut self, g: OneQubitGate, qubit_number: usize)
        requires
            old(self).wf(),
            qubit_number < old(self).qubit_count,
        ensures
            final(self).wf(),
            final(self).qubit_count == old(self).qubit_count,
            final(self).norm_p_total == old(self).norm_p_total,
            final(self).norm_q_total == old(self).norm_q_total,
            final(self).rng == old(self).rng,
            final(self).amplitudes@ == one_qubit_transform(
                g,
                old(self).amplitudes@,
                qubit_number as nat,
            ),
    {
        let ghost orig = self.amplitudes@;
        let ghost q = qubit_number as nat;
        let ghost n = self.qubit_count as nat;
        let mask = pow2_usize(qubit_number);
        let len = self.amplitudes.len();
        proof {
            lemma_pow2_pos(q);
            assert forall|k: int| 0 <= k < len implies self.amplitudes@[k] == one_qubit_mid(
                g,
                orig,
                q,
                0,
                k,
            ) by {
                lemma_flip_props(k, q, n);
            }
        }
        let mut i: usize = 0;
        while i < len
            invariant
                i <= len,
                self.qubit_count == old(self).qubit_count,
                self.norm_p_total == old(self).norm_p_total,
                self.norm_q_total == old(self).norm_q_total,
                self.rng == old(self).rng,
                q == qubit_number as nat,
                n == self.qubit_count as nat,
                q < n,
                mask == pow2(q),
                mask >= 1,
                len == pow2(n),
                orig == old(self).amplitudes@,
                orig.len() == len,
                self.amplitudes@.len() == len,
                sum_p(self.amplitudes@) == sum_p(orig),
                sum_q(self.amplitudes@) == sum_q(orig),
                1 <= sum_p(orig) <= norm_cap(),
                forall|k: int|
                    0 <= k < len ==> #[trigger] self.amplitudes@[k] == one_qubit_mid(
                        g,
                        orig,
                        q,
                        i as int,
                        k,
                    ),
            decreases len - i,
        {
            if (i / mask) % 2 == 0 {
                proof {
                    lemma_flip_props(i as int, q, n);
                    assert(!bit(i as int, q));
                    assert(flip(i as int, q) == i + mask);
                }
                let j = i + mask;
                let x = self.amplitudes[i];
                let y = self.amplitudes[j];
                proof {
                    assert(bit(j as int, q)) by {
                        lemma_flip_props(i as int, q, n);
                    }
                    assert(flip(j as int, q) == i as int) by {
                        lemma_flip_props(i as int, q, n);
                    }
                    assert(x == orig[i as int] && y == orig[j as int]);
                    lemma_element_bounds(orig, i as int);
                    lemma_element_bounds(orig, j as int);
                }
                let r = apply_gate1(g, x, y);
                let ghost before = self.amplitudes@;
                self.amplitudes.set(i, r.0);
                self.amplitudes.set(j, r.1);
                proof {
                    lemma_gate1_norm(g, x, y);
                    lemma_sum_update(before, i as int, r.0);
                    lemma_sum_update(before.update(i as int, r.0), j as int, r.1);
                    assert(before.update(i as int, r.0)[j as int] == before[j as int]);
                    assert forall|k: int| 0 <= k < len implies self.amplitudes@[k]
                        == one_qubit_mid(g, orig, q, i as int + 1, k) by {
                        if k == i as int {
                        } else if k == j as int {
                        } else {
                            lemma_flip_props(k, q, n);
                        }
                    }
                }
            } else {
                proof {
                    assert(bit(i as int, q));
                    assert forall|k: int| 0 <= k < len implies self.amplitudes@[k]
                        == one_qubit_mid(g, orig, q, i as int + 1, k) by {
                        lemma_flip_props(k, q, n);
                        if bit(k, q) && flip(k, q) == i as int {
                            assert(!bit(flip(k, q), q));
                            assert(false);
                        }
                    }
                }
            }
            i = i + 1;
        }
        proof {
            assert(self.amplitudes@ =~= one_qubit_transform(g, orig, q)) by {
                assert forall|k: int| 0 <= k < len implies self.amplitudes@[k]
                    == one_qubit_transform(g, orig, q)[k] by {
                    lemma_flip_props(k, q, n);
                }
            }
        }
    }


    /// Hadamard on one qubit.  The stored vector absorbs this gate's
    /// `1/sqrt(2)` into the implicit normalization, so the total squared
    /// magnitude doubles; the caller keeps it under the cap.
    pub fn hadamard(&mut self, qubit_number: usize)
        requires
            old(self).wf(),
            qubit_number < old(self).qubit_count,
            2 * old(self).norm_p_total <= norm_cap(),
        ensures
            final(self).wf(),
            final(self).qubit_count == old(self).qubit_count,
            final(self).norm_p_total == 2 * old(self).norm_p_total,
            final(self).norm_q_total == 2 * old(self).norm_q_total,
            final(self).rng == old(self).rng,
            final(self).amplitudes@ == hadamard_transform(
                old(self).amplitudes@,
                qubit_number as nat,
            ),
    {
        let ghost orig = self.amplitudes@;
        let ghost q = qubit_number as nat;
        let ghost n = self.qubit_count as nat;
        let mask = pow2_usize(qubit_number);
        let len = self.amplitudes.len();
        proof {
            lemma_pow2_pos(q);
            assert forall|k: int| 0 <= k < len implies self.amplitudes@[k] == hadamard_mid(
                orig,
                q,
                0,
                k,
            ) by {
                lemma_flip_props(k, q, n);
            }
        }
        let mut i: usize = 0;
        while i < len
            invariant
                i <= len,
                self.qubit_count == old(self).qubit_count,
                self.norm_p_total == old(self).norm_p_total,
                self.norm_q_total == old(self).norm_q_total,
                self.rng == old(self).rng,
                q == qubit_number as nat,
                n == self.qubit_count as nat,
                q < n,
                mask == pow2(q),
                mask >= 1,
                len == pow2(n),
                orig == old(self).amplitudes@,
                orig.len() == len,
                self.amplitudes@.len() == len,
                sum_p(orig) == old(self).norm_p_total as int,
                1 <= sum_p(orig) <= norm_cap(),
                forall|k: int|
                    0 <= k < len ==> #[trigger] self.amplitudes@[k] == hadamard_mid(
                        orig,
                        q,
                        i as int,
                        k,
                    ),
            decreases len - i,
        {
            if (i / mask) % 2 == 0 {
                proof {
                    lemma_flip_props(i as int, q, n);
                    assert(!bit(i as int, q));
                    assert(flip(i as int, q) == i + mask);
                }
                let j = i + mask;
                let x = self.amplitudes[i];
                let y = self.amplitudes[j];
                proof {
                    assert(bit(j as int, q) && flip(j as int, q) == i as int) by {
                        lemma_flip_props(i as int, q, n);
                    }
                    assert(x == orig[i as int] && y == orig[j as int]);
                    lemma_element_bounds(orig, i as int);
                    lemma_element_bounds(orig, j as int);
                }
                let r = crate::gate::hadamard(x, y);
                self.amplitudes.set(i, r.0);
                self.amplitudes.set(j, r.1);
                proof {
                    assert forall|k: int| 0 <= k < len implies self.amplitudes@[k]
                        == hadamard_mid(orig, q, i as int + 1, k) by {
                        if k == i as int {
                        } else if k == j as int {
                        } else {
                            lemma_flip_props(k, q, n);
                        }
                    }
                }
            } else {
                proof {
                    assert(bit(i as int, q));
                    assert forall|k: int| 0 <= k < len implies self.amplitudes@[k]
                        == hadamard_mid(orig, q, i as int + 1, k) by {
                        lemma_flip_props(k, q, n);
                        if bit(k, q) && flip(k, q) == i as int {
                            assert(!bit(flip(k, q), q));
                            assert(false);
                        }
                    }
                }
            }
            i = i + 1;
        }
        proof {
            assert(self.amplitudes@ =~= hadamard_transform(orig, q)) by {
                assert forall|k: int| 0 <= k < len implies self.amplitudes@[k]
                    == hadamard_transform(orig, q)[k] by {
                    lemma_flip_props(k, q, n);
                }
            }
            assert forall|k: int| 0 <= k < orig.len() implies bounded(
                #[trigger] orig[k],
                coord_limit(),
            ) by {
                lemma_element_bounds(orig, k);
            }
            lemma_hadamard_transform_norm(orig, q, n);
            lemma_sum_gnn(orig);
        }
        self.norm_p_total = self.norm_p_total * 2;
        self.norm_q_total = self.norm_q_total * 2;
    }

    /// One sweep of a 2-qubit gate: visit every index whose two targeted
    /// bits are both 0 (one representative per disjoint 4-tuple), gather
    /// the tuple, and rewrite it with its gate-library function.
    fn apply_two_qubit_gate(&mut self, g: TwoQubitGate, qubit_number0: usize, qubit_number1: usize)
        requires
            old(self).wf(),
            qubit_number0 < old(self).qubit_count,
            qubit_number1 < old(self).qubit_count,
            qubit_number0 != qubit_number1,
        ensures
            final(self).wf(),
            final(self).qubit_count == old(self).qubit_count,
            final(self).norm_p_total == old(self).norm_p_total,
            final(self).norm_q_total == old(self).norm_q_total,
            final(self).rng == old(self).rng,
            final(self).amplitudes@ == two_qubit_transform(
                g,
                old(self).amplitudes@,
                qubit_number0 as nat,
                qubit_number1 as nat,
            ),
    {
        let ghost orig = self.amplitudes@;
        let ghost q0 = qubit_number0 as nat;
        let ghost q1 = qubit_number1 as nat;
        let ghost n = self.qubit_count as nat;
        let mask0 = pow2_usize(qubit_number0);
        let mask1 = pow2_usize(qubit_number1);
        let len = self.amplitudes.len();
        proof {
            lemma_pow2_pos(q0);
            lemma_pow2_pos(q1);
            assert forall|k: int| 0 <= k < len implies self.amplitudes@[k] == two_qubit_mid(
                g,
                orig,
                q0,
                q1,
                0,
                k,
            ) by {
                lemma_base2_props(k, q0, q1, n);
            }
        }
        let mut i: usize = 0;
        while i < len
            invariant
                i <= len,
                self.qubit_count == old(self).qubit_count,
                self.norm_p_total == old(self).norm_p_total,
                self.norm_q_total == old(self).norm_q_total,
                self.rng == old(self).rng,
                q0 == qubit_number0 as nat,
                q1 == qubit_number1 as nat,
                n == self.qubit_count as nat,
                q0 < n,
                q1 < n,
                q0 != q1,
                mask0 == pow2(q0),
                mask1 == pow2(q1),
                mask0 >= 1,
                mask1 >= 1,
                len == pow2(n),
                orig == old(self).amplitudes@,
                orig.len() == len,
                self.amplitudes@.len() == len,
                sum_p(self.amplitudes@) == sum_p(orig),
                sum_q(self.amplitudes@) == sum_q(orig),
                1 <= sum_p(orig) <= norm_cap(),
                forall|k: int|
                    0 <= k < len ==> #[trigger] self.amplitudes@[k] == two_qubit_mid(
                        g,
                        orig,
                        q0,
                        q1,
                        i as int,
                        k,
                    ),
            decreases len - i,
        {
            if (i / mask0) % 2 == 0 && (i / mask1) % 2 == 0 {
                proof {
                    lemma_base2_props(i as int, q0, q1, n);
                    assert(!bit(i as int, q0) && !bit(i as int, q1));
                    assert(base2(i as int, q0, q1) == i as int);
                }
                let i01 = i + mask0;
                let i10 = i + mask1;
                let i11 = i + mask0 + mask1;
                let x00 = self.amplitudes[i];
                let x01 = self.amplitudes[i01];
                let x10 = self.amplitudes[i10];
                let x11 = self.amplitudes[i11];
                proof {
                    lemma_base2_props(i01 as int, q0, q1, n);
                    lemma_base2_props(i10 as int, q0, q1, n);
                    lemma_base2_props(i11 as int, q0, q1, n);
                    assert(x00 == orig[i as int] && x01 == orig[i01 as int] && x10 == orig[
                        i10 as int
                    ] && x11 == orig[i11 as int]);
                    lemma_element_bounds(orig, i as int);
                    lemma_element_bounds(orig, i01 as int);
                    lemma_element_bounds(orig, i10 as int);
                    lemma_element_bounds(orig, i11 as int);
                    assert(mask0 != mask1) by {
                        if q0 < q1 {
                            vstd::arithmetic::power2::lemma_pow2_strictly_increases(q0, q1);
                        } else {
                            vstd::arithmetic::power2::lemma_pow2_strictly_increases(q1, q0);
                        }
                    }
                }
                let r = apply_gate2(g, x00, x01, x10, x11);
                let ghost before = self.amplitudes@;
                self.amplitudes.set(i, r.0);
                self.amplitudes.set(i01, r.1);
                self.amplitudes.set(i10, r.2);
                self.amplitudes.set(i11, r.3);
                proof {
                    lemma_gate2_norm(g, x00, x01, x10, x11);
                    let s1 = before.update(i as int, r.0);
                    let s2 = s1.update(i01 as int, r.1);
                    let s3 = s2.update(i10 as int, r.2);
                    lemma_sum_update(before, i as int, r.0);
                    lemma_sum_update(s1, i01 as int, r.1);
                    lemma_sum_update(s2, i10 as int, r.2);
                    lemma_sum_update(s3, i11 as int, r.3);
                    assert forall|k: int| 0 <= k < len implies self.amplitudes@[k]
                        == two_qubit_mid(g, orig, q0, q1, i as int + 1, k) by {
                        lemma_base2_props(k, q0, q1, n);
                        if k == i as int || k == i01 as int || k == i10 as int || k
                            == i11 as int {
                        } else {
                            assert(base2(k, q0, q1) != i as int);
                        }
                    }
                }
            } else {
                proof {
                    assert(bit(i as int, q0) || bit(i as int, q1));
                    assert forall|k: int| 0 <= k < len implies self.amplitudes@[k]
                        == two_qubit_mid(g, orig, q0, q1, i as int + 1, k) by {
                        lemma_base2_props(k, q0, q1, n);
                        assert(base2(k, q0, q1) != i as int);
                    }
                }
            }
            i = i + 1;
        }
        proof {
            assert(self.amplitudes@ =~= two_qubit_transform(g, orig, q0, q1)) by {
                assert forall|k: int| 0 <= k < len implies self.amplitudes@[k]
                    == two_qubit_transform(g, orig, q0, q1)[k] by {
                    lemma_base2_props(k, q0, q1, n);
                }
            }
        }
    }

    /// CNOT: flip the target qubit exactly where the control qubit is 1.
    pub fn cnot(&mut self, control_qubit_number: usize, target_qubit_number: usize)
        requires
            old(self).wf(),
            control_qubit_number < old(self).qubit_count,
            target_qubit_number < old(self).qubit_count,
            control_qubit_number != target_qubit_number,
        ensures
            final(self).wf(),
            final(self).qubit_count == old(self).qubit_count,
            final(self).norm_p_total == old(self).norm_p_total,
            final(self).norm_q_total == old(self).norm_q_total,
            final(self).rng == old(self).rng,
            final(self).amplitudes@ == two_qubit_transform(
                TwoQubitGate::Cnot,
                old(self).amplitudes@,
                control_qubit_number as nat,
                target_qubit_number as nat,
            ),
    {
        self.apply_two_qubit_gate(TwoQubitGate::Cnot, control_qubit_number, target_qubit_number);
    }

    /// CZ: negate the amplitude exactly where both qubits are 1.
    pub fn cz(&mut self, control_qubit_number: usize, target_qubit_number: usize)
        requires
            old(self).wf(),
            control_qubit_number < old(self).qubit_count,
            target_qubit_number < old(self).qubit_count,
            control_qubit_number != target_qubit_number,
        ensures
            final(self).wf(),
            final(self).qubit_count == old(self).qubit_count,
            final(self).norm_p_total == old(self).norm_p_total,
            final(self).norm_q_total == old(self).norm_q_total,
            final(self).rng == old(self).rng,
            final(self).amplitudes@ == two_qubit_transform(
                TwoQubitGate::Cz,
                old(self).amplitudes@,
                control_qubit_number as nat,
                target_qubit_number as nat,
            ),
    {
        self.apply_two_qubit_gate(TwoQubitGate::Cz, control_qubit_number, target_qubit_number);
    }

    /// SWAP: exchange the two qubits' values.
    pub fn swap(&mut self, qubit_number0: usize, qubit_number1: usize)
        requires
            old(self).wf(),
            qubit_number0 < old(self).qubit_count,
            qubit_number1 < old(self).qubit_count,
            qubit_number0 != qubit_number1,
        ensures
            final(self).wf(),
            final(self).qubit_count == old(self).qubit_count,
            final(self).norm_p_total == old(self).norm_p_total,
            final(self).norm_q_total == old(self).norm_q_total,
            final(self).rng == old(self).rng,
            final(self).amplitudes@ == two_qubit_transform(
                TwoQubitGate::SwapGate,
                old(self).amplitudes@,
                qubit_number0 as nat,
                qubit_number1 as nat,
            ),
    {
        self.apply_two_qubit_gate(TwoQubitGate::SwapGate, qubit_number0, qubit_number1);
    }

    /// One sweep of the Toffoli gate: visit every index whose three
    /// targeted bits are all 0, gather the 8-tuple of its group, and
    /// rewrite it with its gate-library function.
    #[verifier::rlimit(60)]
    pub fn toffoli(
        &mut self,
        control_qubit_number0: usize,
        control_qubit_number1: usize,
        target_qubit_number: usize,
    )
        requires
            old(self).wf(),
            control_qubit_number0 < old(self).qubit_count,
            control_qubit_number1 < old(self).qubit_count,
            target_qubit_number < old(self).qubit_count,
            control_qubit_number0 != control_qubit_number1,
            control_qubit_number0 != target_qubit_number,
            control_qubit_number1 != target_qubit_number,
        ensures
            final(self).wf(),
            final(self).qubit_count == old(self).qubit_count,
            final(self).norm_p_total == old(self).norm_p_total,
            final(self).norm_q_total == old(self).norm_q_total,
            final(self).rng == old(self).rng,
            final(self).amplitudes@ == toffoli_transform(
                old(self).amplitudes@,
                control_qubit_number0 as nat,
                control_qubit_number1 as nat,
                target_qubit_number as nat,
            ),
    {
        let ghost orig = self.amplitudes@;
        let ghost q0 = control_qubit_number0 as nat;
        let ghost q1 = control_qubit_number1 as nat;
        let ghost q2 = target_qubit_number as nat;
        let ghost n = self.qubit_count as nat;
        let mask0 = pow2_usize(control_qubit_number0);
        let mask1 = pow2_usize(control_qubit_number1);
        let mask2 = pow2_usize(target_qubit_number);
        let len = self.amplitudes.len();
        proof {
            lemma_pow2_pos(q0);
            lemma_pow2_pos(q1);
            lemma_pow2_pos(q2);
            assert forall|k: int| 0 <= k < len implies self.amplitudes@[k] == toffoli_mid(
                orig,
                q0,
                q1,
                q2,
                0,
                k,
            ) by {
                lemma_base3_props(k, q0, q1, q2, n);
            }
        }
        let mut i: usize = 0;
        while i < len
            invariant
                i <= len,
                self.qubit_count == old(self).qubit_count,
                self.norm_p_total == old(self).norm_p_total,
                self.norm_q_total == old(self).norm_q_total,
                self.rng == old(self).rng,
                q0 == control_qubit_number0 as nat,
                q1 == control_qubit_number1 as nat,
                q2 == target_qubit_number as nat,
                n == self.qubit_count as nat,
                q0 < n,
                q1 < n,
                q2 < n,
                q0 != q1,
                q0 != q2,
                q1 != q2,
                mask0 == pow2(q0),
                mask1 == pow2(q1),
                mask2 == pow2(q2),
                mask0 >= 1,
                mask1 >= 1,
                mask2 >= 1,
                len == pow2(n),
                orig == old(self).amplitudes@,
                orig.len() == len,
                self.amplitudes@.len() == len,
                sum_p(self.amplitudes@) == sum_p(orig),
                sum_q(self.amplitudes@) == sum_q(orig),
                1 <= sum_p(orig) <= norm_cap(),
                forall|k: int|
                    0 <= k < len ==> #[trigger] self.amplitudes@[k] == toffoli_mid(
                        orig,
                        q0,
                        q1,
                        q2,
                        i as int,
                        k,
                    ),
            decreases len - i,
        {
            if (i / mask0) % 2 == 0 && (i / mask1) % 2 == 0 && (i / mask2) % 2 == 0 {
                proof {
                    lemma_base3_props(i as int, q0, q1, q2, n);
                    assert(base3(i as int, q0, q1, q2) == i as int);
                }
                let i001 = i + mask0;
                let i010 = i + mask1;
                let i011 = i + mask0 + mask1;
                let i100 = i + mask2;
                let i101 = i + mask0 + mask2;
                let i110 = i + mask1 + mask2;
                let i111 = i + mask0 + mask1 + mask2;
                let x000 = self.amplitudes[i];
                let x001 = self.amplitudes[i001];
                let x010 = self.amplitudes[i010];
                let x011 = self.amplitudes[i011];
                let x100 = self.amplitudes[i100];
                let x101 = self.amplitudes[i101];
                let x110 = self.amplitudes[i110];
                let x111 = self.amplitudes[i111];
                proof {
                    lemma_base3_props(i001 as int, q0, q1, q2, n);
                    lemma_base3_props(i010 as int, q0, q1, q2, n);
                    lemma_base3_props(i011 as int, q0, q1, q2, n);
                    lemma_base3_props(i100 as int, q0, q1, q2, n);
                    lemma_base3_props(i101 as int, q0, q1, q2, n);
                    lemma_base3_props(i110 as int, q0, q1, q2, n);
                    lemma_base3_props(i111 as int, q0, q1, q2, n);
                }
                let r = crate::gate::toffoli(x000, x001, x010, x011, x100, x101, x110, x111);
                let ghost before = self.amplitudes@;
                self.amplitudes.set(i, r.0);
                self.amplitudes.set(i001, r.1);
                self.amplitudes.set(i010, r.2);
                self.amplitudes.set(i011, r.3);
                self.amplitudes.set(i100, r.4);
                self.amplitudes.set(i101, r.5);
                self.amplitudes.set(i110, r.6);
                self.amplitudes.set(i111, r.7);
                proof {
                    let s1 = before.update(i as int, r.0);
                    let s2 = s1.update(i001 as int, r.1);
                    let s3 = s2.update(i010 as int, r.2);
                    let s4 = s3.update(i011 as int, r.3);
                    let s5 = s4.update(i100 as int, r.4);
                    let s6 = s5.update(i101 as int, r.5);
                    let s7 = s6.update(i110 as int, r.6);
                    lemma_sum_update(before, i as int, r.0);
                    lemma_sum_update(s1, i001 as int, r.1);
                    lemma_sum_update(s2, i010 as int, r.2);
                    lemma_sum_update(s3, i011 as int, r.3);
                    lemma_sum_update(s4, i100 as int, r.4);
                    lemma_sum_update(s5, i101 as int, r.5);
                    lemma_sum_update(s6, i110 as int, r.6);
                    lemma_sum_update(s7, i111 as int, r.7);
                    assert forall|k: int| 0 <= k < len implies self.amplitudes@[k]
                        == toffoli_mid(orig, q0, q1, q2, i as int + 1, k) by {
                        lemma_base3_props(k, q0, q1, q2, n);
                        if k == i as int || k == i001 as int || k == i010 as int || k
                            == i011 as int || k == i100 as int || k == i101 as int || k
                            == i110 as int || k == i111 as int {
                        } else {
                            assert(base3(k, q0, q1, q2) != i as int);
                        }
                    }
                }
            } else {
                proof {
                    assert forall|k: int| 0 <= k < len implies self.amplitudes@[k]
                        == toffoli_mid(orig, q0, q1, q2, i as int + 1, k) by {
                        lemma_base3_props(k, q0, q1, q2, n);
                        assert(base3(k, q0, q1, q2) != i as int);
                    }
                }
            }
            i = i + 1;
        }
        proof {
            assert(self.amplitudes@ =~= toffoli_transform(orig, q0, q1, q2)) by {
                assert forall|k: int| 0 <= k < len implies self.amplitudes@[k]
                    == toffoli_transform(orig, q0, q1, q2)[k] by {
                    lemma_base3_props(k, q0, q1, q2, n);
                }
            }
        }
    }

    /// Pauli-X on one qubit.
    pub fn pauli_x(&mut self, qubit_number: usize)
        requires
            old(self).wf(),
            qubit_number < old(self).qubit_count,
        ensures
            final(self).wf(),
            final(self).qubit_count == old(self).qubit_count,
            final(self).norm_p_total == old(self).norm_p_total,
            final(self).norm_q_total == old(self).norm_q_total,
            final(self).rng == old(self).rng,
            final(self).amplitudes@ == one_qubit_transform(
                OneQubitGate::PauliX,
                old(self).amplitudes@,
                qubit_number as nat,
            ),
    {
        self.apply_one_qubit_gate(OneQubitGate::PauliX, qubit_number);
    }

    /// Pauli-Y on one qubit.
    pub fn pauli_y(&mut self, qubit_number: usize)
        requires
            old(self).wf(),
            qubit_number < old(self).qubit_count,
        ensures
            final(self).wf(),
            final(self).qubit_count == old(self).qubit_count,
            final(self).norm_p_total == old(self).norm_p_total,
            final(self).norm_q_total == old(self).norm_q_total,
            final(self).rng == old(self).rng,
            final(self).amplitudes@ == one_qubit_transform(
                OneQubitGate::PauliY,
                old(self).amplitudes@,
                qubit_number as nat,
            ),
    {
        self.apply_one_qubit_gate(OneQubitGate::PauliY, qubit_number);
    }

    /// Pauli-Z on one qubit.
    pub fn pauli_z(&mut self, qubit_number: usize)
        requires
            old(self).wf(),
            qubit_number < old(self).qubit_count,
        ensures
            final(self).wf(),
            final(self).qubit_count == old(self).qubit_count,
            final(self).norm_p_total == old(self).norm_p_total,
            final(self).norm_q_total == old(self).norm_q_total,
            final(self).rng == old(self).rng,
            final(self).amplitudes@ == one_qubit_transform(
                OneQubitGate::PauliZ,
                old(self).amplitudes@,
                qubit_number as nat,
            ),
    {
        self.apply_one_qubit_gate(OneQubitGate::PauliZ, qubit_number);
    }

    /// The S (quarter-turn phase) gate on one qubit.
    pub fn s(&mut self, qubit_number: usize)
        requires
            old(self).wf(),
            qubit_number < old(self).qubit_count,
        ensures
            final(self).wf(),
            final(self).qubit_count == old(self).qubit_count,
            final(self).norm_p_total == old(self).norm_p_total,
            final(self).norm_q_total == old(self).norm_q_total,
            final(self).rng == old(self).rng,
            final(self).amplitudes@ == one_qubit_transform(
                OneQubitGate::SGate,
                old(self).amplitudes@,
                qubit_number as nat,
            ),
    {
        self.apply_one_qubit_gate(OneQubitGate::SGate, qubit_number);
    }

    /// The T (eighth-turn phase) gate on one qubit.
    pub fn t(&mut self, qubit_number: usize)
        requires
            old(self).wf(),
            qubit_number < old(self).qubit_count,
        ensures
            final(self).wf(),
            final(self).qubit_count == old(self).qubit_count,
            final(self).norm_p_total == old(self).norm_p_total,
            final(self).norm_q_total == old(self).norm_q_total,
            final(self).rng == old(self).rng,
            final(self).amplitudes@ == one_qubit_transform(
                OneQubitGate::TGate,
                old(self).amplitudes@,
                qubit_number as nat,
            ),
    {
        self.apply_one_qubit_gate(OneQubitGate::TGate, qubit_number);
    }
}


} // verus!

