//! Measurement and collapse.
//!
//! A measurement draws one 32-bit word `u` from the simulation's random
//! source and reads it as the fraction `u / 2^32` of the total probability
//! mass.  The sampled basis index is the smallest index whose cumulative
//! squared magnitude exceeds that fraction — inverse-CDF sampling under the
//! Born rule, carried out in exact `p + q*sqrt(2)` arithmetic, so no
//! rounding can select an index of zero probability and the collapse
//! renormalization denominator is provably nonzero.

use crate::amplitude::{bounded, lemma_norm_nonneg, norm_p, norm_q, Amp};
use crate::encoding::{bit, pow2_usize};
use crate::norms::{
    compute_norms, lemma_sum_element, lemma_sum_gnn, lemma_sum_pointwise_le, lemma_sum_take_all,
    lemma_sum_take_le, lemma_sum_take_step, norm_pair, sum_p, sum_q,
};
use crate::root_two::{is_pos2, lemma_gnn_pos, lemma_pos2_neg, lemma_pos2_scale, pos2};
use crate::state_vector_init::basis_seq;
use crate::state_vector_simulation::{lemma_element_bounds, norm_cap, QuantumSimulation};
use vstd::arithmetic::power2::{lemma_pow2_pos, pow2};
use vstd::prelude::*;

verus! {

/// The scale of one random draw: a drawn word `u` stands for the fraction
/// `u / 2^32` of the total probability mass.
pub open spec fn draw_scale() -> int {
    0x1_0000_0000
}

/// Integer part of `2^32 * (cumulative mass through i) - u * (total mass)`.
pub open spec fn sample_d(s: Seq<Amp>, u: int, i: int) -> int {
    draw_scale() * sum_p(s.take(i + 1)) - u * sum_p(s)
}

/// `sqrt(2)` part of the same difference.
pub open spec fn sample_e(s: Seq<Amp>, u: int, i: int) -> int {
    draw_scale() * sum_q(s.take(i + 1)) - u * sum_q(s)
}

/// The cumulative mass through `i` strictly exceeds the drawn fraction of
/// the total.
pub open spec fn selected(s: Seq<Amp>, u: int, i: int) -> bool {
    pos2(sample_d(s, u, i), sample_e(s, u, i))
}

/// `idx` is the index that the draw `u` samples from the vector `s`: the
/// smallest index whose cumulative mass exceeds the drawn fraction.
pub open spec fn is_sample(s: Seq<Amp>, u: int, idx: int) -> bool {
    &&& 0 <= idx < s.len()
    &&& selected(s, u, idx)
    &&& forall|j: int| 0 <= j < idx ==> !selected(s, u, j)
}

/// The last index is always selected: the whole mass exceeds any drawn
/// fraction, because `u < 2^32`.
pub proof fn lemma_sample_last(s: Seq<Amp>, u: int)
    requires
        s.len() >= 1,
        sum_p(s) >= 1,
        0 <= u < draw_scale(),
    ensures
        selected(s, u, s.len() - 1),
{
    lemma_sum_take_all(s);
    let ds = draw_scale();
    let k = ds - u;
    let p = sum_p(s);
    let q = sum_q(s);
    lemma_sum_gnn(s);
    lemma_gnn_pos(p, q);
    lemma_pos2_scale(p, q, k);
    assert(k * p == ds * p - u * p && k * q == ds * q - u * q) by (nonlinear_arith)
        requires
            k == ds - u,
    ;
    assert(sample_d(s, u, s.len() - 1) == ds * p - u * p);
    assert(sample_e(s, u, s.len() - 1) == ds * q - u * q);
}

/// The sampled index carries at least one unit of probability mass — the
/// exact-arithmetic form of "the renormalization denominator is not zero".
pub proof fn lemma_sample_positive(s: Seq<Amp>, u: int, idx: int)
    requires
        sum_p(s) >= 1,
        0 <= u < draw_scale(),
        is_sample(s, u, idx),
    ensures
        norm_p(s[idx]) >= 1,
{
    lemma_norm_nonneg(s[idx]);
    if norm_p(s[idx]) == 0 {
        assert(s[idx] == Amp::zero_spec());
        assert(norm_q(s[idx]) == 0);
        lemma_sum_take_step(s, idx);
        if idx == 0 {
            assert(s.take(0).len() == 0);
            assert(sum_p(s.take(1)) == 0 && sum_q(s.take(1)) == 0);
            assert(sample_d(s, u, 0) == -(u * sum_p(s)) && sample_e(s, u, 0) == -(u * sum_q(
                s,
            ))) by (nonlinear_arith)
                requires
                    sum_p(s.take(1)) == 0 && sum_q(s.take(1)) == 0,
                    sample_d(s, u, 0) == draw_scale() * sum_p(s.take(1)) - u * sum_p(s),
                    sample_e(s, u, 0) == draw_scale() * sum_q(s.take(1)) - u * sum_q(s),
            ;
            if u == 0 {
                assert(sample_d(s, u, 0) == 0 && sample_e(s, u, 0) == 0) by (nonlinear_arith)
                    requires
                        sample_d(s, u, 0) == -(u * sum_p(s)),
                        sample_e(s, u, 0) == -(u * sum_q(s)),
                        u == 0,
                ;
                assert(!pos2(0, 0));
            } else {
                lemma_sum_gnn(s);
                lemma_gnn_pos(sum_p(s), sum_q(s));
                lemma_pos2_scale(sum_p(s), sum_q(s), u);
                lemma_pos2_neg(u * sum_p(s), u * sum_q(s));
            }
        } else {
            assert(sum_p(s.take(idx + 1)) == sum_p(s.take(idx)) && sum_q(s.take(idx + 1))
                == sum_q(s.take(idx)));
            assert(sample_d(s, u, idx) == sample_d(s, u, idx - 1));
            assert(sample_e(s, u, idx) == sample_e(s, u, idx - 1));
            assert(!selected(s, u, idx - 1));
        }
    }
}

/// Which basis indices survive a partial measurement: those that agree
/// with the sampled index on every measured qubit.
pub open spec fn matches_on(k: int, idx: int, qs: Seq<usize>) -> bool {
    forall|j: int| 0 <= j < qs.len() ==> bit(k, #[trigger] qs[j] as nat) == bit(idx, qs[j] as nat)
}

/// The collapsed vector of a partial measurement: survivors keep their
/// amplitude, every other index is zeroed.  The physical renormalization
/// is the implicit one: the state is read divided by its new total mass.
pub open spec fn collapse_seq(s: Seq<Amp>, qs: Seq<usize>, idx: int) -> Seq<Amp> {
    Seq::new(s.len(), |k: int| if matches_on(k, idx, qs) {
        s[k]
    } else {
        Amp::zero_spec()
    })
}

impl QuantumSimulation {
    /// Draw one word from the random source and sample a basis index from
    /// the current distribution by exact inverse-CDF search.
    fn _choose_state(&mut self) -> (r: usize)
        requires
            old(self).wf(),
        ensures
            final(self).wf(),
            final(self).qubit_count == old(self).qubit_count,
            final(self).amplitudes@ == old(self).amplitudes@,
            final(self).norm_p_total == old(self).norm_p_total,
            final(self).norm_q_total == old(self).norm_q_total,
            r < old(self).amplitudes@.len(),
            exists|u: int|
                0 <= u < draw_scale() && #[trigger] is_sample(
                    old(self).amplitudes@,
                    u,
                    r as int,
                ),
    {
        let u = crate::random::rng_next_u32(&mut self.rng);
        let ghost s = self.amplitudes@;
        let ghost uu = u as int;
        let len = self.amplitudes.len();
        let total_p: i128 = self.norm_p_total as i128;
        let total_q: i128 = self.norm_q_total as i128;
        let mut cum_p: i128 = 0;
        let mut cum_q: i128 = 0;
        let mut i: usize = 0;
        proof {
            lemma_sum_gnn(s);
            lemma_pow2_pos(self.qubit_count as nat);
        }
        while i < len - 1
            invariant
                i <= len - 1,
                len >= 1,
                len == s.len(),
                s == self.amplitudes@,
                s == old(self).amplitudes@,
                self.qubit_count == old(self).qubit_count,
                self.norm_p_total == old(self).norm_p_total,
                self.norm_q_total == old(self).norm_q_total,
                self.amplitudes@.len() == len,
                self.wf(),
                uu == u as int,
                total_p == sum_p(s),
                total_q == sum_q(s),
                1 <= sum_p(s) <= norm_cap(),
                -sum_p(s) <= sum_q(s) <= sum_p(s),
                cum_p == sum_p(s.take(i as int)),
                cum_q == sum_q(s.take(i as int)),
                forall|j: int| 0 <= j < i ==> !selected(s, uu, j),
            decreases len - i,
        {
            proof {
                lemma_element_bounds(s, i as int);
                lemma_sum_take_le(s, i as int);
                lemma_sum_take_le(s, i as int + 1);
                lemma_sum_take_step(s, i as int);
            }
            let np = norm_pair(&self.amplitudes[i]);
            cum_p = cum_p + np.0;
            cum_q = cum_q + np.1;
            proof {
                assert(0 <= uu * total_p <= 0x2000_0000_0000_0000 && -0x2000_0000_0000_0000 <= uu
                    * total_q <= 0x2000_0000_0000_0000) by (nonlinear_arith)
                    requires
                        0 <= uu < 0x1_0000_0000,
                        1 <= total_p <= 0x2000_0000,
                        -total_p <= total_q <= total_p,
                ;
            }
            let d: i128 = cum_p * 0x1_0000_0000 - (u as i128) * total_p;
            let e: i128 = cum_q * 0x1_0000_0000 - (u as i128) * total_q;
            if is_pos2(d, e) {
                proof {
                    assert(selected(s, uu, i as int));
                    assert(is_sample(s, uu, i as int));
                }
                return i;
            }
            proof {
                assert(!selected(s, uu, i as int));
            }
            i = i + 1;
        }
        proof {
            lemma_sample_last(s, uu);
            assert(is_sample(s, uu, len - 1));
        }
        len - 1
    }

    /// Measure every qubit in the computational basis.  The outcome bits
    /// come in ascending qubit order; the state collapses to the measured
    /// basis configuration with certainty.
    pub fn measure_all(&mut self) -> (r: Vec<bool>)
        requires
            old(self).wf(),
        ensures
            final(self).wf(),
            final(self).qubit_count == old(self).qubit_count,
            final(self).norm_p_total == 1,
            final(self).norm_q_total == 0,
            r@.len() == old(self).qubit_count,
            exists|u: int, idx: int|
                {
                    &&& 0 <= u < draw_scale()
                    &&& #[trigger] is_sample(old(self).amplitudes@, u, idx)
                    &&& forall|j: int| 0 <= j < r@.len() ==> r@[j] == bit(idx, j as nat)
                    &&& final(self).amplitudes@ == basis_seq(
                        old(self).amplitudes@.len() as int,
                        idx,
                    )
                },
    {
        let ghost orig = self.amplitudes@;
        let measured_state_index = self._choose_state();
        let ghost idx = measured_state_index as int;
        let qubit_count = self.qubit_count;
        let mut measured_states: Vec<bool> = Vec::new();
        let mut qubit_number: usize = 0;
        while qubit_number < qubit_count
            invariant
                qubit_number <= qubit_count,
                qubit_count <= 20,
                idx == measured_state_index as int,
                measured_states@.len() == qubit_number,
                forall|j: int|
                    0 <= j < qubit_number ==> measured_states@[j] == bit(idx, j as nat),
            decreases qubit_count - qubit_number,
        {
            let mask = pow2_usize(qubit_number);
            proof {
                lemma_pow2_pos(qubit_number as nat);
            }
            let measured_state = (measured_state_index / mask) % 2 == 1;
            measured_states.push(measured_state);
            qubit_number = qubit_number + 1;
        }
        // Overwrite the vector with the certain state for the outcome.
        let len = self.amplitudes.len();
        let mut amplitudes: Vec<Amp> = Vec::new();
        let mut i: usize = 0;
        while i < len
            invariant
                i <= len,
                idx == measured_state_index as int,
                amplitudes@.len() == i,
                forall|k: int|
                    0 <= k < i ==> amplitudes@[k] == (if k == idx {
                        Amp::one_spec()
                    } else {
                        Amp::zero_spec()
                    }),
            decreases len - i,
        {
            if i == measured_state_index {
                amplitudes.push(Amp::one());
            } else {
                amplitudes.push(Amp::zero());
            }
            i = i + 1;
        }
        self.amplitudes = amplitudes;
        self.norm_p_total = 1;
        self.norm_q_total = 0;
        proof {
            assert(self.amplitudes@ =~= basis_seq(orig.len() as int, idx));
            crate::state_vector_init::lemma_basis_norm(orig.len() as int, idx);
            let u = choose|u: int|
                0 <= u < draw_scale() && #[trigger] is_sample(orig, u, idx);
            assert(0 <= u < draw_scale() && is_sample(orig, u, idx) && (forall|j: int|
                0 <= j < measured_states@.len() ==> measured_states@[j] == bit(idx, j as nat))
                && self.amplitudes@ == basis_seq(orig.len() as int, idx));
        }
        measured_states
    }

    /// Measure the selected qubits in the computational basis.  The
    /// outcome bits follow the caller's order; the sampling is done over
    /// the full joint distribution, so it is consistent with what a full
    /// measurement would have produced from the same draw.  Surviving
    /// amplitudes are kept unscaled: the implicit normalization divides by
    /// the new (provably nonzero) total mass.
    pub fn measure(&mut self, qubit_numbers: Vec<usize>) -> (r: Vec<bool>)
        requires
            old(self).wf(),
            forall|j: int|
                0 <= j < qubit_numbers@.len() ==> #[trigger] qubit_numbers@[j] < old(
                    self,
                ).qubit_count,
        ensures
            final(self).wf(),
            final(self).qubit_count == old(self).qubit_count,
            r@.len() == qubit_numbers@.len(),
            exists|u: int, idx: int|
                {
                    &&& 0 <= u < draw_scale()
                    &&& #[trigger] is_sample(old(self).amplitudes@, u, idx)
                    &&& forall|j: int|
                        0 <= j < r@.len() ==> r@[j] == bit(idx, qubit_numbers@[j] as nat)
                    &&& final(self).amplitudes@ == collapse_seq(
                        old(self).amplitudes@,
                        qubit_numbers@,
                        idx,
                    )
                },
    {
        let ghost orig = self.amplitudes@;
        let ghost qs = qubit_numbers@;
        let measured_state_index = self._choose_state();
        let ghost idx = measured_state_index as int;
        let qn_len = qubit_numbers.len();
        let mut measured_states: Vec<bool> = Vec::new();
        let mut j: usize = 0;
        while j < qn_len
            invariant
                j <= qn_len,
                qn_len == qs.len(),
                qs == qubit_numbers@,
                idx == measured_state_index as int,
                forall|jj: int| 0 <= jj < qs.len() ==> #[trigger] qs[jj] < 20,
                measured_states@.len() == j,
                forall|jj: int|
                    0 <= jj < j ==> measured_states@[jj] == bit(idx, qs[jj] as nat),
            decreases qn_len - j,
        {
            let qn = qubit_numbers[j];
            let mask = pow2_usize(qn);
            proof {
                lemma_pow2_pos(qn as nat);
            }
            let measured_state = (measured_state_index / mask) % 2 == 1;
            measured_states.push(measured_state);
            j = j + 1;
        }
        // Zero every amplitude that disagrees with the outcome on a
        // measured qubit.
        let len = self.amplitudes.len();
        let mut i: usize = 0;
        while i < len
            invariant
                i <= len,
                idx == measured_state_index as int,
                qs == qubit_numbers@,
                qn_len == qs.len(),
                qn_len == qubit_numbers@.len(),
                idx < len,
                forall|jj: int| 0 <= jj < qs.len() ==> #[trigger] qs[jj] < 20,
                self.qubit_count == old(self).qubit_count,
                self.norm_p_total == old(self).norm_p_total,
                self.norm_q_total == old(self).norm_q_total,
                self.amplitudes@.len() == len,
                orig.len() == len,
                forall|k: int|
                    0 <= k < len ==> #[trigger] self.amplitudes@[k] == (if k < i {
                        collapse_seq(orig, qs, idx)[k]
                    } else {
                        orig[k]
                    }),
            decreases len - i,
        {
            let mut keep = true;
            let mut jj: usize = 0;
            while jj < qn_len
                invariant
                    jj <= qn_len,
                    qn_len == qs.len(),
                    qs == qubit_numbers@,
                    i < len,
                    idx == measured_state_index as int,
                    forall|t: int| 0 <= t < qs.len() ==> #[trigger] qs[t] < 20,
                    keep == (forall|t: int|
                        0 <= t < jj ==> bit(i as int, #[trigger] qs[t] as nat) == bit(
                            idx,
                            qs[t] as nat,
                        )),
                decreases qn_len - jj,
            {
                let qn = qubit_numbers[jj];
                let mask = pow2_usize(qn);
                proof {
                    lemma_pow2_pos(qn as nat);
                }
                let bit_i = (i / mask) % 2 == 1;
                let bit_idx = (measured_state_index / mask) % 2 == 1;
                if bit_i != bit_idx {
                    keep = false;
                }
                jj = jj + 1;
            }
            if !keep {
                self.amplitudes.set(i, Amp::zero());
                proof {
                    assert(!matches_on(i as int, idx, qs));
                }
            } else {
                proof {
                    assert(matches_on(i as int, idx, qs));
                }
            }
            i = i + 1;
        }
        proof {
            assert(self.amplitudes@ =~= collapse_seq(orig, qs, idx));
        }
        // Restore the exact norm accounting for the survivors.
        let ghost collapsed = self.amplitudes@;
        proof {
            assert forall|k: int| 0 <= k < len implies bounded(
                #[trigger] self.amplitudes@[k],
                0x20_0000,
            ) by {
                if matches_on(k, idx, qs) {
                    lemma_element_bounds(orig, k);
                }
            }
            assert forall|k: int| 0 <= k < len implies norm_p(#[trigger] collapsed[k]) <= norm_p(
                orig[k],
            ) by {
                lemma_norm_nonneg(orig[k]);
                if matches_on(k, idx, qs) {
                    assert(collapsed[k] == orig[k]);
                } else {
                    assert(collapsed[k] == Amp::zero_spec());
                    assert(norm_p(Amp::zero_spec()) == 0);
                }
            }
            lemma_sum_pointwise_le(collapsed, orig);
            lemma_sum_gnn(collapsed);
            let u = choose|u: int|
                0 <= u < draw_scale() && #[trigger] is_sample(orig, u, idx);
            lemma_sample_positive(orig, u, idx);
            assert(0 <= idx < len);
            assert(matches_on(idx, idx, qs));
            assert(collapsed[idx] == orig[idx]);
            lemma_sum_element(collapsed, idx);
            assert(len <= 0x10_0000) by {
                if (self.qubit_count as nat) != 20 {
                    vstd::arithmetic::power2::lemma_pow2_strictly_increases(
                        self.qubit_count as nat,
                        20,
                    );
                }
                vstd::arithmetic::power2::lemma2_to64();
            }
        }
        let norms = compute_norms(&self.amplitudes);
        self.norm_p_total = norms.0 as i64;
        self.norm_q_total = norms.1 as i64;
        measured_states
    }
}

} // verus!
