//! Total squared magnitude of an amplitude vector.
//!
//! The simulation keeps, beside the vector itself, the exact pair
//! `(sum_p, sum_q)` with `sum of |amplitude|^2 == sum_p + sum_q*sqrt(2)`.
//! This module defines those sums over a `Seq<Amp>` and proves the facts
//! the engine needs: how they respond to a point update, that they form a
//! squared-magnitude pair, and how to compute them.

use crate::amplitude::{bounded, lemma_norm_nonneg, norm_p, norm_q, Amp};
use crate::root_two::{gnn, lemma_gnn_add, lemma_gnn_q_le_p};
use vstd::prelude::*;

verus! {

/// Integer part of the total squared magnitude of `s`.
pub open spec fn sum_p(s: Seq<Amp>) -> int
    decreases s.len(),
{
    if s.len() == 0 {
        0
    } else {
        sum_p(s.drop_last()) + norm_p(s.last())
    }
}

/// Coefficient of `sqrt(2)` in the total squared magnitude of `s`.
pub open spec fn sum_q(s: Seq<Amp>) -> int
    decreases s.len(),
{
    if s.len() == 0 {
        0
    } else {
        sum_q(s.drop_last()) + norm_q(s.last())
    }
}

/// One more element extends a prefix sum by that element's norm.
pub proof fn lemma_sum_take_step(s: Seq<Amp>, i: int)
    requires
        0 <= i < s.len(),
    ensures
        sum_p(s.take(i + 1)) == sum_p(s.take(i)) + norm_p(s[i]),
        sum_q(s.take(i + 1)) == sum_q(s.take(i)) + norm_q(s[i]),
{
    assert(s.take(i + 1).drop_last() =~= s.take(i));
    assert(s.take(i + 1).last() == s[i]);
}

/// The whole sequence is its own length-long prefix.
pub proof fn lemma_sum_take_all(s: Seq<Amp>)
    ensures
        sum_p(s.take(s.len() as int)) == sum_p(s),
        sum_q(s.take(s.len() as int)) == sum_q(s),
{
    assert(s.take(s.len() as int) =~= s);
}

/// The total squared magnitude is itself a squared-magnitude pair.
pub proof fn lemma_sum_gnn(s: Seq<Amp>)
    ensures
        gnn(sum_p(s), sum_q(s)),
        -sum_p(s) <= sum_q(s) <= sum_p(s),
    decreases s.len(),
{
    if s.len() == 0 {
    } else {
        lemma_sum_gnn(s.drop_last());
        lemma_norm_nonneg(s.last());
        lemma_gnn_add(sum_p(s.drop_last()), sum_q(s.drop_last()), norm_p(s.last()), norm_q(
            s.last(),
        ));
    }
    lemma_gnn_q_le_p(sum_p(s), sum_q(s));
}

/// Replacing one element moves the sums by the difference of the norms.
pub proof fn lemma_sum_update(s: Seq<Amp>, i: int, v: Amp)
    requires
        0 <= i < s.len(),
    ensures
        sum_p(s.update(i, v)) == sum_p(s) - norm_p(s[i]) + norm_p(v),
        sum_q(s.update(i, v)) == sum_q(s) - norm_q(s[i]) + norm_q(v),
    decreases s.len(),
{
    let t = s.update(i, v);
    if i == s.len() - 1 {
        assert(t.drop_last() =~= s.drop_last());
        assert(t.last() == v);
    } else {
        assert(t.drop_last() =~= s.drop_last().update(i, v));
        assert(t.last() == s.last());
        lemma_sum_update(s.drop_last(), i, v);
    }
}

/// Every element's norm is at most the total.
pub proof fn lemma_sum_element(s: Seq<Amp>, i: int)
    requires
        0 <= i < s.len(),
    ensures
        norm_p(s[i]) <= sum_p(s),
    decreases s.len(),
{
    lemma_norm_nonneg(s.last());
    if i == s.len() - 1 {
        lemma_sum_gnn(s.drop_last());
    } else {
        lemma_sum_element(s.drop_last(), i);
    }
}

/// Pointwise dominated norms give a dominated total.
pub proof fn lemma_sum_pointwise_le(s1: Seq<Amp>, s2: Seq<Amp>)
    requires
        s1.len() == s2.len(),
        forall|i: int| 0 <= i < s1.len() ==> norm_p(s1[i]) <= norm_p(s2[i]),
    ensures
        sum_p(s1) <= sum_p(s2),
    decreases s1.len(),
{
    if s1.len() > 0 {
        assert(norm_p(s1.last()) <= norm_p(s2.last()));
        lemma_sum_pointwise_le(s1.drop_last(), s2.drop_last());
    }
}

/// Coordinate-bounded amplitudes have norms at most `4*m^2`, so the total
/// is at most `len * 4*m^2`.
pub proof fn lemma_sum_bound(s: Seq<Amp>, m: int)
    requires
        m >= 0,
        forall|i: int| 0 <= i < s.len() ==> bounded(s[i], m),
    ensures
        0 <= sum_p(s) <= s.len() * (4 * (m * m)),
        -sum_p(s) <= sum_q(s) <= sum_p(s),
    decreases s.len(),
{
    lemma_sum_gnn(s);
    if s.len() == 0 {
    } else {
        let z = s.last();
        assert(bounded(z, m));
        assert(norm_p(z) <= 4 * (m * m)) by (nonlinear_arith)
            requires
                -m <= z.a <= m && -m <= z.b <= m && -m <= z.c <= m && -m <= z.d <= m,
                m >= 0,
        ;
        lemma_sum_bound(s.drop_last(), m);
        assert((s.len() - 1) * (4 * (m * m)) + 4 * (m * m) == s.len() * (4 * (m * m)))
            by (nonlinear_arith);
    }
}


/// Sums over a subrange extend one element at a time.
pub proof fn lemma_sum_subrange_step(s: Seq<Amp>, lo: int, hi: int)
    requires
        0 <= lo <= hi < s.len(),
    ensures
        sum_p(s.subrange(lo, hi + 1)) == sum_p(s.subrange(lo, hi)) + norm_p(s[hi]),
        sum_q(s.subrange(lo, hi + 1)) == sum_q(s.subrange(lo, hi)) + norm_q(s[hi]),
{
    assert(s.subrange(lo, hi + 1).drop_last() =~= s.subrange(lo, hi));
    assert(s.subrange(lo, hi + 1).last() == s[hi]);
}

/// Sums over adjacent subranges add.
pub proof fn lemma_sum_subrange_split(s: Seq<Amp>, lo: int, mid: int, hi: int)
    requires
        0 <= lo <= mid <= hi <= s.len(),
    ensures
        sum_p(s.subrange(lo, hi)) == sum_p(s.subrange(lo, mid)) + sum_p(s.subrange(mid, hi)),
        sum_q(s.subrange(lo, hi)) == sum_q(s.subrange(lo, mid)) + sum_q(s.subrange(mid, hi)),
    decreases hi - mid,
{
    if hi == mid {
        assert(s.subrange(mid, hi).len() == 0);
    } else {
        lemma_sum_subrange_split(s, lo, mid, hi - 1);
        lemma_sum_subrange_step(s, lo, hi - 1);
        lemma_sum_subrange_step(s, mid, hi - 1);
    }
}

/// The whole sequence is the subrange from 0 to its length.
pub proof fn lemma_sum_subrange_all(s: Seq<Amp>)
    ensures
        sum_p(s.subrange(0, s.len() as int)) == sum_p(s),
        sum_q(s.subrange(0, s.len() as int)) == sum_q(s),
{
    assert(s.subrange(0, s.len() as int) =~= s);
}


/// Prefix sums are bracketed by the total.
pub proof fn lemma_sum_take_le(s: Seq<Amp>, i: int)
    requires
        0 <= i <= s.len(),
    ensures
        0 <= sum_p(s.take(i)) <= sum_p(s),
        -sum_p(s.take(i)) <= sum_q(s.take(i)) <= sum_p(s.take(i)),
{
    assert(s.take(i) =~= s.subrange(0, i));
    lemma_sum_subrange_split(s, 0, i, s.len() as int);
    lemma_sum_gnn(s.take(i));
    lemma_sum_gnn(s.subrange(i, s.len() as int));
    assert(s.subrange(0, s.len() as int) =~= s);
}

/// Exact squared magnitude of one amplitude, as the pair `(p, q)`.
pub fn norm_pair(z: &Amp) -> (r: (i128, i128))
    requires
        bounded(*z, 0x20_0000),
    ensures
        r.0 == norm_p(*z),
        r.1 == norm_q(*z),
{
    proof {
        let m: int = 0x20_0000;
        assert(z.a * z.a <= m * m && z.b * z.b <= m * m && z.c * z.c <= m * m && z.d * z.d <= m
            * m && -(m * m) <= z.a * z.b <= m * m && -(m * m) <= z.b * z.c <= m * m && -(m * m)
            <= z.c * z.d <= m * m && -(m * m) <= z.d * z.a <= m * m && z.a * z.a >= 0 && z.b * z.b
            >= 0 && z.c * z.c >= 0 && z.d * z.d >= 0) by (nonlinear_arith)
            requires
                -m <= z.a <= m && -m <= z.b <= m && -m <= z.c <= m && -m <= z.d <= m,
        ;
    }
    let a = z.a as i128;
    let b = z.b as i128;
    let c = z.c as i128;
    let d = z.d as i128;
    (a * a + b * b + c * c + d * d, a * b + b * c + c * d - d * a)
}

/// Exact total squared magnitude of an amplitude vector.
pub fn compute_norms(amps: &Vec<Amp>) -> (r: (i128, i128))
    requires
        amps@.len() <= 0x10_0000,
        forall|i: int| 0 <= i < amps@.len() ==> bounded(#[trigger] amps@[i], 0x20_0000),
    ensures
        r.0 == sum_p(amps@),
        r.1 == sum_q(amps@),
{
    let mut acc_p: i128 = 0;
    let mut acc_q: i128 = 0;
    let mut i: usize = 0;
    proof {
        assert(sum_p(amps@.take(0)) == 0 && sum_q(amps@.take(0)) == 0);
    }
    while i < amps.len()
        invariant
            i <= amps@.len(),
            amps@.len() <= 0x10_0000,
            forall|k: int| 0 <= k < amps@.len() ==> bounded(#[trigger] amps@[k], 0x20_0000),
            acc_p == sum_p(amps@.take(i as int)),
            acc_q == sum_q(amps@.take(i as int)),
        decreases amps@.len() - i,
    {
        let np = norm_pair(&amps[i]);
        proof {
            lemma_sum_bound(amps@.take(i as int), 0x20_0000);
            lemma_sum_bound(amps@.take(i as int + 1), 0x20_0000);
            assert(amps@.take(i as int).len() * (4 * (0x20_0000 * 0x20_0000)) <= 0x10_0000 * (4
                * (0x20_0000 * 0x20_0000))) by (nonlinear_arith)
                requires
                    amps@.take(i as int).len() <= 0x10_0000,
            ;
            assert(amps@.take(i as int + 1).len() * (4 * (0x20_0000 * 0x20_0000)) <= 0x10_0000
                * (4 * (0x20_0000 * 0x20_0000))) by (nonlinear_arith)
                requires
                    amps@.take(i as int + 1).len() <= 0x10_0000,
            ;
            lemma_sum_take_step(amps@, i as int);
        }
        acc_p = acc_p + np.0;
        acc_q = acc_q + np.1;
        i = i + 1;
    }
    proof {
        lemma_sum_take_all(amps@);
    }
    (acc_p, acc_q)
}

} // verus!
