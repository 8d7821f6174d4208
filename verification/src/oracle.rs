//! Oracle builder: the XOR-into-answer unitary of a boolean function.
//!
//! For a function `f` from `n_in` bits to `n_out` bits, the oracle maps the
//! basis state with input bits `x` and answer bits `y` to the one with
//! answer bits `y XOR f(x)`.  Toggling answer bits never changes the input
//! bits, so the map pairs the basis indices up into disjoint swaps: a
//! permutation matrix, unitary for every `f`.  The engine takes `f`
//! extensionally, as a table with one packed-bits entry per input pattern;
//! a generic front end evaluates a closure once per pattern to build it.

use crate::amplitude::Amp;
use crate::encoding::{bit, flip, lemma_flip_other, lemma_flip_props, pow2_usize};
use crate::norms::{lemma_sum_update, sum_p, sum_q};
use crate::state_vector_simulation::{norm_cap, QuantumSimulation};
use vstd::arithmetic::power2::{lemma_pow2_pos, pow2};
use vstd::prelude::*;

verus! {

/// The input pattern of basis index `k`: the integer whose bit `j` is the
/// value of qubit `ins[j]` in `k`.
pub open spec fn input_pattern(k: int, ins: Seq<usize>) -> int
    decreases ins.len(),
{
    if ins.len() == 0 {
        0
    } else {
        input_pattern(k, ins.drop_last()) + if bit(k, ins.last() as nat) {
            pow2((ins.len() - 1) as nat) as int
        } else {
            0
        }
    }
}

/// Toggle the answer qubits `outs` of `k` wherever the packed entry `e`
/// has the corresponding bit set.
pub open spec fn toggle_bits(k: int, outs: Seq<usize>, e: int) -> int
    decreases outs.len(),
{
    if outs.len() == 0 {
        k
    } else {
        let k1 = toggle_bits(k, outs.drop_last(), e);
        if bit(e, (outs.len() - 1) as nat) {
            flip(k1, outs.last() as nat)
        } else {
            k1
        }
    }
}

/// Where the oracle sends basis index `k`: its answer bits toggled by the
/// table entry of its input pattern.
pub open spec fn oracle_image(k: int, ins: Seq<usize>, outs: Seq<usize>, table: Seq<u64>) -> int {
    toggle_bits(k, outs, table[input_pattern(k, ins)] as int)
}

/// The state after the oracle: every index takes the amplitude of its
/// image (a self-inverse permutation, so gather equals scatter).
pub open spec fn oracle_transform(
    s: Seq<Amp>,
    ins: Seq<usize>,
    outs: Seq<usize>,
    table: Seq<u64>,
) -> Seq<Amp> {
    Seq::new(s.len(), |k: int| s[oracle_image(k, ins, outs, table)])
}

/// All entries of `qs` are distinct qubit indices below `n`.
pub open spec fn distinct_qubits(qs: Seq<usize>, n: int) -> bool {
    &&& forall|j: int| 0 <= j < qs.len() ==> #[trigger] qs[j] < n
    &&& forall|j1: int, j2: int|
        0 <= j1 < j2 < qs.len() ==> #[trigger] qs[j1] != #[trigger] qs[j2]
}

/// No entry of `qs1` occurs in `qs2`.
pub open spec fn disjoint_qubits(qs1: Seq<usize>, qs2: Seq<usize>) -> bool {
    forall|j1: int, j2: int|
        0 <= j1 < qs1.len() && 0 <= j2 < qs2.len() ==> #[trigger] qs1[j1] != #[trigger] qs2[j2]
}

/// Flips of two different bits commute.
proof fn lemma_flip_commute(k: int, a: nat, b: nat, n: nat)
    requires
        0 <= k < pow2(n),
        a < n,
        b < n,
        a != b,
    ensures
        flip(flip(k, a), b) == flip(flip(k, b), a),
{
    lemma_flip_props(k, a, n);
    lemma_flip_props(k, b, n);
    lemma_flip_other(k, a, b, n);
    lemma_flip_other(k, b, a, n);
}

/// Toggling stays inside the register and leaves untargeted bits alone.
proof fn lemma_toggle_range(k: int, outs: Seq<usize>, e: int, n: nat)
    requires
        0 <= k < pow2(n),
        forall|j: int| 0 <= j < outs.len() ==> #[trigger] outs[j] < n,
    ensures
        0 <= toggle_bits(k, outs, e) < pow2(n),
    decreases outs.len(),
{
    if outs.len() > 0 {
        lemma_toggle_range(k, outs.drop_last(), e, n);
        if bit(e, (outs.len() - 1) as nat) {
            lemma_flip_props(toggle_bits(k, outs.drop_last(), e), outs.last() as nat, n);
        }
    }
}

/// A bit outside `outs` is untouched by the toggle.
proof fn lemma_toggle_other(k: int, outs: Seq<usize>, e: int, n: nat, q2: nat)
    requires
        0 <= k < pow2(n),
        forall|j: int| 0 <= j < outs.len() ==> #[trigger] outs[j] < n,
        forall|j: int| 0 <= j < outs.len() ==> #[trigger] outs[j] as nat != q2,
    ensures
        bit(toggle_bits(k, outs, e), q2) == bit(k, q2),
    decreases outs.len(),
{
    if outs.len() > 0 {
        lemma_toggle_other(k, outs.drop_last(), e, n, q2);
        lemma_toggle_range(k, outs.drop_last(), e, n);
        if bit(e, (outs.len() - 1) as nat) {
            lemma_flip_other(toggle_bits(k, outs.drop_last(), e), outs.last() as nat, q2, n);
        }
    }
}

/// A toggle commutes with a flip of a bit outside `outs`.
proof fn lemma_toggle_flip_commute(k: int, outs: Seq<usize>, e: int, n: nat, q2: nat)
    requires
        0 <= k < pow2(n),
        q2 < n,
        forall|j: int| 0 <= j < outs.len() ==> #[trigger] outs[j] < n,
        forall|j: int| 0 <= j < outs.len() ==> #[trigger] outs[j] as nat != q2,
    ensures
        toggle_bits(flip(k, q2), outs, e) == flip(toggle_bits(k, outs, e), q2),
    decreases outs.len(),
{
    lemma_flip_props(k, q2, n);
    if outs.len() > 0 {
        lemma_toggle_flip_commute(k, outs.drop_last(), e, n, q2);
        lemma_toggle_range(k, outs.drop_last(), e, n);
        if bit(e, (outs.len() - 1) as nat) {
            lemma_flip_commute(toggle_bits(k, outs.drop_last(), e), outs.last() as nat, q2, n);
        }
    }
}

/// Toggling the same bits twice restores the index.
proof fn lemma_toggle_involution(k: int, outs: Seq<usize>, e: int, n: nat)
    requires
        0 <= k < pow2(n),
        distinct_qubits(outs, n as int),
    ensures
        toggle_bits(toggle_bits(k, outs, e), outs, e) == k,
    decreases outs.len(),
{
    if outs.len() > 0 {
        let outs1 = outs.drop_last();
        let q = outs.last() as nat;
        let t1 = toggle_bits(k, outs1, e);
        lemma_toggle_range(k, outs1, e, n);
        assert(forall|j: int| 0 <= j < outs1.len() ==> #[trigger] outs1[j] as nat != q);
        if bit(e, (outs.len() - 1) as nat) {
            // toggle(flip(t1)) == flip(toggle(flip(t1), outs1)) ... unfold once.
            lemma_flip_props(t1, q, n);
            lemma_toggle_flip_commute(t1, outs1, e, n, q);
            lemma_toggle_involution(k, outs1, e, n);
            lemma_toggle_range(flip(t1, q), outs1, e, n);
            assert(toggle_bits(toggle_bits(k, outs, e), outs, e) == flip(
                toggle_bits(flip(t1, q), outs1, e),
                q,
            ));
            assert(toggle_bits(flip(t1, q), outs1, e) == flip(toggle_bits(t1, outs1, e), q));
            assert(toggle_bits(t1, outs1, e) == k);
            lemma_flip_props(k, q, n);
        } else {
            lemma_toggle_involution(k, outs1, e, n);
        }
    }
}

/// The input pattern is in range and depends only on the input qubits.
proof fn lemma_pattern_range(k: int, ins: Seq<usize>)
    ensures
        0 <= input_pattern(k, ins) < pow2(ins.len() as nat),
    decreases ins.len(),
{
    lemma_pow2_pos(ins.len() as nat);
    if ins.len() > 0 {
        lemma_pattern_range(k, ins.drop_last());
        lemma_pow2_pos((ins.len() - 1) as nat);
        vstd::arithmetic::power2::lemma_pow2_adds((ins.len() - 1) as nat, 1);
        vstd::arithmetic::power2::lemma2_to64();
    }
}

/// Two indices that agree on every input qubit have the same pattern.
proof fn lemma_pattern_same(k1: int, k2: int, ins: Seq<usize>)
    requires
        forall|j: int|
            0 <= j < ins.len() ==> bit(k1, #[trigger] ins[j] as nat) == bit(k2, ins[j] as nat),
    ensures
        input_pattern(k1, ins) == input_pattern(k2, ins),
    decreases ins.len(),
{
    if ins.len() > 0 {
        lemma_pattern_same(k1, k2, ins.drop_last());
    }
}

/// The oracle's index map is a self-inverse permutation of the register.
pub proof fn lemma_oracle_image_props(
    k: int,
    ins: Seq<usize>,
    outs: Seq<usize>,
    table: Seq<u64>,
    n: nat,
)
    requires
        0 <= k < pow2(n),
        forall|j: int| 0 <= j < ins.len() ==> #[trigger] ins[j] < n,
        distinct_qubits(outs, n as int),
        disjoint_qubits(ins, outs),
        table.len() == pow2(ins.len() as nat),
    ensures
        0 <= oracle_image(k, ins, outs, table) < pow2(n),
        oracle_image(oracle_image(k, ins, outs, table), ins, outs, table) == k,
    decreases outs.len(),
{
    let pat = input_pattern(k, ins);
    lemma_pattern_range(k, ins);
    let e = table[pat] as int;
    let img = toggle_bits(k, outs, e);
    lemma_toggle_range(k, outs, e, n);
    // The image has the same input bits, hence the same pattern and entry.
    assert forall|j: int| 0 <= j < ins.len() implies bit(img, #[trigger] ins[j] as nat) == bit(
        k,
        ins[j] as nat,
    ) by {
        lemma_toggle_other(k, outs, e, n, ins[j] as nat);
    }
    lemma_pattern_same(img, k, ins);
    lemma_toggle_involution(k, outs, e, n);
}

impl QuantumSimulation {
    /// Apply the XOR-into-answer oracle of the boolean function given
    /// extensionally: `table` has one entry per input pattern, whose bit
    /// `j` says whether answer qubit `j` is toggled for that pattern.
    ///
    /// The sweep visits each index once, pairing it with its image;
    /// members of a pair swap amplitudes when the lower one is reached,
    /// so the whole pass is the permutation and the total squared
    /// magnitude is unchanged.
    pub fn apply_oracle(
        &mut self,
        table: &Vec<u64>,
        input_qubits: &Vec<usize>,
        answer_qubits: &Vec<usize>,
    )
        requires
            old(self).wf(),
            distinct_qubits(input_qubits@, old(self).qubit_count as int),
            distinct_qubits(answer_qubits@, old(self).qubit_count as int),
            disjoint_qubits(input_qubits@, answer_qubits@),
            input_qubits@.len() <= 20,
            table@.len() == pow2(input_qubits@.len() as nat),
        ensures
            final(self).wf(),
            final(self).qubit_count == old(self).qubit_count,
            final(self).norm_p_total == old(self).norm_p_total,
            final(self).norm_q_total == old(self).norm_q_total,
            final(self).rng == old(self).rng,
            final(self).amplitudes@ == oracle_transform(
                old(self).amplitudes@,
                input_qubits@,
                answer_qubits@,
                table@,
            ),
    {
        let ghost orig = self.amplitudes@;
        let ghost ins = input_qubits@;
        let ghost outs = answer_qubits@;
        let ghost tab = table@;
        let ghost n = self.qubit_count as nat;
        let len = self.amplitudes.len();
        proof {
            assert forall|k: int| 0 <= k < len implies (if (if k <= oracle_image(
                k,
                ins,
                outs,
                tab,
            ) {
                k
            } else {
                oracle_image(k, ins, outs, tab)
            }) < 0 {
                orig[oracle_image(k, ins, outs, tab)]
            } else {
                orig[k]
            }) == orig[k] by {
                lemma_oracle_image_props(k, ins, outs, tab, n);
            }
        }
        let mut i: usize = 0;
        while i < len
            invariant
                i <= len,
                self.qubit_count == old(self).qubit_count,
                self.norm_p_total == old(self).norm_p_total,
                self.norm_q_total == old(self).norm_q_total,
                self.rng == old(self).rng,
                ins == input_qubits@,
                outs == answer_qubits@,
                tab == table@,
                n == self.qubit_count as nat,
                1 <= n <= 20,
                distinct_qubits(ins, n as int),
                distinct_qubits(outs, n as int),
                forall|j: int| 0 <= j < ins.len() ==> #[trigger] ins[j] < n,
                forall|j: int| 0 <= j < outs.len() ==> #[trigger] outs[j] < n,
                disjoint_qubits(ins, outs),
                ins.len() <= 20,
                tab.len() == pow2(ins.len() as nat),
                len == pow2(n),
                orig == old(self).amplitudes@,
                orig.len() == len,
                self.amplitudes@.len() == len,
                sum_p(self.amplitudes@) == sum_p(orig),
                sum_q(self.amplitudes@) == sum_q(orig),
                1 <= sum_p(orig) <= norm_cap(),
                forall|k: int|
                    0 <= k < len ==> #[trigger] self.amplitudes@[k] == (if (if k <= oracle_image(
                        k,
                        ins,
                        outs,
                        tab,
                    ) {
                        k
                    } else {
                        oracle_image(k, ins, outs, tab)
                    }) < i {
                        orig[oracle_image(k, ins, outs, tab)]
                    } else {
                        orig[k]
                    }),
            decreases len - i,
        {
            // Compute the input pattern of index i.
            let ghost kk = i as int;
            let n_in = input_qubits.len();
            let mut pattern: usize = 0;
            let mut j: usize = 0;
            let mut weight: usize = 1;
            proof {
                vstd::arithmetic::power2::lemma2_to64();
                assert(ins.take(0).len() == 0);
            }
            while j < n_in
                invariant
                    j <= n_in,
                    n_in == ins.len(),
                    ins == input_qubits@,
                    kk == i as int,
                    forall|t: int| 0 <= t < ins.len() ==> #[trigger] ins[t] < 20,
                    ins.len() <= 20,
                    weight == pow2(j as nat),
                    pattern == input_pattern(kk, ins.take(j as int)),
                    pattern < weight,
                decreases n_in - j,
            {
                let qn = input_qubits[j];
                let mask = pow2_usize(qn);
                proof {
                    lemma_pow2_pos(qn as nat);
                    lemma_pow2_pos(j as nat);
                    assert(ins.take(j as int + 1).drop_last() =~= ins.take(j as int));
                    vstd::arithmetic::power2::lemma_pow2_adds(j as nat, 1);
                    vstd::arithmetic::power2::lemma2_to64();
                    if (j + 1) as nat != 20 {
                        vstd::arithmetic::power2::lemma_pow2_strictly_increases(
                            (j + 1) as nat,
                            20,
                        );
                    }
                }
                if (i / mask) % 2 == 1 {
                    pattern = pattern + weight;
                }
                weight = weight * 2;
                j = j + 1;
            }
            proof {
                assert(ins.take(ins.len() as int) =~= ins);
                lemma_pattern_range(kk, ins);
            }
            let entry = table[pattern];
            let ghost e = entry as int;
            // Toggle the answer bits that the entry marks.
            let n_out = answer_qubits.len();
            let mut img: usize = i;
            let mut j2: usize = 0;
            let mut ebits: u64 = entry;
            proof {
                vstd::arithmetic::power2::lemma2_to64();
                assert(outs.take(0).len() == 0);
                assert(e / (pow2(0) as nat as int) == e);
            }
            while j2 < n_out
                invariant
                    j2 <= n_out,
                    n_out == outs.len(),
                    outs == answer_qubits@,
                    kk == i as int,
                    i < len,
                    len == pow2(n),
                    n <= 20,
                    e == entry as int,
                    ebits as int == e / (pow2(j2 as nat) as int),
                    forall|t: int| 0 <= t < outs.len() ==> #[trigger] outs[t] < n,
                    distinct_qubits(outs, n as int),
                    img as int == toggle_bits(kk, outs.take(j2 as int), e),
                    0 <= img < len,
                decreases n_out - j2,
            {
                let qn = answer_qubits[j2];
                let mask = pow2_usize(qn);
                proof {
                    lemma_pow2_pos(qn as nat);
                    assert(outs.take(j2 as int + 1).drop_last() =~= outs.take(j2 as int));
                    assert(outs.take(j2 as int + 1).last() == outs[j2 as int]);
                    assert forall|t: int| 0 <= t < outs.take(j2 as int).len() implies #[trigger] outs.take(
                        j2 as int,
                    )[t] < n by {}
                    lemma_toggle_range(kk, outs.take(j2 as int), e, n);
                    lemma_flip_props(img as int, qn as nat, n);
                    assert(bit(e, j2 as nat) == ((e / (pow2(j2 as nat) as int)) % 2 == 1));
                    lemma_pow2_pos(j2 as nat);
                    vstd::arithmetic::div_mod::lemma_div_denominator(
                        e,
                        pow2(j2 as nat) as int,
                        2,
                    );
                    vstd::arithmetic::power2::lemma_pow2_adds(j2 as nat, 1);
                    vstd::arithmetic::power2::lemma2_to64();
                    assert((pow2(j2 as nat) as int) * 2 == pow2((j2 + 1) as nat) as int);
                }
                if ebits % 2 == 1 {
                    if (img / mask) % 2 == 1 {
                        img = img - mask;
                    } else {
                        img = img + mask;
                    }
                }
                ebits = ebits / 2;
                j2 = j2 + 1;
            }
            proof {
                assert(outs.take(outs.len() as int) =~= outs);
                assert(img as int == oracle_image(kk, ins, outs, tab));
                lemma_oracle_image_props(kk, ins, outs, tab, n);
            }
            // Swap with the image when this index is the lower of its pair.
            if i < img {
                let x = self.amplitudes[i];
                let y = self.amplitudes[img];
                proof {
                    assert(x == orig[kk] && y == orig[img as int]);
                }
                let ghost before = self.amplitudes@;
                self.amplitudes.set(i, y);
                self.amplitudes.set(img, x);
                proof {
                    lemma_sum_update(before, kk, y);
                    lemma_sum_update(before.update(kk, y), img as int, x);
                    assert forall|k: int| 0 <= k < len implies self.amplitudes@[k] == (if (
                    if k <= oracle_image(k, ins, outs, tab) {
                        k
                    } else {
                        oracle_image(k, ins, outs, tab)
                    }) < kk + 1 {
                        orig[oracle_image(k, ins, outs, tab)]
                    } else {
                        orig[k]
                    }) by {
                        lemma_oracle_image_props(k, ins, outs, tab, n);
                        if k == kk {
                        } else if k == img as int {
                        } else {
                            if oracle_image(k, ins, outs, tab) == kk {
                                assert(oracle_image(kk, ins, outs, tab) == k);
                                assert(k == img as int);
                            }
                        }
                    }
                }
            } else {
                proof {
                    assert forall|k: int| 0 <= k < len implies self.amplitudes@[k] == (if (
                    if k <= oracle_image(k, ins, outs, tab) {
                        k
                    } else {
                        oracle_image(k, ins, outs, tab)
                    }) < kk + 1 {
                        orig[oracle_image(k, ins, outs, tab)]
                    } else {
                        orig[k]
                    }) by {
                        lemma_oracle_image_props(k, ins, outs, tab, n);
                        if k == kk {
                            assert(oracle_image(kk, ins, outs, tab) <= kk);
                            if oracle_image(kk, ins, outs, tab) < kk {
                                assert(self.amplitudes@[k] == orig[oracle_image(
                                    k,
                                    ins,
                                    outs,
                                    tab,
                                )]);
                            } else {
                                assert(oracle_image(kk, ins, outs, tab) == kk);
                            }
                        } else {
                            if oracle_image(k, ins, outs, tab) == kk {
                                assert(oracle_image(kk, ins, outs, tab) == k);
                                assert(k > kk || k < kk);
                                if k > kk {
                                    assert(img as int == k);
                                    assert(false);
                                }
                            }
                        }
                    }
                }
            }
            i = i + 1;
        }
        proof {
            assert(self.amplitudes@ =~= oracle_transform(orig, ins, outs, tab)) by {
                assert forall|k: int| 0 <= k < len implies self.amplitudes@[k]
                    == oracle_transform(orig, ins, outs, tab)[k] by {
                    lemma_oracle_image_props(k, ins, outs, tab, n);
                }
            }
        }
    }
}



/// One oracle-table entry is a possible answer of the closure `f` on the
/// given input pattern: some call of `f` on that pattern's bits may return
/// exactly the bits packed in the entry.
pub open spec fn entry_ok<F: Fn(Vec<bool>) -> Vec<bool>>(
    f: F,
    pattern: int,
    e: u64,
    n_in: int,
    n_out: int,
) -> bool {
    exists|xv: Vec<bool>, yv: Vec<bool>|
        {
            &&& xv@.len() == n_in
            &&& (forall|j: int| 0 <= j < xv@.len() ==> xv@[j] == bit(pattern, j as nat))
            &&& #[trigger] call_ensures(f, (xv,), yv)
            &&& (forall|j: int| 0 <= j < n_out ==> bit(e as int, j as nat) == yv@[j])
        }
}


/// Public face of the toggle range fact.
pub proof fn lemma_toggle_range_pub(k: int, outs: Seq<usize>, e: int, n: nat)
    requires
        0 <= k < pow2(n),
        forall|j: int| 0 <= j < outs.len() ==> #[trigger] outs[j] < n,
    ensures
        0 <= toggle_bits(k, outs, e) < pow2(n),
{
    lemma_toggle_range(k, outs, e, n);
}

/// Public face of the untargeted-bit fact.
pub proof fn lemma_toggle_other_pub(k: int, outs: Seq<usize>, e: int, n: nat, q2: nat)
    requires
        0 <= k < pow2(n),
        forall|j: int| 0 <= j < outs.len() ==> #[trigger] outs[j] < n,
        forall|j: int| 0 <= j < outs.len() ==> #[trigger] outs[j] as nat != q2,
    ensures
        bit(toggle_bits(k, outs, e), q2) == bit(k, q2),
{
    lemma_toggle_other(k, outs, e, n, q2);
}

/// A value below `2^q` has bit `q` clear.
proof fn lemma_small_bit(k: int, q: nat)
    requires
        0 <= k < pow2(q),
    ensures
        !bit(k, q),
{
    lemma_pow2_pos(q);
    assert(k / (pow2(q) as int) == 0) by {
        vstd::arithmetic::div_mod::lemma_basic_div(k, pow2(q) as int);
    }
}

impl QuantumSimulation {
    /// Apply the oracle of the boolean function `f`, given as a closure
    /// from the input qubits' values to the answer qubits' toggles.  The
    /// closure is evaluated once per input pattern to build the oracle
    /// table, and the table drives the permutation, so a closure that
    /// answers inconsistently between calls cannot break unitarity.
    pub fn apply_u_f<F: Fn(Vec<bool>) -> Vec<bool>>(
        &mut self,
        f: F,
        input_qubits: &Vec<usize>,
        answer_qubits: &Vec<usize>,
    )
        requires
            old(self).wf(),
            distinct_qubits(input_qubits@, old(self).qubit_count as int),
            distinct_qubits(answer_qubits@, old(self).qubit_count as int),
            disjoint_qubits(input_qubits@, answer_qubits@),
            input_qubits@.len() <= 20,
            answer_qubits@.len() <= 20,
            forall|x: Vec<bool>|
                x@.len() == input_qubits@.len() ==> #[trigger] call_requires(f, (x,)),
            forall|x: Vec<bool>, y: Vec<bool>|
                #[trigger] call_ensures(f, (x,), y) ==> y@.len() == answer_qubits@.len(),
        ensures
            final(self).wf(),
            final(self).qubit_count == old(self).qubit_count,
            final(self).norm_p_total == old(self).norm_p_total,
            final(self).norm_q_total == old(self).norm_q_total,
            final(self).rng == old(self).rng,
            exists|tab: Seq<u64>|
                {
                    &&& tab.len() == pow2(input_qubits@.len() as nat)
                    &&& (forall|x: int|
                        0 <= x < tab.len() ==> entry_ok(
                            f,
                            x,
                            #[trigger] tab[x],
                            input_qubits@.len() as int,
                            answer_qubits@.len() as int,
                        ))
                    &&& final(self).amplitudes@ == oracle_transform(
                        old(self).amplitudes@,
                        input_qubits@,
                        answer_qubits@,
                        tab,
                    )
                },
    {
        let n_in = input_qubits.len();
        let n_out = answer_qubits.len();
        let size = pow2_usize(n_in);
        let mut table: Vec<u64> = Vec::new();
        let mut x: usize = 0;
        while x < size
            invariant
                x <= size,
                size == pow2(n_in as nat),
                n_in == input_qubits@.len(),
                n_out == answer_qubits@.len(),
                n_in <= 20,
                n_out <= 20,
                forall|xv: Vec<bool>|
                    xv@.len() == n_in ==> #[trigger] call_requires(f, (xv,)),
                forall|xv: Vec<bool>, yv: Vec<bool>|
                    #[trigger] call_ensures(f, (xv,), yv) ==> yv@.len() == n_out,
                table@.len() == x,
                forall|t: int|
                    0 <= t < x ==> entry_ok(
                        f,
                        t,
                        #[trigger] table@[t],
                        n_in as int,
                        n_out as int,
                    ),
            decreases size - x,
        {
            // Decode the input pattern into a bit list.
            let mut xv: Vec<bool> = Vec::new();
            let mut j: usize = 0;
            while j < n_in
                invariant
                    j <= n_in,
                    n_in <= 20,
                    xv@.len() == j,
                    forall|t: int| 0 <= t < j ==> xv@[t] == bit(x as int, t as nat),
                decreases n_in - j,
            {
                let mask = pow2_usize(j);
                proof {
                    lemma_pow2_pos(j as nat);
                }
                xv.push((x / mask) % 2 == 1);
                j = j + 1;
            }
            let ghost gxv = xv;
            let yv = f(xv);
            proof {
                assert(call_ensures(f, (gxv,), yv));
                assert(yv@.len() == n_out);
            }
            // Pack the answer bits into one table entry.
            let mut entry: u64 = 0;
            let mut weight: u64 = 1;
            let mut j2: usize = 0;
            proof {
                vstd::arithmetic::power2::lemma2_to64();
            }
            while j2 < n_out
                invariant
                    j2 <= n_out,
                    n_out <= 20,
                    n_out == yv@.len(),
                    weight == pow2(j2 as nat),
                    0 <= entry < pow2(j2 as nat),
                    forall|t: int|
                        0 <= t < j2 ==> bit(entry as int, t as nat) == yv@[t],
                decreases n_out - j2,
            {
                proof {
                    lemma_pow2_pos(j2 as nat);
                    vstd::arithmetic::power2::lemma_pow2_adds(j2 as nat, 1);
                    vstd::arithmetic::power2::lemma2_to64();
                    if (j2 + 1) as nat != 20 {
                        vstd::arithmetic::power2::lemma_pow2_strictly_increases(
                            (j2 + 1) as nat,
                            20,
                        );
                    }
                    lemma_small_bit(entry as int, j2 as nat);
                    assert forall|t: nat| t < j2 implies bit(
                        (entry + weight) as int,
                        t,
                    ) == bit(entry as int, t) by {
                        assert(flip(entry as int, j2 as nat) == entry + weight);
                        lemma_flip_other(entry as int, j2 as nat, t, 64);
                        vstd::arithmetic::power2::lemma_pow2_strictly_increases(j2 as nat, 64);
                    }
                    assert(bit((entry + weight) as int, j2 as nat)) by {
                        assert(flip(entry as int, j2 as nat) == entry + weight);
                        lemma_flip_props(entry as int, j2 as nat, 64);
                        vstd::arithmetic::power2::lemma_pow2_strictly_increases(j2 as nat, 64);
                    }
                }
                if yv[j2] {
                    entry = entry + weight;
                }
                weight = weight * 2;
                j2 = j2 + 1;
            }
            table.push(entry);
            proof {
                assert(entry_ok(f, x as int, entry, n_in as int, n_out as int)) by {
                    assert(gxv@.len() == n_in && (forall|jj: int|
                        0 <= jj < gxv@.len() ==> gxv@[jj] == bit(x as int, jj as nat))
                        && call_ensures(f, (gxv,), yv) && (forall|jj: int|
                        0 <= jj < n_out ==> bit(entry as int, jj as nat) == yv@[jj]));
                }
            }
            x = x + 1;
        }
        self.apply_oracle(&table, input_qubits, answer_qubits);
        proof {
            let tab = table@;
            assert(tab.len() == pow2(input_qubits@.len() as nat) && (forall|t: int|
                0 <= t < tab.len() ==> entry_ok(
                    f,
                    t,
                    #[trigger] tab[t],
                    input_qubits@.len() as int,
                    answer_qubits@.len() as int,
                )) && self.amplitudes@ == oracle_transform(
                old(self).amplitudes@,
                input_qubits@,
                answer_qubits@,
                tab,
            ));
        }
    }
}

} // verus!
