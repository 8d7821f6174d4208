//! Tallying of measurement outcomes.
//!
//! A batch of outcome lists (all of one length) is reduced to a frequency
//! count per full outcome — indexed by the basis encoding of the outcome
//! bits — and a per-qubit count of 1-results.  Rendering those counts is
//! left to the caller; the two string helpers here give the conventional
//! ket notation for an outcome and for a single-qubit marginal.

use crate::encoding::pow2_usize;
use vstd::arithmetic::power2::{lemma_pow2_pos, pow2};
use vstd::prelude::*;
use vstd::string::StringExecFns;

verus! {

/// The basis encoding of an outcome list: bit `j` of the result is
/// outcome `j`.
pub open spec fn outcome_index(m: Seq<bool>) -> int
    decreases m.len(),
{
    if m.len() == 0 {
        0
    } else {
        outcome_index(m.drop_last()) + if m.last() {
            pow2((m.len() - 1) as nat) as int
        } else {
            0
        }
    }
}

/// How many outcome lists in `ms` encode to basis index `x`.
pub open spec fn count_outcome(ms: Seq<Seq<bool>>, x: int) -> int
    decreases ms.len(),
{
    if ms.len() == 0 {
        0
    } else {
        count_outcome(ms.drop_last(), x) + if outcome_index(ms.last()) == x {
            1int
        } else {
            0int
        }
    }
}

/// How many outcome lists in `ms` have qubit `j` measured as 1.
pub open spec fn count_ones(ms: Seq<Seq<bool>>, j: int) -> int
    decreases ms.len(),
{
    if ms.len() == 0 {
        0
    } else {
        count_ones(ms.drop_last(), j) + if ms.last()[j] {
            1int
        } else {
            0int
        }
    }
}

/// The ket notation of one outcome list, highest qubit first.
pub open spec fn outcome_chars(m: Seq<bool>) -> Seq<char> {
    Seq::new(m.len(), |i: int| if m[m.len() - 1 - i] {
        '1'
    } else {
        '0'
    })
}

/// `|...>` notation for a full outcome, highest qubit first.
pub fn measurement_string(measurement: Vec<bool>) -> (r: String)
    ensures
        r@ == seq!['|'] + outcome_chars(measurement@) + seq!['>'],
{
    let mut result = String::from_str("|");
    proof {
        reveal_strlit("|");
        reveal_strlit("1");
        reveal_strlit("0");
        reveal_strlit(">");
        assert(result@ =~= seq!['|'] + outcome_chars(measurement@).take(0));
    }
    let len = measurement.len();
    let mut j: usize = 0;
    while j < len
        invariant
            j <= len,
            len == measurement@.len(),
            result@ == seq!['|'] + outcome_chars(measurement@).take(j as int),
        decreases len - j,
    {
        proof {
            reveal_strlit("1");
            reveal_strlit("0");
        }
        if measurement[len - 1 - j] {
            result.append("1");
        } else {
            result.append("0");
        }
        proof {
            assert(result@ =~= seq!['|'] + outcome_chars(measurement@).take(j as int + 1));
        }
        j = j + 1;
    }
    proof {
        reveal_strlit(">");
        assert(outcome_chars(measurement@).take(len as int) =~= outcome_chars(measurement@));
    }
    result.append(">");
    proof {
        assert(result@ =~= seq!['|'] + outcome_chars(measurement@) + seq!['>']);
    }
    result
}

/// The ket pattern that marks one qubit's 1-result among wildcards.
pub open spec fn wildcard_chars(qubit_count: int, qubit_number: int) -> Seq<char> {
    Seq::new(qubit_count as nat, |i: int| if qubit_count - 1 - i == qubit_number {
        '1'
    } else {
        '*'
    })
}

/// `|**1*>`-style notation for a single qubit's marginal.
pub fn measurement_wildcard(qubit_count: usize, qubit_number: usize) -> (r: String)
    ensures
        r@ == seq!['|'] + wildcard_chars(qubit_count as int, qubit_number as int) + seq!['>'],
{
    let mut result = String::from_str("|");
    proof {
        reveal_strlit("|");
        assert(result@ =~= seq!['|'] + wildcard_chars(qubit_count as int, qubit_number as int).take(
            0,
        ));
    }
    let mut j: usize = 0;
    while j < qubit_count
        invariant
            j <= qubit_count,
            result@ == seq!['|'] + wildcard_chars(qubit_count as int, qubit_number as int).take(
                j as int,
            ),
        decreases qubit_count - j,
    {
        proof {
            reveal_strlit("1");
            reveal_strlit("*");
        }
        if qubit_count - 1 - j == qubit_number {
            result.append("1");
        } else {
            result.append("*");
        }
        proof {
            assert(result@ =~= seq!['|'] + wildcard_chars(
                qubit_count as int,
                qubit_number as int,
            ).take(j as int + 1));
        }
        j = j + 1;
    }
    proof {
        reveal_strlit(">");
        assert(wildcard_chars(qubit_count as int, qubit_number as int).take(qubit_count as int)
            =~= wildcard_chars(qubit_count as int, qubit_number as int));
    }
    result.append(">");
    proof {
        assert(result@ =~= seq!['|'] + wildcard_chars(qubit_count as int, qubit_number as int)
            + seq!['>']);
    }
    result
}

/// Reduce a batch of equal-length outcome lists to the frequency count of
/// every full outcome (indexed by basis encoding) and the per-qubit count
/// of 1-results.
pub fn tally_measurements(measurements: &Vec<Vec<bool>>, qubit_count: usize) -> (r: (
    Vec<usize>,
    Vec<usize>,
))
    requires
        1 <= qubit_count <= 20,
        forall|i: int|
            0 <= i < measurements@.len() ==> (#[trigger] measurements@[i])@.len()
                == qubit_count,
        measurements@.len() <= 0x1000_0000,
    ensures
        r.0@.len() == pow2(qubit_count as nat),
        r.1@.len() == qubit_count,
        forall|x: int|
            0 <= x < r.0@.len() ==> #[trigger] r.0@[x] == count_outcome(
                measurements@.map_values(|m: Vec<bool>| m@),
                x,
            ),
        forall|j: int|
            0 <= j < qubit_count ==> #[trigger] r.1@[j] == count_ones(
                measurements@.map_values(|m: Vec<bool>| m@),
                j,
            ),
{
    let ghost ms = measurements@.map_values(|m: Vec<bool>| m@);
    let size = pow2_usize(qubit_count);
    let mut counts: Vec<usize> = Vec::new();
    let mut k: usize = 0;
    while k < size
        invariant
            k <= size,
            counts@.len() == k,
            forall|x: int| 0 <= x < k ==> counts@[x] == 0,
        decreases size - k,
    {
        counts.push(0);
        k = k + 1;
    }
    let mut one_counts: Vec<usize> = Vec::new();
    let mut k2: usize = 0;
    while k2 < qubit_count
        invariant
            k2 <= qubit_count,
            one_counts@.len() == k2,
            forall|x: int| 0 <= x < k2 ==> one_counts@[x] == 0,
        decreases qubit_count - k2,
    {
        one_counts.push(0);
        k2 = k2 + 1;
    }
    proof {
        assert(ms.take(0).len() == 0);
        assert forall|x: int| 0 <= x < size implies count_outcome(ms.take(0), x) == 0 by {}
        assert forall|j: int| 0 <= j < qubit_count implies count_ones(ms.take(0), j) == 0 by {}
    }
    let mut i: usize = 0;
    while i < measurements.len()
        invariant
            i <= measurements@.len(),
            measurements@.len() <= 0x1000_0000,
            1 <= qubit_count <= 20,
            ms == measurements@.map_values(|m: Vec<bool>| m@),
            ms.len() == measurements@.len(),
            forall|t: int|
                0 <= t < measurements@.len() ==> (#[trigger] measurements@[t])@.len()
                    == qubit_count,
            size == pow2(qubit_count as nat),
            counts@.len() == size,
            one_counts@.len() == qubit_count,
            forall|x: int|
                0 <= x < size ==> #[trigger] counts@[x] == count_outcome(ms.take(i as int), x),
            forall|j: int|
                0 <= j < qubit_count ==> #[trigger] one_counts@[j] == count_ones(
                    ms.take(i as int),
                    j,
                ),
        decreases measurements@.len() - i,
    {
        let row = &measurements[i];
        proof {
            assert(ms[i as int] == row@);
        }
        // Count the 1-results and encode the row in one pass.
        let mut idx: usize = 0;
        let mut weight: usize = 1;
        let mut j: usize = 0;
        proof {
            vstd::arithmetic::power2::lemma2_to64();
            assert(row@.take(0).len() == 0);
            assert forall|t: int| 0 <= t < qubit_count implies count_ones(ms.take(i as int), t)
                <= ms.take(i as int).len() by {
                lemma_count_ones_bound(ms.take(i as int), t);
            }
        }
        while j < qubit_count
            invariant
                j <= qubit_count,
                qubit_count <= 20,
                row@.len() == qubit_count,
                weight == pow2(j as nat),
                idx == outcome_index(row@.take(j as int)),
                0 <= idx < weight,
                one_counts@.len() == qubit_count,
                i < ms.len(),
                ms.len() <= 0x1000_0000,
                ms[i as int] == row@,
                forall|t: int|
                    0 <= t < qubit_count ==> #[trigger] one_counts@[t] == count_ones(
                        ms.take(i as int),
                        t,
                    ) + if t < j && row@[t] {
                        1int
                    } else {
                        0int
                    },
                forall|t: int|
                    0 <= t < qubit_count ==> count_ones(ms.take(i as int), t)
                        <= ms.take(i as int).len(),
            decreases qubit_count - j,
        {
            proof {
                lemma_pow2_pos(j as nat);
                vstd::arithmetic::power2::lemma_pow2_adds(j as nat, 1);
                vstd::arithmetic::power2::lemma2_to64();
                if (j + 1) as nat != 20 {
                    vstd::arithmetic::power2::lemma_pow2_strictly_increases((j + 1) as nat, 20);
                }
                assert(row@.take(j as int + 1).drop_last() =~= row@.take(j as int));
                lemma_count_ones_bound(ms.take(i as int), j as int);
            }
            if row[j] {
                idx = idx + weight;
                let c = one_counts[j];
                proof {
                    assert(count_ones(ms.take(i as int), j as int) >= 0) by {
                        lemma_count_ones_bound(ms.take(i as int), j as int);
                    }
                }
                one_counts.set(j, c + 1);
            }
            weight = weight * 2;
            j = j + 1;
        }
        proof {
            assert(row@.take(qubit_count as int) =~= row@);
            assert(ms.take(i as int + 1).drop_last() =~= ms.take(i as int));
            assert(ms.take(i as int + 1).last() == row@);
            lemma_count_outcome_bound(ms.take(i as int), idx as int);
        }
        let c = counts[idx];
        counts.set(idx, c + 1);
        proof {
            assert forall|x: int| 0 <= x < size implies #[trigger] counts@[x] == count_outcome(
                ms.take(i as int + 1),
                x,
            ) by {}
            assert forall|t: int| 0 <= t < qubit_count implies #[trigger] one_counts@[t]
                == count_ones(ms.take(i as int + 1), t) by {}
        }
        i = i + 1;
    }
    proof {
        assert(ms.take(ms.len() as int) =~= ms);
    }
    (counts, one_counts)
}

/// Counts never exceed the number of rows, and are never negative.
proof fn lemma_count_ones_bound(ms: Seq<Seq<bool>>, j: int)
    ensures
        0 <= count_ones(ms, j) <= ms.len(),
    decreases ms.len(),
{
    if ms.len() > 0 {
        lemma_count_ones_bound(ms.drop_last(), j);
    }
}

proof fn lemma_count_outcome_bound(ms: Seq<Seq<bool>>, x: int)
    ensures
        0 <= count_outcome(ms, x) <= ms.len(),
    decreases ms.len(),
{
    if ms.len() > 0 {
        lemma_count_outcome_bound(ms.drop_last(), x);
    }
}

} // verus!
