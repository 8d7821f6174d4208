//! State-vector initialization.
//!
//! A single qubit's state is a pair of amplitudes for its 0 and 1 values;
//! a register of independent qubits has the tensor product of those pairs
//! as its amplitude vector.  The ground state of `n` qubits is amplitude 1
//! at basis index 0 and 0 everywhere else.

use crate::amplitude::{norm_p, norm_q, Amp};
use crate::norms::{sum_p, sum_q};
use vstd::arithmetic::power2::{lemma_pow2_pos, pow2};
use vstd::prelude::*;

verus! {

/// One qubit's individual state: the amplitude pair for values 0 and 1.
pub type Qubit = (Amp, Amp);

/// The qubit state `|0>`.
pub fn ground_state_qubit() -> (r: Qubit)
    ensures
        r.0 == Amp::one_spec(),
        r.1 == Amp::zero_spec(),
{
    (Amp::one(), Amp::zero())
}

/// The qubit state `|1>`.
pub fn excited_state_qubit() -> (r: Qubit)
    ensures
        r.0 == Amp::zero_spec(),
        r.1 == Amp::one_spec(),
{
    (Amp::zero(), Amp::one())
}

/// The vector with amplitude 1 at `marked` and 0 elsewhere.
pub open spec fn basis_seq(len: int, marked: int) -> Seq<Amp> {
    Seq::new(len as nat, |k: int| if k == marked {
        Amp::one_spec()
    } else {
        Amp::zero_spec()
    })
}

/// A basis vector holds exactly one unit of probability mass.
pub proof fn lemma_basis_norm(len: int, marked: int)
    requires
        0 <= marked < len,
    ensures
        sum_p(basis_seq(len, marked)) == 1,
        sum_q(basis_seq(len, marked)) == 0,
    decreases len,
{
    let s = basis_seq(len, marked);
    assert(norm_p(Amp::one_spec()) == 1 && norm_q(Amp::one_spec()) == 0);
    assert(norm_p(Amp::zero_spec()) == 0 && norm_q(Amp::zero_spec()) == 0);
    assert(s.len() == len);
    if len == marked + 1 {
        assert(s.last() == Amp::one_spec());
        if len > 1 {
            lemma_zero_prefix_norm(len - 1);
            assert(s.drop_last() =~= zero_seq(len - 1));
        } else {
            assert(s.drop_last() =~= zero_seq(0));
            lemma_zero_prefix_norm(0);
        }
        assert(sum_p(s) == sum_p(s.drop_last()) + norm_p(s.last()));
        assert(sum_q(s) == sum_q(s.drop_last()) + norm_q(s.last()));
    } else {
        assert(s.last() == Amp::zero_spec());
        assert(s.drop_last() =~= basis_seq(len - 1, marked));
        lemma_basis_norm(len - 1, marked);
        assert(sum_p(s) == sum_p(s.drop_last()) + norm_p(s.last()));
        assert(sum_q(s) == sum_q(s.drop_last()) + norm_q(s.last()));
    }
}

/// The all-zero vector of a given length.
pub open spec fn zero_seq(len: int) -> Seq<Amp> {
    Seq::new(len as nat, |k: int| Amp::zero_spec())
}

proof fn lemma_zero_prefix_norm(len: int)
    requires
        len >= 0,
    ensures
        sum_p(zero_seq(len)) == 0,
        sum_q(zero_seq(len)) == 0,
    decreases len,
{
    assert(norm_p(Amp::zero_spec()) == 0);
    assert(norm_q(Amp::zero_spec()) == 0);
    if len > 0 {
        assert(zero_seq(len).drop_last() =~= zero_seq(len - 1));
        assert(zero_seq(len).last() == Amp::zero_spec());
        lemma_zero_prefix_norm(len - 1);
        assert(sum_p(zero_seq(len)) == sum_p(zero_seq(len).drop_last()) + norm_p(zero_seq(len).last()));
    } else {
        assert(zero_seq(len).len() == 0);
        assert(sum_p(zero_seq(len)) == 0);
    }
}

/// The amplitude vector of the all-zero ("ground") configuration: 1 at
/// basis index 0, 0 at the other `2^qubit_count - 1` indices.
pub fn get_ground_state_amplitudes(qubit_count: usize) -> (r: Vec<Amp>)
    requires
        qubit_count <= 20,
    ensures
        r@.len() == pow2(qubit_count as nat),
        r@ == basis_seq(pow2(qubit_count as nat) as int, 0),
{
    let state_count: usize = crate::encoding::pow2_usize(qubit_count);
    let mut amplitudes: Vec<Amp> = Vec::new();
    amplitudes.push(Amp::one());
    let mut i: usize = 1;
    proof {
        lemma_pow2_pos(qubit_count as nat);
    }
    while i < state_count
        invariant
            1 <= i <= state_count,
            state_count == pow2(qubit_count as nat),
            amplitudes@.len() == i,
            forall|k: int|
                0 <= k < i ==> amplitudes@[k] == (if k == 0 {
                    Amp::one_spec()
                } else {
                    Amp::zero_spec()
                }),
        decreases state_count - i,
    {
        amplitudes.push(Amp::zero());
        i = i + 1;
    }
    proof {
        assert(amplitudes@ =~= basis_seq(pow2(qubit_count as nat) as int, 0));
    }
    amplitudes
}


/// The tensor-product amplitude of basis index `i` over a register of
/// independent qubits: qubit `j` contributes its 1-component where bit
/// `j` of `i` is set, its 0-component otherwise.
pub open spec fn tensor_amp(qubits: Seq<Qubit>, i: int) -> Amp
    decreases qubits.len(),
{
    if qubits.len() == 0 {
        Amp::one_spec()
    } else {
        Amp::mul_spec(
            tensor_amp(qubits.drop_last(), i),
            if crate::encoding::bit(i, (qubits.len() - 1) as nat) {
                qubits.last().1
            } else {
                qubits.last().0
            },
        )
    }
}

/// All coordinates of both components lie in `{-1, 0, 1}`.
pub open spec fn unit_qubits(qubits: Seq<Qubit>) -> bool {
    forall|j: int|
        0 <= j < qubits.len() ==> crate::amplitude::bounded(#[trigger] qubits[j].0, 1)
            && crate::amplitude::bounded(qubits[j].1, 1)
}

/// The amplitude vector of a register of independent qubits: the tensor
/// product of their amplitude pairs, one entry per basis index.
pub fn get_amplitudes(qubits: Vec<Qubit>) -> (r: Vec<Amp>)
    requires
        qubits@.len() <= 20,
        unit_qubits(qubits@),
    ensures
        r@.len() == pow2(qubits@.len() as nat),
        forall|i: int| 0 <= i < r@.len() ==> r@[i] == tensor_amp(qubits@, i),
{
    let qubit_count = qubits.len();
    let state_count = crate::encoding::pow2_usize(qubit_count);
    let mut amplitudes: Vec<Amp> = Vec::new();
    let mut i: usize = 0;
    while i < state_count
        invariant
            i <= state_count,
            state_count == pow2(qubit_count as nat),
            qubit_count == qubits@.len(),
            qubit_count <= 20,
            unit_qubits(qubits@),
            amplitudes@.len() == i,
            forall|t: int| 0 <= t < i ==> amplitudes@[t] == tensor_amp(qubits@, t),
        decreases state_count - i,
    {
        let mut amplitude = Amp::one();
        let mut j: usize = 0;
        proof {
            vstd::arithmetic::power2::lemma2_to64();
            assert(qubits@.take(0).len() == 0);
        }
        while j < qubit_count
            invariant
                j <= qubit_count,
                qubit_count == qubits@.len(),
                qubit_count <= 20,
                unit_qubits(qubits@),
                amplitude == tensor_amp(qubits@.take(j as int), i as int),
                crate::amplitude::bounded(amplitude, pow2((2 * j) as nat) as int),
            decreases qubit_count - j,
        {
            let mask = crate::encoding::pow2_usize(j);
            proof {
                lemma_pow2_pos(j as nat);
                lemma_pow2_pos((2 * j) as nat);
                assert(qubits@.take(j as int + 1).drop_last() =~= qubits@.take(j as int));
                assert(qubits@.take(j as int + 1).last() == qubits@[j as int]);
                if (2 * j) as nat != 40 {
                    vstd::arithmetic::power2::lemma_pow2_strictly_increases((2 * j) as nat, 40);
                }
                vstd::arithmetic::power2::lemma2_to64();
                vstd::arithmetic::power2::lemma2_to64_rest();
                assert(pow2(40) == 0x100_0000_0000);
                vstd::arithmetic::power2::lemma_pow2_adds((2 * j) as nat, 2);
                crate::amplitude::lemma_mul_unit_bound(
                    amplitude,
                    if (i / mask) % 2 == 1 {
                        qubits@[j as int].1
                    } else {
                        qubits@[j as int].0
                    },
                    pow2((2 * j) as nat) as int,
                );
            }
            let component = if (i / mask) % 2 == 1 {
                qubits[j].1
            } else {
                qubits[j].0
            };
            amplitude = amplitude.mul_unit(component);
            j = j + 1;
        }
        proof {
            assert(qubits@.take(qubits@.len() as int) =~= qubits@);
        }
        amplitudes.push(amplitude);
        i = i + 1;
    }
    amplitudes
}

} // verus!
