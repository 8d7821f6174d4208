//! Simon's algorithm.
//!
//! For a two-to-one function with a secret XOR mask `s` — `f(x) == f(y)`
//! exactly when `x XOR y == s` — each run of the circuit measures an input
//! pattern orthogonal to `s`, and enough runs pin the mask down.  This is
//! the use that needs the multi-bit answer register of the oracle.

use crate::encoding::{lemma_pow2_double, lemma_pow2_le_cap};
use crate::oracle::{disjoint_qubits, distinct_qubits};
use crate::simulation::Simulation;
use crate::state_vector_simulation::QuantumSimulation;
use vstd::arithmetic::power2::pow2;
use vstd::prelude::*;

verus! {

/// One run of Simon's circuit, measuring the input register.
pub fn apply_simons_algo<S: Simulation, F: Fn(Vec<bool>) -> Vec<bool>>(
    simulation: &mut S,
    input_qubits: &Vec<usize>,
    answer_qubits: &Vec<usize>,
    f: &F,
) -> (r: Vec<bool>)
    requires
        old(simulation).inv(),
        old(simulation).scale_p() == 1,
        distinct_qubits(input_qubits@, old(simulation).qubits() as int),
        distinct_qubits(answer_qubits@, old(simulation).qubits() as int),
        disjoint_qubits(input_qubits@, answer_qubits@),
        input_qubits@.len() <= 14,
        answer_qubits@.len() <= 20,
        forall|x: Vec<bool>|
            x@.len() == input_qubits@.len() ==> #[trigger] call_requires(*f, (x,)),
        forall|x: Vec<bool>, y: Vec<bool>|
            #[trigger] call_ensures(*f, (x,), y) ==> y@.len() == answer_qubits@.len(),
    ensures
        final(simulation).inv(),
        final(simulation).qubits() == old(simulation).qubits(),
        r@.len() == input_qubits@.len(),
{
    let ghost n_in = input_qubits@.len();
    let count = input_qubits.len();
    let mut i: usize = 0;
    proof {
        vstd::arithmetic::power2::lemma2_to64();
    }
    while i < count
        invariant
            i <= count,
            count == n_in,
            n_in <= 14,
            simulation.inv(),
            simulation.qubits() == old(simulation).qubits(),
            distinct_qubits(input_qubits@, simulation.qubits() as int),
            n_in == input_qubits@.len(),
            simulation.scale_p() == pow2(i as nat),
        decreases count - i,
    {
        proof {
            lemma_pow2_double(i as nat);
            lemma_pow2_le_cap((1 + i) as nat);
        }
        simulation.hadamard(input_qubits[i]);
        i = i + 1;
    }
    let g = |x: Vec<bool>| -> (rr: Vec<bool>)
        requires
            x@.len() == n_in,
            forall|xv: Vec<bool>| xv@.len() == n_in ==> #[trigger] call_requires(*f, (xv,)),
        ensures
            call_ensures(*f, (x,), rr),
        {
            f(x)
        };
    simulation.apply_u_f(g, input_qubits, answer_qubits);
    let mut i2: usize = 0;
    while i2 < count
        invariant
            i2 <= count,
            count == n_in,
            n_in <= 14,
            simulation.inv(),
            simulation.qubits() == old(simulation).qubits(),
            distinct_qubits(input_qubits@, simulation.qubits() as int),
            n_in == input_qubits@.len(),
            simulation.scale_p() == pow2((count + i2) as nat),
        decreases count - i2,
    {
        proof {
            lemma_pow2_double((count + i2) as nat);
            lemma_pow2_le_cap((1 + count + i2) as nat);
        }
        simulation.hadamard(input_qubits[i2]);
        i2 = i2 + 1;
    }
    let mut to_measure: Vec<usize> = Vec::new();
    let mut i3: usize = 0;
    while i3 < count
        invariant
            i3 <= count,
            count == input_qubits@.len(),
            simulation.inv(),
            simulation.qubits() == old(simulation).qubits(),
            distinct_qubits(input_qubits@, simulation.qubits() as int),
            to_measure@ == input_qubits@.take(i3 as int),
        decreases count - i3,
    {
        to_measure.push(input_qubits[i3]);
        proof {
            assert(to_measure@ =~= input_qubits@.take(i3 as int + 1));
        }
        i3 = i3 + 1;
    }
    proof {
        assert(to_measure@ =~= input_qubits@);
    }
    simulation.measure(to_measure)
}

/// Run Simon's circuit `run_count` times on a fresh simulation of `2 * n`
/// qubits: inputs on `0..n`, answers on `n..2n`.
pub fn run_simons_algo<F: Fn(Vec<bool>) -> Vec<bool>>(f: &F, n: usize, run_count: usize) -> (r:
    Vec<Vec<bool>>)
    requires
        1 <= n <= 10,
        forall|x: Vec<bool>| x@.len() == n ==> #[trigger] call_requires(*f, (x,)),
        forall|x: Vec<bool>, y: Vec<bool>| #[trigger] call_ensures(*f, (x,), y) ==> y@.len() == n,
    ensures
        r@.len() == run_count,
        forall|i: int| 0 <= i < r@.len() ==> (#[trigger] r@[i])@.len() == n,
{
    let mut simulation = QuantumSimulation::new(2 * n, 0u64);
    let mut input_qubits: Vec<usize> = Vec::new();
    let mut answer_qubits: Vec<usize> = Vec::new();
    let mut j: usize = 0;
    while j < n
        invariant
            j <= n,
            n <= 10,
            input_qubits@.len() == j,
            answer_qubits@.len() == j,
            forall|t: int| 0 <= t < j ==> #[trigger] input_qubits@[t] == t,
            forall|t: int| 0 <= t < j ==> #[trigger] answer_qubits@[t] == n + t,
        decreases n - j,
    {
        input_qubits.push(j);
        answer_qubits.push(n + j);
        j = j + 1;
    }
    let mut measurements: Vec<Vec<bool>> = Vec::new();
    let mut i: usize = 0;
    while i < run_count
        invariant
            i <= run_count,
            1 <= n <= 10,
            simulation.qubit_count == 2 * n,
            input_qubits@.len() == n,
            answer_qubits@.len() == n,
            forall|t: int| 0 <= t < n ==> #[trigger] input_qubits@[t] == t,
            forall|t: int| 0 <= t < n ==> #[trigger] answer_qubits@[t] == n + t,
            measurements@.len() == i,
            forall|t: int| 0 <= t < i ==> (#[trigger] measurements@[t])@.len() == n,
            forall|x: Vec<bool>| x@.len() == n ==> #[trigger] call_requires(*f, (x,)),
            forall|x: Vec<bool>, y: Vec<bool>|
                #[trigger] call_ensures(*f, (x,), y) ==> y@.len() == n,
        decreases run_count - i,
    {
        simulation.reset();
        let measured_states = apply_simons_algo(&mut simulation, &input_qubits, &answer_qubits, f);
        measurements.push(measured_states);
        i = i + 1;
    }
    measurements
}

/// Pointwise XOR of two equal-length bit strings.
pub fn xor(x: &Vec<bool>, y: &Vec<bool>) -> (r: Vec<bool>)
    requires
        x@.len() == y@.len(),
    ensures
        r@.len() == x@.len(),
        forall|i: int| 0 <= i < r@.len() ==> r@[i] == (x@[i] ^ y@[i]),
{
    let mut z: Vec<bool> = Vec::new();
    let mut i: usize = 0;
    while i < x.len()
        invariant
            i <= x@.len(),
            x@.len() == y@.len(),
            z@.len() == i,
            forall|t: int| 0 <= t < i ==> z@[t] == (x@[t] ^ y@[t]),
        decreases x@.len() - i,
    {
        z.push(x[i] ^ y[i]);
        i = i + 1;
    }
    z
}

/// The identity function on bit strings.
pub fn id(x: Vec<bool>) -> (r: Vec<bool>)
    ensures
        r@ == x@,
{
    x
}

/// Pointwise negation of a bit string.
pub fn not(x: &Vec<bool>) -> (r: Vec<bool>)
    ensures
        r@.len() == x@.len(),
        forall|i: int| 0 <= i < r@.len() ==> r@[i] == !x@[i],
{
    let mut y: Vec<bool> = Vec::new();
    let mut i: usize = 0;
    while i < x.len()
        invariant
            i <= x@.len(),
            y@.len() == i,
            forall|t: int| 0 <= t < i ==> y@[t] == !x@[t],
        decreases x@.len() - i,
    {
        y.push(!x[i]);
        i = i + 1;
    }
    y
}

/// Rotate a bit string by `n` places.
pub fn shift(x: &Vec<bool>, n: usize) -> (r: Vec<bool>)
    requires
        1 <= x@.len() <= 0x1000_0000,
    ensures
        r@.len() == x@.len(),
        forall|i: int| 0 <= i < x@.len() ==> r@[(i + n) % (x@.len() as int)] == x@[i],
{
    let len = x.len();
    let mut y: Vec<bool> = Vec::new();
    let mut i: usize = 0;
    while i < len
        invariant
            i <= len,
            y@.len() == i,
            len == x@.len(),
            forall|t: int| 0 <= t < i ==> y@[t] == false,
        decreases len - i,
    {
        y.push(false);
        i = i + 1;
    }
    let mut i2: usize = 0;
    while i2 < len
        invariant
            i2 <= len,
            1 <= len == x@.len(),
            len <= 0x1000_0000,
            y@.len() == len,
            forall|t: int| 0 <= t < i2 ==> y@[(t + n) % (len as int)] == x@[t],
        decreases len - i2,
    {
        proof {
            vstd::arithmetic::div_mod::lemma_mod_bound(n as int, len as int);
        }
        let pos = (i2 + n % len) % len;
        proof {
            lemma_rot_noop(i2 as int, n as int, len as int);
        }
        y.set(pos, x[i2]);
        proof {
            assert forall|t: int| 0 <= t < i2 + 1 implies y@[(t + n) % (len as int)] == x@[t] by {
                if t < i2 {
                    lemma_rot_distinct(t, i2 as int, n as int, len as int);
                }
            }
        }
        i2 = i2 + 1;
    }
    y
}


/// Reducing the rotation before adding does not change the landing slot.
proof fn lemma_rot_noop(t: int, n: int, len: int)
    requires
        0 <= t < len,
        n >= 0,
        len >= 1,
    ensures
        (t + n % len) % len == (t + n) % len,
{
    vstd::arithmetic::div_mod::lemma_mod_twice(n, len);
    vstd::arithmetic::div_mod::lemma_add_mod_noop(t, n, len);
    vstd::arithmetic::div_mod::lemma_add_mod_noop(t, n % len, len);
    vstd::arithmetic::div_mod::lemma_small_mod(t as nat, len as nat);
}

/// Two different sources land on different slots of the rotation.
proof fn lemma_rot_distinct(t: int, u: int, n: int, len: int)
    requires
        0 <= t < u < len,
        n >= 0,
        len >= 1,
    ensures
        (t + n) % len != (u + n) % len,
{
    let a = (t + n) % len;
    let b = (u + n) % len;
    vstd::arithmetic::div_mod::lemma_fundamental_div_mod(t + n, len);
    vstd::arithmetic::div_mod::lemma_fundamental_div_mod(u + n, len);
    vstd::arithmetic::div_mod::lemma_mod_bound(t + n, len);
    vstd::arithmetic::div_mod::lemma_mod_bound(u + n, len);
    if a == b {
        let q1 = (t + n) / len;
        let q2 = (u + n) / len;
        assert(u - t == len * (q2 - q1)) by (nonlinear_arith)
            requires
                t + n == len * q1 + a,
                u + n == len * q2 + b,
                a == b,
        ;
        assert(false) by (nonlinear_arith)
            requires
                u - t == len * (q2 - q1),
                0 < u - t < len,
        ;
    }
}

/// Pointwise XOR of two equal-length bit strings, as a sequence.
pub open spec fn xor_seq(a: Seq<bool>, b: Seq<bool>) -> Seq<bool> {
    Seq::new(a.len(), |i: int| a[i] ^ b[i])
}

/// Lexicographic order on equal-length bit strings, comparing from index
/// 0 with `false < true`.
pub open spec fn lex_lt(a: Seq<bool>, b: Seq<bool>) -> bool
    decreases a.len(),
{
    if a.len() == 0 {
        false
    } else if a[0] != b[0] {
        !a[0] && b[0]
    } else {
        lex_lt(a.skip(1), b.skip(1))
    }
}

/// The member of the pair `{x, x XOR s}` that `function` hands to `f`:
/// the lexicographically smaller one.
pub open spec fn simon_argument(x: Seq<bool>, s: Seq<bool>) -> Seq<bool> {
    if lex_lt(x, xor_seq(x, s)) {
        x
    } else {
        xor_seq(x, s)
    }
}

/// A shared equal prefix does not decide the order.
proof fn lemma_lex_lt_skip(a: Seq<bool>, b: Seq<bool>, i: int)
    requires
        a.len() == b.len(),
        0 <= i <= a.len(),
        forall|t: int| 0 <= t < i ==> a[t] == b[t],
    ensures
        lex_lt(a, b) == lex_lt(a.skip(i), b.skip(i)),
    decreases i,
{
    if i == 0 {
        assert(a.skip(0) =~= a);
        assert(b.skip(0) =~= b);
    } else {
        assert(a[0] == b[0]);
        lemma_lex_lt_skip(a.skip(1), b.skip(1), i - 1);
        assert(a.skip(1).skip(i - 1) =~= a.skip(i));
        assert(b.skip(1).skip(i - 1) =~= b.skip(i));
    }
}

/// The order is total and asymmetric on equal-length strings.
proof fn lemma_lex_lt_total(a: Seq<bool>, b: Seq<bool>)
    requires
        a.len() == b.len(),
    ensures
        a == b || lex_lt(a, b) || lex_lt(b, a),
        !(lex_lt(a, b) && lex_lt(b, a)),
    decreases a.len(),
{
    if a.len() == 0 {
        assert(a =~= b);
    } else if a[0] != b[0] {
    } else {
        lemma_lex_lt_total(a.skip(1), b.skip(1));
        if a.skip(1) == b.skip(1) {
            assert forall|k: int| 0 <= k < a.len() implies a[k] == b[k] by {
                if k > 0 {
                    assert(a[k] == a.skip(1)[k - 1]);
                    assert(b[k] == b.skip(1)[k - 1]);
                }
            }
            assert(a =~= b);
        }
    }
}

/// The two members of a pair `{x, x XOR s}` select the same argument, so
/// `function` maps both members through the same call of `f`: exactly the
/// two-to-one collision structure Simon's algorithm relies on.
pub proof fn lemma_simon_pairing(x: Seq<bool>, s: Seq<bool>)
    requires
        x.len() == s.len(),
    ensures
        simon_argument(xor_seq(x, s), s) == simon_argument(x, s),
{
    let y = xor_seq(x, s);
    assert(xor_seq(y, s) =~= x);
    lemma_lex_lt_total(x, y);
    if x == y {
    }
}

/// Fold a function into a Simon-style two-to-one function with secret
/// mask `s`: both members of each `{x, x XOR s}` pair map through the
/// lexicographically smaller member.
pub fn function<F: Fn(Vec<bool>) -> Vec<bool>>(x: Vec<bool>, s: &Vec<bool>, f: &F) -> (r: Vec<
    bool,
>)
    requires
        x@.len() == s@.len(),
        forall|xv: Vec<bool>| xv@.len() == x@.len() ==> #[trigger] call_requires(*f, (xv,)),
    ensures
        exists|w: Vec<bool>|
            w@ == simon_argument(x@, s@) && #[trigger] call_ensures(*f, (w,), r),
{
    let y = xor(&x, s);
    proof {
        assert(y@ =~= xor_seq(x@, s@));
    }
    let use_x = lexicographic_lt(&x, &y);
    if use_x {
        let ghost gx = x;
        let r = f(x);
        proof {
            assert(gx@ == simon_argument(gx@, s@));
            assert(call_ensures(*f, (gx,), r));
        }
        r
    } else {
        let ghost gy = y;
        let r = f(y);
        proof {
            assert(gy@ == simon_argument(x@, s@));
            assert(call_ensures(*f, (gy,), r));
        }
        r
    }
}

/// Lexicographic comparison of equal-length bit strings, `false < true`.
fn lexicographic_lt(a: &Vec<bool>, b: &Vec<bool>) -> (r: bool)
    requires
        a@.len() == b@.len(),
    ensures
        r == lex_lt(a@, b@),
{
    let mut i: usize = 0;
    while i < a.len()
        invariant
            i <= a@.len(),
            a@.len() == b@.len(),
            forall|t: int| 0 <= t < i ==> a@[t] == b@[t],
        decreases a@.len() - i,
    {
        if !a[i] && b[i] {
            proof {
                lemma_lex_lt_skip(a@, b@, i as int);
                assert(a@.skip(i as int)[0] == a@[i as int]);
                assert(b@.skip(i as int)[0] == b@[i as int]);
            }
            return true;
        }
        if a[i] && !b[i] {
            proof {
                lemma_lex_lt_skip(a@, b@, i as int);
                assert(a@.skip(i as int)[0] == a@[i as int]);
                assert(b@.skip(i as int)[0] == b@[i as int]);
            }
            return false;
        }
        i = i + 1;
    }
    proof {
        lemma_lex_lt_skip(a@, b@, a@.len() as int);
        assert(a@.skip(a@.len() as int).len() == 0);
    }
    false
}

} // verus!
