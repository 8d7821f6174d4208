//! Basis encoding.
//!
//! A configuration of `n` qubits is the basis index `k` in `[0, 2^n)` whose
//! bit `j` — that is, `(k / 2^j) % 2` — is the value of qubit `j`.  Every
//! gate and measurement routine addresses the amplitude vector through the
//! two functions here: `bit` reads one qubit's value out of an index, and
//! `flip` toggles it.

use vstd::arithmetic::div_mod::{
    lemma_fundamental_div_mod, lemma_fundamental_div_mod_converse,
};
use vstd::arithmetic::power2::{
    lemma2_to64, lemma_pow2_adds, lemma_pow2_pos, lemma_pow2_strictly_increases, pow2,
};
use vstd::prelude::*;

verus! {

/// `2^e` as a machine integer, for the small exponents the simulation uses.
pub fn pow2_usize(e: usize) -> (r: usize)
    requires
        e <= 20,
    ensures
        r == pow2(e as nat),
{
    let mut r: usize = 1;
    let mut k: usize = 0;
    proof {
        lemma2_to64();
    }
    while k < e
        invariant
            k <= e,
            e <= 20,
            r == pow2(k as nat),
        decreases e - k,
    {
        proof {
            lemma_pow2_adds(k as nat, 1);
            lemma2_to64();
            if (k + 1) as nat != 20 {
                lemma_pow2_strictly_increases((k + 1) as nat, 20);
            }
        }
        r = r * 2;
        k = k + 1;
    }
    r
}

/// The value of qubit `q` in basis index `k`.
pub open spec fn bit(k: int, q: nat) -> bool {
    (k / pow2(q) as int) % 2 == 1
}

/// Basis index `k` with the value of qubit `q` toggled.
pub open spec fn flip(k: int, q: nat) -> int {
    if bit(k, q) {
        k - pow2(q)
    } else {
        k + pow2(q)
    }
}

/// Decompose `k` around bit `q`: `k == 2m*hi + m*b + lo` with `m = 2^q`,
/// `b` the bit, and `lo < m` the part below the bit.
proof fn lemma_bit_decompose(k: int, q: nat)
    requires
        k >= 0,
    ensures
        ({
            let m = pow2(q) as int;
            let lo = k % m;
            let b: int = if bit(k, q) {
                1
            } else {
                0
            };
            let hi = (k / m) / 2;
            k == 2 * m * hi + m * b + lo && 0 <= lo < m && hi >= 0
        }),
{
    let m = pow2(q) as int;
    lemma_pow2_pos(q);
    lemma_fundamental_div_mod(k, m);
    let h = k / m;
    lemma_fundamental_div_mod(h, 2);
    let b: int = if bit(k, q) {
        1
    } else {
        0
    };
    assert(h == 2 * (h / 2) + b);
    assert(m * h == m * (2 * (h / 2) + b));
    assert(m * (2 * (h / 2) + b) == 2 * m * (h / 2) + m * b) by (nonlinear_arith);
    assert(h >= 0 && h / 2 >= 0) by {
        assert(k >= 0 && m > 0);
        assert(h >= 0) by (nonlinear_arith)
            requires
                k >= 0,
                m > 0,
                h == k / m,
        ;
    }
}

/// Recompose: any `k == 2m*hi + m*b + lo` with `0 <= lo < m`, `b` 0 or 1,
/// has bit `q` equal to `b`, remainder `lo` below the bit, and `hi` above.
pub proof fn lemma_bit_compose(hi: int, b: int, lo: int, q: nat)
    requires
        hi >= 0,
        b == 0 || b == 1,
        0 <= lo < pow2(q),
    ensures
        ({
            let m = pow2(q) as int;
            let k = 2 * m * hi + m * b + lo;
            k >= 0 && bit(k, q) == (b == 1) && k % m == lo && (k / m) / 2 == hi
        }),
{
    let m = pow2(q) as int;
    lemma_pow2_pos(q);
    let k = 2 * m * hi + m * b + lo;
    assert((2 * hi + b) * m == 2 * m * hi + m * b) by (nonlinear_arith);
    lemma_fundamental_div_mod_converse(k, m, 2 * hi + b, lo);
    assert(k / m == 2 * hi + b && k % m == lo);
    assert(2 * hi + b == hi * 2 + b);
    lemma_fundamental_div_mod_converse(2 * hi + b, 2, hi, b);
    assert((k / m) % 2 == b && (k / m) / 2 == hi);
    assert(k >= 0) by (nonlinear_arith)
        requires
            hi >= 0,
            m > 0,
            b >= 0,
            lo >= 0,
            k == 2 * m * hi + m * b + lo,
    ;
}

/// Toggling qubit `q` keeps the index inside `[0, 2^n)`, inverts exactly
/// that bit, and is an involution.
pub proof fn lemma_flip_props(k: int, q: nat, n: nat)
    requires
        0 <= k < pow2(n),
        q < n,
    ensures
        0 <= flip(k, q) < pow2(n),
        bit(flip(k, q), q) == !bit(k, q),
        flip(flip(k, q), q) == k,
{
    let m = pow2(q) as int;
    lemma_pow2_pos(q);
    lemma_bit_decompose(k, q);
    let lo = k % m;
    let b: int = if bit(k, q) {
        1
    } else {
        0
    };
    let hi = (k / m) / 2;
    let f = flip(k, q);
    assert(m * (1 - b) == m - m * b) by (nonlinear_arith);
    assert(f == 2 * m * hi + m * (1 - b) + lo);
    lemma_bit_compose(hi, 1 - b, lo, q);
    assert(bit(f, q) == !bit(k, q));
    assert(flip(f, q) == k) by {
        assert(f - m == k || f + m == k);
    }
    // Range: k < 2^n means hi < 2^(n-q-1), so f <= 2m*hi + m + lo < 2^n.
    lemma_pow2_adds((q + 1) as nat, (n - q - 1) as nat);
    lemma_pow2_adds(q, 1);
    lemma_pow2_pos((n - q - 1) as nat);
    let big = pow2((n - q - 1) as nat) as int;
    assert(pow2(n) as int == 2 * m * big) by {
        assert(pow2((q + 1) as nat) == pow2(q) * pow2(1));
        assert(pow2(n) == pow2((q + 1) as nat) * pow2((n - q - 1) as nat));
        assert(pow2(1) == 2) by {
                lemma2_to64();
            }
        assert((pow2(q) * 2) * big == 2 * (pow2(q) as int) * big) by (nonlinear_arith);
    }
    assert(hi < big) by (nonlinear_arith)
        requires
            2 * m * hi + m * b + lo < 2 * m * big,
            m > 0,
            b >= 0,
            lo >= 0,
    ;
    assert(2 * m * hi + m * (1 - b) + lo < 2 * m * big) by (nonlinear_arith)
        requires
            hi < big,
            hi >= 0,
            m > 0,
            0 <= 1 - b <= 1,
            0 <= lo < m,
    ;
    assert(f >= 0) by (nonlinear_arith)
        requires
            hi >= 0,
            m > 0,
            1 - b >= 0,
            lo >= 0,
            f == 2 * m * hi + m * (1 - b) + lo,
    ;
}

/// Toggling qubit `q` leaves every other qubit's value unchanged.
pub proof fn lemma_flip_other(k: int, q: nat, q2: nat, n: nat)
    requires
        0 <= k < pow2(n),
        q < n,
        q2 != q,
    ensures
        bit(flip(k, q), q2) == bit(k, q2),
{
    let m = pow2(q) as int;
    let m2 = pow2(q2) as int;
    lemma_pow2_pos(q);
    lemma_pow2_pos(q2);
    let f = flip(k, q);
    lemma_flip_props(k, q, n);
    if q2 < q {
        // 2^q is a multiple of 2^(q2+1), so adding or subtracting it does
        // not disturb the bit at q2 nor anything below it.
        lemma_pow2_adds((q2 + 1) as nat, (q - q2 - 1) as nat);
        lemma_pow2_adds(q2, 1);
        let t = pow2((q - q2 - 1) as nat) as int;
        lemma_pow2_pos((q - q2 - 1) as nat);
        assert(m == 2 * m2 * t) by {
            assert(pow2(q) == pow2((q2 + 1) as nat) * pow2((q - q2 - 1) as nat));
            assert(pow2((q2 + 1) as nat) == pow2(q2) * pow2(1));
            assert(pow2(1) == 2) by {
                lemma2_to64();
            }
            assert((pow2(q2) * 2) * t == 2 * (pow2(q2) as int) * t) by (nonlinear_arith);
        }
        lemma_bit_decompose(k, q2);
        let lo = k % m2;
        let b: int = if bit(k, q2) {
            1
        } else {
            0
        };
        let hi = (k / m2) / 2;
        if bit(k, q) {
            assert(2 * m2 * (hi - t) == 2 * m2 * hi - 2 * m2 * t) by (nonlinear_arith);
            assert(f == 2 * m2 * (hi - t) + m2 * b + lo);
            assert(hi - t >= 0) by (nonlinear_arith)
                requires
                    f >= 0,
                    f == 2 * m2 * (hi - t) + m2 * b + lo,
                    m2 > 0,
                    0 <= b <= 1,
                    0 <= lo < m2,
            ;
            lemma_bit_compose(hi - t, b, lo, q2);
        } else {
            assert(2 * m2 * (hi + t) == 2 * m2 * hi + 2 * m2 * t) by (nonlinear_arith);
            assert(f == 2 * m2 * (hi + t) + m2 * b + lo);
            lemma_bit_compose(hi + t, b, lo, q2);
        }
    } else {
        // q2 > q: the change happens strictly below bit q2.  Because bit q
        // of k % 2^q2 gets toggled without carrying past 2^q2, the part of
        // k at and above q2 is untouched.
        lemma_pow2_adds(q2, (n - q2) as nat);
        lemma_pow2_pos((n - q2) as nat);
        lemma_bit_decompose(k, q2);
        let lo2 = k % m2;
        let b2: int = if bit(k, q2) {
            1
        } else {
            0
        };
        let hi2 = (k / m2) / 2;
        // lo2 sits below bit q2 and contains bit q of k.
        lemma_pow2_adds((q + 1) as nat, (q2 - q - 1) as nat);
        lemma_pow2_adds(q, 1);
        let s = pow2((q2 - q - 1) as nat) as int;
        lemma_pow2_pos((q2 - q - 1) as nat);
        assert(m2 == 2 * m * s) by {
            assert(pow2(q2) == pow2((q + 1) as nat) * pow2((q2 - q - 1) as nat));
            assert(pow2((q + 1) as nat) == pow2(q) * pow2(1));
            assert(pow2(1) == 2) by {
                lemma2_to64();
            }
            assert((pow2(q) * 2) * s == 2 * (pow2(q) as int) * s) by (nonlinear_arith);
        }
        lemma_bit_decompose(lo2, q);
        let lo = lo2 % m;
        let bb: int = if bit(lo2, q) {
            1
        } else {
            0
        };
        let mid = (lo2 / m) / 2;
        assert(lo2 == 2 * m * mid + m * bb + lo);
        // bit q of k equals bit q of lo2: k == m2*(2*hi2) + m2*b2 + lo2 and
        // m2 is a multiple of 2m.
        assert(k == 2 * m * (2 * s * hi2 + s * b2 + mid) + m * bb + lo) by (nonlinear_arith)
            requires
                k == 2 * m2 * hi2 + m2 * b2 + lo2,
                lo2 == 2 * m * mid + m * bb + lo,
                m2 == 2 * m * s,
        ;
        assert(2 * s * hi2 + s * b2 + mid >= 0) by (nonlinear_arith)
            requires
                hi2 >= 0,
                s > 0,
                b2 >= 0,
                mid >= 0,
        ;
        lemma_bit_compose(2 * s * hi2 + s * b2 + mid, bb, lo, q);
        assert(bit(k, q) == (bb == 1));
        // The flipped value keeps hi2 and b2, only lo2 moves within [0, m2).
        let lo2f = 2 * m * mid + m * (1 - bb) + lo;
        assert(0 <= lo2f < m2) by (nonlinear_arith)
            requires
                lo2 == 2 * m * mid + m * bb + lo,
                0 <= lo2 < m2,
                lo2f == 2 * m * mid + m * (1 - bb) + lo,
                0 <= lo < m,
                0 <= bb <= 1,
                mid >= 0,
                m > 0,
                m2 == 2 * m * s,
                s > 0,
        ;
        assert(f == 2 * m2 * hi2 + m2 * b2 + lo2f) by {
            assert(m * (1 - bb) == m - m * bb) by (nonlinear_arith);
            assert(bit(k, q) == (bb == 1));
            if bit(k, q) {
                assert(f == k - m);
            } else {
                assert(f == k + m);
            }
        }
        lemma_bit_compose(hi2, b2, lo2f, q2);
        assert(bit(f, q2) == (b2 == 1));
    }
}



/// Doubling steps one power of two.
pub proof fn lemma_pow2_double(e: nat)
    ensures
        2 * pow2(e) == pow2((e + 1) as nat),
{
    lemma_pow2_adds(e, 1);
    lemma2_to64();
}

/// Powers up to `2^29` stay under the simulation's norm cap.
pub proof fn lemma_pow2_le_cap(e: nat)
    requires
        e <= 29,
    ensures
        pow2(e) <= 0x2000_0000,
{
    lemma2_to64();
    if e != 29 {
        lemma_pow2_strictly_increases(e, 29);
    }
}

/// Basis index `k` with the value of qubit `q` forced to 0.
pub open spec fn clear_bit(k: int, q: nat) -> int {
    if bit(k, q) {
        k - pow2(q)
    } else {
        k
    }
}

/// Representative of `k`'s 4-element group for a pair of target qubits:
/// both targeted bits forced to 0.
pub open spec fn base2(k: int, q0: nat, q1: nat) -> int {
    clear_bit(clear_bit(k, q0), q1)
}

/// Everything the 2-qubit applicator needs about a group: its four indices
/// are in range, carry the four bit patterns, share the representative,
/// and reconstruct `k`.
pub proof fn lemma_base2_props(k: int, q0: nat, q1: nat, n: nat)
    requires
        0 <= k < pow2(n),
        q0 < n,
        q1 < n,
        q0 != q1,
    ensures
        ({
            let m0 = pow2(q0) as int;
            let m1 = pow2(q1) as int;
            let b = base2(k, q0, q1);
            &&& 0 <= b <= k
            &&& b + m0 + m1 < pow2(n)
            &&& !bit(b, q0) && !bit(b, q1)
            &&& bit(b + m0, q0) && !bit(b + m0, q1)
            &&& !bit(b + m1, q0) && bit(b + m1, q1)
            &&& bit(b + m0 + m1, q0) && bit(b + m0 + m1, q1)
            &&& base2(b, q0, q1) == b && base2(b + m0, q0, q1) == b && base2(b + m1, q0, q1)
                == b && base2(b + m0 + m1, q0, q1) == b
            &&& k == b + (if bit(k, q0) {
                m0
            } else {
                0
            }) + (if bit(k, q1) {
                m1
            } else {
                0
            })
        }),
{
    let m0 = pow2(q0) as int;
    let m1 = pow2(q1) as int;
    lemma_pow2_pos(q0);
    lemma_pow2_pos(q1);
    // Step 1: clear bit q0.
    let k1 = clear_bit(k, q0);
    if bit(k, q0) {
        lemma_flip_props(k, q0, n);
        lemma_flip_other(k, q0, q1, n);
        assert(k1 == flip(k, q0));
    }
    assert(0 <= k1 < pow2(n) && !bit(k1, q0) && bit(k1, q1) == bit(k, q1) && k1 == k - (if bit(
        k,
        q0,
    ) {
        m0
    } else {
        0
    }));
    // Step 2: clear bit q1.
    let b = clear_bit(k1, q1);
    if bit(k1, q1) {
        lemma_flip_props(k1, q1, n);
        lemma_flip_other(k1, q1, q0, n);
        assert(b == flip(k1, q1));
    }
    assert(0 <= b < pow2(n) && !bit(b, q0) && !bit(b, q1) && b == k1 - (if bit(k, q1) {
        m1
    } else {
        0
    }));
    // The four members of the group.
    lemma_flip_props(b, q0, n);
    lemma_flip_other(b, q0, q1, n);
    assert(flip(b, q0) == b + m0 && bit(b + m0, q0) && !bit(b + m0, q1) && b + m0 < pow2(n));
    lemma_flip_props(b, q1, n);
    lemma_flip_other(b, q1, q0, n);
    assert(flip(b, q1) == b + m1 && bit(b + m1, q1) && !bit(b + m1, q0) && b + m1 < pow2(n));
    lemma_flip_props(b + m1, q0, n);
    lemma_flip_other(b + m1, q0, q1, n);
    assert(flip(b + m1, q0) == b + m1 + m0 && bit(b + m0 + m1, q0) && bit(b + m0 + m1, q1) && b
        + m0 + m1 < pow2(n));
    // Representatives of all four members.
    assert(clear_bit(b, q0) == b && clear_bit(b, q1) == b);
    assert(base2(b, q0, q1) == b);
    assert(clear_bit(b + m0, q0) == b && base2(b + m0, q0, q1) == b);
    assert(clear_bit(b + m1, q0) == b + m1 && clear_bit(b + m1, q1) == b);
    assert(base2(b + m1, q0, q1) == b);
    assert(clear_bit(b + m0 + m1, q0) == b + m1);
    assert(base2(b + m0 + m1, q0, q1) == b);
}


/// Representative of `k`'s 8-element group for three target qubits.
pub open spec fn base3(k: int, q0: nat, q1: nat, q2: nat) -> int {
    clear_bit(clear_bit(clear_bit(k, q0), q1), q2)
}

/// Everything the 3-qubit applicator needs about a group of eight.
pub proof fn lemma_base3_props(k: int, q0: nat, q1: nat, q2: nat, n: nat)
    requires
        0 <= k < pow2(n),
        q0 < n,
        q1 < n,
        q2 < n,
        q0 != q1,
        q0 != q2,
        q1 != q2,
    ensures
        ({
            let m0 = pow2(q0) as int;
            let m1 = pow2(q1) as int;
            let m2 = pow2(q2) as int;
            let b = base3(k, q0, q1, q2);
            &&& 0 <= b <= k
            &&& b + m0 + m1 + m2 < pow2(n)
            &&& !bit(b, q0) && !bit(b, q1) && !bit(b, q2)
            &&& bit(b + m0, q0) && !bit(b + m0, q1) && !bit(b + m0, q2)
            &&& !bit(b + m1, q0) && bit(b + m1, q1) && !bit(b + m1, q2)
            &&& bit(b + m0 + m1, q0) && bit(b + m0 + m1, q1) && !bit(b + m0 + m1, q2)
            &&& !bit(b + m2, q0) && !bit(b + m2, q1) && bit(b + m2, q2)
            &&& bit(b + m0 + m2, q0) && !bit(b + m0 + m2, q1) && bit(b + m0 + m2, q2)
            &&& !bit(b + m1 + m2, q0) && bit(b + m1 + m2, q1) && bit(b + m1 + m2, q2)
            &&& bit(b + m0 + m1 + m2, q0) && bit(b + m0 + m1 + m2, q1) && bit(
                b + m0 + m1 + m2,
                q2,
            )
            &&& base3(b, q0, q1, q2) == b && base3(b + m0, q0, q1, q2) == b && base3(
                b + m1,
                q0,
                q1,
                q2,
            ) == b && base3(b + m0 + m1, q0, q1, q2) == b && base3(b + m2, q0, q1, q2) == b
                && base3(b + m0 + m2, q0, q1, q2) == b && base3(b + m1 + m2, q0, q1, q2) == b
                && base3(b + m0 + m1 + m2, q0, q1, q2) == b
            &&& k == b + (if bit(k, q0) {
                m0
            } else {
                0
            }) + (if bit(k, q1) {
                m1
            } else {
                0
            }) + (if bit(k, q2) {
                m2
            } else {
                0
            })
            &&& flip(b + m0 + m1, q2) == b + m0 + m1 + m2
            &&& flip(b + m0 + m1 + m2, q2) == b + m0 + m1
        }),
{
    let m0 = pow2(q0) as int;
    let m1 = pow2(q1) as int;
    let m2 = pow2(q2) as int;
    lemma_pow2_pos(q0);
    lemma_pow2_pos(q1);
    lemma_pow2_pos(q2);
    // Clear the three bits in turn.
    let k1 = clear_bit(k, q0);
    if bit(k, q0) {
        lemma_flip_props(k, q0, n);
        lemma_flip_other(k, q0, q1, n);
        lemma_flip_other(k, q0, q2, n);
    }
    let k2 = clear_bit(k1, q1);
    if bit(k1, q1) {
        lemma_flip_props(k1, q1, n);
        lemma_flip_other(k1, q1, q0, n);
        lemma_flip_other(k1, q1, q2, n);
    }
    let b = clear_bit(k2, q2);
    if bit(k2, q2) {
        lemma_flip_props(k2, q2, n);
        lemma_flip_other(k2, q2, q0, n);
        lemma_flip_other(k2, q2, q1, n);
    }
    assert(0 <= b < pow2(n) && !bit(b, q0) && !bit(b, q1) && !bit(b, q2));
    // Build the eight members by single-bit flips.
    lemma_flip_props(b, q0, n);
    lemma_flip_other(b, q0, q1, n);
    lemma_flip_other(b, q0, q2, n);
    lemma_flip_props(b, q1, n);
    lemma_flip_other(b, q1, q0, n);
    lemma_flip_other(b, q1, q2, n);
    lemma_flip_props(b, q2, n);
    lemma_flip_other(b, q2, q0, n);
    lemma_flip_other(b, q2, q1, n);
    assert(flip(b, q0) == b + m0 && flip(b, q1) == b + m1 && flip(b, q2) == b + m2);
    lemma_flip_props(b + m1, q0, n);
    lemma_flip_other(b + m1, q0, q1, n);
    lemma_flip_other(b + m1, q0, q2, n);
    assert(flip(b + m1, q0) == b + m0 + m1);
    lemma_flip_props(b + m2, q0, n);
    lemma_flip_other(b + m2, q0, q1, n);
    lemma_flip_other(b + m2, q0, q2, n);
    assert(flip(b + m2, q0) == b + m0 + m2);
    lemma_flip_props(b + m2, q1, n);
    lemma_flip_other(b + m2, q1, q0, n);
    lemma_flip_other(b + m2, q1, q2, n);
    assert(flip(b + m2, q1) == b + m1 + m2);
    lemma_flip_props(b + m1 + m2, q0, n);
    lemma_flip_other(b + m1 + m2, q0, q1, n);
    lemma_flip_other(b + m1 + m2, q0, q2, n);
    assert(flip(b + m1 + m2, q0) == b + m0 + m1 + m2);
    lemma_flip_props(b + m0 + m1, q2, n);
    lemma_flip_other(b + m0 + m1, q2, q0, n);
    lemma_flip_other(b + m0 + m1, q2, q1, n);
    assert(flip(b + m0 + m1, q2) == b + m0 + m1 + m2);
    lemma_flip_props(b + m0 + m1 + m2, q2, n);
}

} // verus!
