//! Exact arithmetic on numbers of the form `p + q*sqrt(2)`.
//!
//! Squared magnitudes of amplitudes, and hence all Born-rule probabilities,
//! live in this ring.  Its order is decidable with integers alone: the sign
//! of `p + q*sqrt(2)` follows from the signs of `p` and `q` and a comparison
//! of `p^2` with `2*q^2`.

use vstd::prelude::*;

verus! {

/// `p + q*sqrt(2) > 0`.
pub open spec fn pos2(p: int, q: int) -> bool {
    ||| (p >= 0 && q >= 0 && (p > 0 || q > 0))
    ||| (p < 0 && q > 0 && 2 * (q * q) > p * p)
    ||| (p > 0 && q < 0 && p * p > 2 * (q * q))
}

/// The pair is a squared magnitude: both `p + q*sqrt(2)` and its conjugate
/// `p - q*sqrt(2)` are nonnegative reals.
pub open spec fn gnn(p: int, q: int) -> bool {
    p >= 0 && p * p >= 2 * (q * q)
}

/// From `x >= 0` and `x^2 >= y^2`, `x` dominates both `y` and `-y`.
pub proof fn lemma_sqrt_le(x: int, y: int)
    requires
        x >= 0,
        x * x >= y * y,
    ensures
        x >= y,
        x >= -y,
{
    assert(x >= y && x >= -y) by (nonlinear_arith)
        requires
            x >= 0,
            x * x >= y * y,
    ;
}

/// A squared-magnitude pair dominates its own irrational coordinate.
pub proof fn lemma_gnn_q_le_p(p: int, q: int)
    requires
        gnn(p, q),
    ensures
        -p <= q <= p,
{
    assert(p * p >= q * q) by (nonlinear_arith)
        requires
            p * p >= 2 * (q * q),
    ;
    lemma_sqrt_le(p, q);
}

/// Squared-magnitude pairs are closed under addition.
pub proof fn lemma_gnn_add(p1: int, q1: int, p2: int, q2: int)
    requires
        gnn(p1, q1),
        gnn(p2, q2),
    ensures
        gnn(p1 + p2, q1 + q2),
{
    // p1*p2 >= 2*|q1*q2| >= 2*q1*q2, by multiplying the square inequalities.
    assert((p1 * p2) * (p1 * p2) >= (2 * (q1 * q2)) * (2 * (q1 * q2))) by (nonlinear_arith)
        requires
            p1 >= 0,
            p2 >= 0,
            p1 * p1 >= 2 * (q1 * q1),
            p2 * p2 >= 2 * (q2 * q2),
    ;
    assert(p1 * p2 >= 0) by (nonlinear_arith)
        requires
            p1 >= 0,
            p2 >= 0,
    ;
    lemma_sqrt_le(p1 * p2, 2 * (q1 * q2));
    assert((p1 + p2) * (p1 + p2) >= 2 * ((q1 + q2) * (q1 + q2))) by (nonlinear_arith)
        requires
            p1 * p1 >= 2 * (q1 * q1),
            p2 * p2 >= 2 * (q2 * q2),
            p1 * p2 >= 2 * (q1 * q2),
    ;
}

/// `sqrt(2)` is irrational: no positive integer `p` satisfies `p^2 == 2*q^2`.
pub proof fn lemma_sqrt_two_irrational(p: int, q: int)
    requires
        p >= 1,
    ensures
        p * p != 2 * (q * q),
    decreases p,
{
    if p * p == 2 * (q * q) {
        let qq = if q >= 0 {
            q
        } else {
            -q
        };
        assert(qq * qq == q * q) by (nonlinear_arith)
            requires
                qq == q || qq == -q,
        ;
        // p^2 is even, so p is even.
        let h = p / 2;
        assert(p == 2 * h + p % 2 && 0 <= p % 2 < 2);
        if p % 2 == 1 {
            assert((2 * h + 1) * (2 * h + 1) == 4 * (h * h) + 4 * h + 1) by (nonlinear_arith);
            assert(p * p == 2 * (qq * qq));
            assert(false) by (nonlinear_arith)
                requires
                    4 * (h * h) + 4 * h + 1 == 2 * (qq * qq),
            ;
        }
        assert(p == 2 * h);
        assert((2 * h) * (2 * h) == 4 * (h * h)) by (nonlinear_arith);
        assert(4 * (h * h) == 2 * (qq * qq));
        assert(qq * qq == 2 * (h * h));
        // q is nonzero, since p >= 1; descend on |q| < p.
        assert(qq >= 1) by (nonlinear_arith)
            requires
                qq >= 0,
                qq * qq == 2 * (h * h),
                2 * h >= 1,
                h * h >= 0,
        ;
        assert(qq < p) by (nonlinear_arith)
            requires
                p >= 1,
                qq >= 0,
                p * p == 2 * (qq * qq),
        ;
        lemma_sqrt_two_irrational(qq, h);
    }
}

/// A squared-magnitude pair with a positive integer coordinate is a
/// positive number.
pub proof fn lemma_gnn_pos(p: int, q: int)
    requires
        gnn(p, q),
        p >= 1,
    ensures
        pos2(p, q),
{
    if q < 0 {
        if p * p == 2 * (q * q) {
            lemma_sqrt_two_irrational(p, q);
        }
    }
}


/// A number and its negation are never both positive.
pub proof fn lemma_pos2_neg(p: int, q: int)
    requires
        pos2(p, q),
    ensures
        !pos2(-p, -q),
{
    assert((-p) * (-p) == p * p && (-q) * (-q) == q * q) by (nonlinear_arith);
}

/// Scaling by a positive integer preserves positivity.
pub proof fn lemma_pos2_scale(p: int, q: int, k: int)
    requires
        pos2(p, q),
        k > 0,
    ensures
        pos2(k * p, k * q),
{
    if p >= 0 && q >= 0 && (p > 0 || q > 0) {
        assert(k * p >= 0 && k * q >= 0 && (k * p > 0 || k * q > 0)) by (nonlinear_arith)
            requires
                k > 0,
                p >= 0,
                q >= 0,
                p > 0 || q > 0,
        ;
    } else if p < 0 && q > 0 {
        assert(k * p < 0 && k * q > 0 && 2 * ((k * q) * (k * q)) > (k * p) * (k * p))
            by (nonlinear_arith)
            requires
                k > 0,
                p < 0,
                q > 0,
                2 * (q * q) > p * p,
        ;
    } else {
        assert(k * p > 0 && k * q < 0 && (k * p) * (k * p) > 2 * ((k * q) * (k * q)))
            by (nonlinear_arith)
            requires
                k > 0,
                p > 0,
                q < 0,
                p * p > 2 * (q * q),
        ;
    }
}

/// Decide the sign of `d + e*sqrt(2)` with exact integer arithmetic.
pub fn is_pos2(d: i128, e: i128) -> (r: bool)
    requires
        -0x4000_0000_0000_0000 <= d <= 0x4000_0000_0000_0000,
        -0x4000_0000_0000_0000 <= e <= 0x4000_0000_0000_0000,
    ensures
        r == pos2(d as int, e as int),
{
    proof {
        let lim: int = 0x4000_0000_0000_0000;
        assert(d * d <= lim * lim && e * e <= lim * lim && e * e >= 0 && d * d >= 0)
            by (nonlinear_arith)
            requires
                -lim <= d <= lim,
                -lim <= e <= lim,
        ;
    }
    if d >= 0 && e >= 0 {
        d > 0 || e > 0
    } else if d <= 0 && e <= 0 {
        false
    } else if d < 0 {
        2 * (e * e) > d * d
    } else {
        d * d > 2 * (e * e)
    }
}

} // verus!
