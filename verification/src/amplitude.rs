//! Exact complex amplitudes.
//!
//! An amplitude is `a + b*w + c*w^2 + d*w^3` with `w = e^{i*pi/4}` and
//! integer coordinates `a, b, c, d`.  Since `w^2 = i` and `w^4 = -1`, this
//! ring contains every matrix entry of each supported gate (up to the powers
//! of `1/sqrt(2)` that the simulation keeps implicit).
//!
//! The squared magnitude of such a number is `p + q*sqrt(2)` with
//! `p = a^2 + b^2 + c^2 + d^2` and `q = a*b + b*c + c*d - d*a`, both
//! integers; `norm_p` and `norm_q` return that pair.

use vstd::prelude::*;

verus! {

/// One exact amplitude: the complex number `a + b*w + c*w^2 + d*w^3`,
/// `w = e^{i*pi/4}`.
#[derive(Clone, Copy, PartialEq, Eq, Structural, Debug)]
pub struct Amp {
    pub a: i64,
    pub b: i64,
    pub c: i64,
    pub d: i64,
}

/// Integer part of the squared magnitude: `|z|^2 == norm_p(z) + norm_q(z)*sqrt(2)`.
pub open spec fn norm_p(z: Amp) -> int {
    z.a * z.a + z.b * z.b + z.c * z.c + z.d * z.d
}

/// Coefficient of `sqrt(2)` in the squared magnitude.
pub open spec fn norm_q(z: Amp) -> int {
    z.a * z.b + z.b * z.c + z.c * z.d - z.d * z.a
}

impl Amp {
    pub open spec fn zero_spec() -> Amp {
        Amp { a: 0, b: 0, c: 0, d: 0 }
    }

    pub open spec fn one_spec() -> Amp {
        Amp { a: 1, b: 0, c: 0, d: 0 }
    }

    pub fn zero() -> (r: Amp)
        ensures
            r == Amp::zero_spec(),
    {
        Amp { a: 0, b: 0, c: 0, d: 0 }
    }

    pub fn one() -> (r: Amp)
        ensures
            r == Amp::one_spec(),
    {
        Amp { a: 1, b: 0, c: 0, d: 0 }
    }
}



/// The real integer amplitude `v`.
pub open spec fn amp_re(v: i64) -> Amp {
    Amp { a: v, b: 0, c: 0, d: 0 }
}

/// All four coordinates lie in `[-m, m]`.
pub open spec fn bounded(z: Amp, m: int) -> bool {
    -m <= z.a <= m && -m <= z.b <= m && -m <= z.c <= m && -m <= z.d <= m
}

/// Coordinate headroom used by the executable ring operations: far above
/// anything the simulation invariant admits, far below `i64` overflow.
pub open spec fn coord_limit() -> int {
    0x100_0000_0000
}

impl Amp {
    /// The negation `-z`.
    pub open spec fn neg_spec(z: Amp) -> Amp {
        Amp { a: (-z.a) as i64, b: (-z.b) as i64, c: (-z.c) as i64, d: (-z.d) as i64 }
    }

    /// The sum `x + y`.
    pub open spec fn add_spec(x: Amp, y: Amp) -> Amp {
        Amp {
            a: (x.a + y.a) as i64,
            b: (x.b + y.b) as i64,
            c: (x.c + y.c) as i64,
            d: (x.d + y.d) as i64,
        }
    }

    /// The difference `x - y`.
    pub open spec fn sub_spec(x: Amp, y: Amp) -> Amp {
        Amp {
            a: (x.a - y.a) as i64,
            b: (x.b - y.b) as i64,
            c: (x.c - y.c) as i64,
            d: (x.d - y.d) as i64,
        }
    }

    /// Multiplication by `w = e^{i*pi/4}`: rotation by 45 degrees.
    pub open spec fn mul_w_spec(z: Amp) -> Amp {
        Amp { a: (-z.d) as i64, b: z.a, c: z.b, d: z.c }
    }

    /// Multiplication by `i = w^2`: rotation by 90 degrees.
    pub open spec fn mul_i_spec(z: Amp) -> Amp {
        Amp { a: (-z.c) as i64, b: (-z.d) as i64, c: z.a, d: z.b }
    }

    /// Multiplication by `-i`.
    pub open spec fn mul_neg_i_spec(z: Amp) -> Amp {
        Amp { a: z.c, b: z.d, c: (-z.a) as i64, d: (-z.b) as i64 }
    }

    pub fn neg(self) -> (r: Amp)
        requires
            bounded(self, coord_limit()),
        ensures
            r == Amp::neg_spec(self),
            bounded(r, coord_limit()),
    {
        Amp { a: -self.a, b: -self.b, c: -self.c, d: -self.d }
    }

    pub fn add(self, y: Amp) -> (r: Amp)
        requires
            bounded(self, coord_limit()),
            bounded(y, coord_limit()),
        ensures
            r == Amp::add_spec(self, y),
            bounded(r, 2 * coord_limit()),
    {
        Amp { a: self.a + y.a, b: self.b + y.b, c: self.c + y.c, d: self.d + y.d }
    }

    pub fn sub(self, y: Amp) -> (r: Amp)
        requires
            bounded(self, coord_limit()),
            bounded(y, coord_limit()),
        ensures
            r == Amp::sub_spec(self, y),
            bounded(r, 2 * coord_limit()),
    {
        Amp { a: self.a - y.a, b: self.b - y.b, c: self.c - y.c, d: self.d - y.d }
    }

    pub fn mul_w(self) -> (r: Amp)
        requires
            bounded(self, coord_limit()),
        ensures
            r == Amp::mul_w_spec(self),
            bounded(r, coord_limit()),
    {
        Amp { a: -self.d, b: self.a, c: self.b, d: self.c }
    }

    pub fn mul_i(self) -> (r: Amp)
        requires
            bounded(self, coord_limit()),
        ensures
            r == Amp::mul_i_spec(self),
            bounded(r, coord_limit()),
    {
        Amp { a: -self.c, b: -self.d, c: self.a, d: self.b }
    }

    pub fn mul_neg_i(self) -> (r: Amp)
        requires
            bounded(self, coord_limit()),
        ensures
            r == Amp::mul_neg_i_spec(self),
            bounded(r, coord_limit()),
    {
        Amp { a: self.c, b: self.d, c: -self.a, d: -self.b }
    }
}


impl Amp {
    /// The ring product `x * y`, by `w^4 == -1`.
    pub open spec fn mul_spec(x: Amp, y: Amp) -> Amp {
        Amp {
            a: (x.a * y.a - x.b * y.d - x.c * y.c - x.d * y.b) as i64,
            b: (x.a * y.b + x.b * y.a - x.c * y.d - x.d * y.c) as i64,
            c: (x.a * y.c + x.b * y.b + x.c * y.a - x.d * y.d) as i64,
            d: (x.a * y.d + x.b * y.c + x.c * y.b + x.d * y.a) as i64,
        }
    }

    /// Multiply by an amplitude with coordinates in `{-1, 0, 1}` (a qubit
    /// component), growing the coordinate bound at most fourfold.
    pub fn mul_unit(self, y: Amp) -> (r: Amp)
        requires
            bounded(self, 0x100_0000_0000),
            bounded(y, 1),
        ensures
            r == Amp::mul_spec(self, y),
    {
        proof {
            lemma_mul_unit_bound(self, y, 0x100_0000_0000);
        }
        Amp {
            a: self.a * y.a - self.b * y.d - self.c * y.c - self.d * y.b,
            b: self.a * y.b + self.b * y.a - self.c * y.d - self.d * y.c,
            c: self.a * y.c + self.b * y.b + self.c * y.a - self.d * y.d,
            d: self.a * y.d + self.b * y.c + self.c * y.b + self.d * y.a,
        }
    }
}

/// Multiplying a bounded amplitude by a unit-coordinate one at most
/// quadruples the coordinate bound.
pub proof fn lemma_mul_unit_bound(x: Amp, y: Amp, m: int)
    requires
        m >= 0,
        bounded(x, m),
        bounded(y, 1),
    ensures
        bounded(Amp::mul_spec(x, y), 4 * m),
        -m <= x.a * y.a <= m && -m <= x.a * y.b <= m && -m <= x.a * y.c <= m && -m <= x.a * y.d
            <= m,
        -m <= x.b * y.a <= m && -m <= x.b * y.b <= m && -m <= x.b * y.c <= m && -m <= x.b * y.d
            <= m,
        -m <= x.c * y.a <= m && -m <= x.c * y.b <= m && -m <= x.c * y.c <= m && -m <= x.c * y.d
            <= m,
        -m <= x.d * y.a <= m && -m <= x.d * y.b <= m && -m <= x.d * y.c <= m && -m <= x.d * y.d
            <= m,
{
    assert forall|u: int, v: int|
        -m <= u <= m && -1 <= v <= 1 implies -m <= #[trigger] (u * v) <= m by {
        assert(-m <= u * v <= m) by (nonlinear_arith)
            requires
                -m <= u <= m,
                -1 <= v <= 1,
        ;
    }
}

/// A coordinate is bounded by anything whose square dominates the squared
/// magnitude.
pub proof fn lemma_coord_bound(z: Amp, m: int)
    requires
        m >= 0,
        norm_p(z) <= m * m,
    ensures
        bounded(z, m),
{
    assert(-m <= z.a <= m && -m <= z.b <= m && -m <= z.c <= m && -m <= z.d <= m)
        by (nonlinear_arith)
        requires
            m >= 0,
            z.a * z.a + z.b * z.b + z.c * z.c + z.d * z.d <= m * m,
    ;
}

/// Negation and the rotations by `w`, `i`, `-i` preserve the squared
/// magnitude exactly, in both coordinates of the `p + q*sqrt(2)` pair.
pub proof fn lemma_rotation_norms(z: Amp)
    requires
        bounded(z, coord_limit()),
    ensures
        norm_p(Amp::neg_spec(z)) == norm_p(z) && norm_q(Amp::neg_spec(z)) == norm_q(z),
        norm_p(Amp::mul_w_spec(z)) == norm_p(z) && norm_q(Amp::mul_w_spec(z)) == norm_q(z),
        norm_p(Amp::mul_i_spec(z)) == norm_p(z) && norm_q(Amp::mul_i_spec(z)) == norm_q(z),
        norm_p(Amp::mul_neg_i_spec(z)) == norm_p(z) && norm_q(Amp::mul_neg_i_spec(z)) == norm_q(
            z,
        ),
{
    let a = z.a as int;
    let b = z.b as int;
    let c = z.c as int;
    let d = z.d as int;
    assert((-a) * (-a) == a * a && (-b) * (-b) == b * b && (-c) * (-c) == c * c && (-d) * (-d)
        == d * d) by (nonlinear_arith);
    assert((-a) * (-b) == a * b && (-b) * (-c) == b * c && (-c) * (-d) == c * d && (-d) * (-a)
        == d * a) by (nonlinear_arith);
    assert((-d) * a == -(d * a) && c * (-d) == -(c * d) && (-c) * (-d) == c * d && b * (-c) == -(b
        * c) && (-a) * b == -(a * b) && d * (-a) == -(d * a) && (-b) * c == -(b * c) && a * (-b)
        == -(a * b) && (-b) * (-a) == b * a && a * b == b * a && (-d) * (-c) == d * c && c * d
        == d * c) by (nonlinear_arith);
}

/// The Hadamard pair identity: the combined squared magnitude of
/// `(x+y, x-y)` is exactly twice that of `(x, y)`.
pub proof fn lemma_hadamard_pair_norm(x: Amp, y: Amp)
    requires
        bounded(x, coord_limit()),
        bounded(y, coord_limit()),
    ensures
        norm_p(Amp::add_spec(x, y)) + norm_p(Amp::sub_spec(x, y)) == 2 * norm_p(x) + 2 * norm_p(
            y,
        ),
        norm_q(Amp::add_spec(x, y)) + norm_q(Amp::sub_spec(x, y)) == 2 * norm_q(x) + 2 * norm_q(
            y,
        ),
{
    let s = Amp::add_spec(x, y);
    let t = Amp::sub_spec(x, y);
    // Parallelogram law, one coordinate at a time.
    assert((x.a + y.a) * (x.a + y.a) + (x.a - y.a) * (x.a - y.a) == 2 * (x.a * x.a) + 2 * (y.a
        * y.a)) by (nonlinear_arith);
    assert((x.b + y.b) * (x.b + y.b) + (x.b - y.b) * (x.b - y.b) == 2 * (x.b * x.b) + 2 * (y.b
        * y.b)) by (nonlinear_arith);
    assert((x.c + y.c) * (x.c + y.c) + (x.c - y.c) * (x.c - y.c) == 2 * (x.c * x.c) + 2 * (y.c
        * y.c)) by (nonlinear_arith);
    assert((x.d + y.d) * (x.d + y.d) + (x.d - y.d) * (x.d - y.d) == 2 * (x.d * x.d) + 2 * (y.d
        * y.d)) by (nonlinear_arith);
    assert(norm_p(s) + norm_p(t) == 2 * norm_p(x) + 2 * norm_p(y));
    // The same bilinear cancellation for each product in the q coordinate.
    assert((x.a + y.a) * (x.b + y.b) + (x.a - y.a) * (x.b - y.b) == 2 * (x.a * x.b) + 2 * (y.a
        * y.b)) by (nonlinear_arith);
    assert((x.b + y.b) * (x.c + y.c) + (x.b - y.b) * (x.c - y.c) == 2 * (x.b * x.c) + 2 * (y.b
        * y.c)) by (nonlinear_arith);
    assert((x.c + y.c) * (x.d + y.d) + (x.c - y.c) * (x.d - y.d) == 2 * (x.c * x.d) + 2 * (y.c
        * y.d)) by (nonlinear_arith);
    assert((x.d + y.d) * (x.a + y.a) + (x.d - y.d) * (x.a - y.a) == 2 * (x.d * x.a) + 2 * (y.d
        * y.a)) by (nonlinear_arith);
    assert(norm_q(s) + norm_q(t) == 2 * norm_q(x) + 2 * norm_q(y));
}

/// `p^2 - 2*q^2` is the field norm of the amplitude over the rationals; it
/// factors as the sum of squares `(a^2-b^2+c^2-d^2)^2 + 2*(ab+ad-bc+cd)^2`.
proof fn lemma_galois_factorization(a: int, b: int, c: int, d: int)
    ensures
        (a * a + b * b + c * c + d * d) * (a * a + b * b + c * c + d * d) - 2 * ((a * b + b * c
            + c * d - d * a) * (a * b + b * c + c * d - d * a)) == (a * a - b * b + c * c - d * d)
            * (a * a - b * b + c * c - d * d) + 2 * ((a * b + a * d - b * c + c * d) * (a * b + a
            * d - b * c + c * d)),
{
    let p = a * a + b * b + c * c + d * d;
    let q = a * b + b * c + c * d - d * a;
    let w0 = a * a - b * b + c * c - d * d;
    let w1 = a * b + a * d - b * c + c * d;
    let u = a * a + c * c;
    let v = b * b + d * d;
    let s = a * b + c * d;
    let t = b * c - a * d;
    // q and w1 are s + t and s - t, so q^2 + w1^2 == 2*(s^2 + t^2).
    assert(q * q + w1 * w1 == 2 * (s * s) + 2 * (t * t)) by (nonlinear_arith)
        requires
            q == s + t,
            w1 == s - t,
    ;
    // Brahmagupta-Fibonacci: (a^2+c^2)*(b^2+d^2) == (ab+cd)^2 + (bc-ad)^2.
    let aa = a * a;
    let bb = b * b;
    let cc = c * c;
    let dd = d * d;
    let ab = a * b;
    let cd = c * d;
    let bc = b * c;
    let ad = a * d;
    assert(s * s == ab * ab + 2 * (ab * cd) + cd * cd) by (nonlinear_arith)
        requires
            s == ab + cd,
    ;
    assert(t * t == bc * bc - 2 * (bc * ad) + ad * ad) by (nonlinear_arith)
        requires
            t == bc - ad,
    ;
    assert(bc * ad == ab * cd) by (nonlinear_arith)
        requires
            ab == a * b,
            cd == c * d,
            bc == b * c,
            ad == a * d,
    ;
    assert(ab * ab == aa * bb && cd * cd == cc * dd && bc * bc == bb * cc && ad * ad == aa * dd)
        by (nonlinear_arith)
        requires
            aa == a * a,
            bb == b * b,
            cc == c * c,
            dd == d * d,
            ab == a * b,
            cd == c * d,
            bc == b * c,
            ad == a * d,
    ;
    assert(u * v == aa * bb + aa * dd + cc * bb + cc * dd) by (nonlinear_arith)
        requires
            u == aa + cc,
            v == bb + dd,
    ;
    assert(u * v == s * s + t * t);
    // p^2 - w0^2 factors as (p+w0)*(p-w0) == (2u)*(2v).
    assert(p * p - w0 * w0 == 4 * (u * v)) by (nonlinear_arith)
        requires
            p == u + v,
            w0 == u - v,
    ;
    assert(p * p - 2 * (q * q) == w0 * w0 + 2 * (w1 * w1));
}

/// The squared magnitude of any amplitude is a nonnegative number, and so is
/// its conjugate under `sqrt(2) -> -sqrt(2)`; concretely the pair `(p, q)`
/// satisfies `p >= 0` and `p^2 >= 2*q^2`.
pub proof fn lemma_norm_nonneg(z: Amp)
    ensures
        norm_p(z) >= 0,
        norm_p(z) * norm_p(z) >= 2 * (norm_q(z) * norm_q(z)),
        norm_p(z) == 0 ==> z == Amp::zero_spec(),
{
    let a = z.a as int;
    let b = z.b as int;
    let c = z.c as int;
    let d = z.d as int;
    assert(norm_p(z) >= 0) by (nonlinear_arith);
    lemma_galois_factorization(a, b, c, d);
    assert((a * a - b * b + c * c - d * d) * (a * a - b * b + c * c - d * d) >= 0)
        by (nonlinear_arith);
    assert((a * b + a * d - b * c + c * d) * (a * b + a * d - b * c + c * d) >= 0)
        by (nonlinear_arith);
    if norm_p(z) == 0 {
        assert(a == 0 && b == 0 && c == 0 && d == 0) by (nonlinear_arith)
            requires
                a * a + b * b + c * c + d * d == 0,
        ;
    }
}

} // verus!
