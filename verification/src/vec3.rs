//! Three-component fixed-point vectors.
//!
//! A [`Vec3`] serves interchangeably as a spatial point, a direction and an
//! RGB color, exactly as the rendering pipeline uses it. Its view is the
//! triple of its components as unbounded integers; the specification
//! functions below mirror each executable operation over such triples.

use crate::fixed::{
    fdiv, fmul, fp_div, fp_mul, fp_sqrt, fsqrt, is_sqrt_floor, lemma_sqrt_floor_exists,
    lemma_tdiv_bound, mag, product_limit, sqrt_floor, tdiv, SCALE,
};
use vstd::arithmetic::div_mod::*;
use vstd::arithmetic::mul::*;
use vstd::prelude::*;

verus! {

/// A triple of fixed-point scalars: point, direction or color.
#[derive(Clone, Copy, Debug, PartialEq, Eq, Structural)]
pub struct Vec3 {
    pub x: i64,
    pub y: i64,
    pub z: i64,
}

impl View for Vec3 {
    type V = (int, int, int);

    open spec fn view(&self) -> (int, int, int) {
        (self.x as int, self.y as int, self.z as int)
    }
}

/// Component-wise sum.
pub open spec fn splus(a: (int, int, int), b: (int, int, int)) -> (int, int, int) {
    (a.0 + b.0, a.1 + b.1, a.2 + b.2)
}

/// Component-wise difference.
pub open spec fn sminus(a: (int, int, int), b: (int, int, int)) -> (int, int, int) {
    (a.0 - b.0, a.1 - b.1, a.2 - b.2)
}

/// Each component scaled by the fixed-point scalar `k`.
pub open spec fn sscale(a: (int, int, int), k: int) -> (int, int, int) {
    (fmul(a.0, k), fmul(a.1, k), fmul(a.2, k))
}

/// Fixed-point dot product.
pub open spec fn sdot(a: (int, int, int), b: (int, int, int)) -> int {
    fmul(a.0, b.0) + fmul(a.1, b.1) + fmul(a.2, b.2)
}

/// Fixed-point Euclidean length, rounded down.
pub open spec fn snorm(a: (int, int, int)) -> int {
    fsqrt(sdot(a, a))
}

/// The vector scaled to unit length: each component divided by the length.
pub open spec fn sunit(a: (int, int, int)) -> (int, int, int)
    recommends
        1 <= snorm(a),
{
    let n = snorm(a);
    (fdiv(a.0, n), fdiv(a.1, n), fdiv(a.2, n))
}

/// Every component of the triple has magnitude at most `m`.
pub open spec fn bounded3(a: (int, int, int), m: int) -> bool {
    -m <= a.0 <= m && -m <= a.1 <= m && -m <= a.2 <= m
}

/// The square of a scalar never exceeds the square of its bound.
pub proof fn lemma_square_bound(c: int, m: int)
    by (nonlinear_arith)
    requires
        -m <= c <= m,
    ensures
        0 <= c * c <= m * m,
{
}

/// Magnitude bound on a product from magnitude bounds on its factors.
pub proof fn lemma_mul_mag_bound(a: int, b: int, am: int, bm: int)
    by (nonlinear_arith)
    requires
        -am <= a <= am,
        -bm <= b <= bm,
    ensures
        -(am * bm) <= a * b <= am * bm,
{
}

/// A fixed-point dot product of vectors with bounded components is itself
/// bounded: each term is at most the scaled-down product of the bounds.
pub proof fn lemma_sdot_bound(a: (int, int, int), b: (int, int, int), am: int, bm: int)
    requires
        bounded3(a, am),
        bounded3(b, bm),
        0 <= am,
        0 <= bm,
        am * bm <= product_limit(),
    ensures
        -3 * ((am * bm) / (SCALE as int)) <= sdot(a, b) <= 3 * ((am * bm) / (SCALE as int)),
        -((am * bm) / (SCALE as int)) <= fmul(a.0, b.0) <= (am * bm) / (SCALE as int),
        -((am * bm) / (SCALE as int)) <= fmul(a.1, b.1) <= (am * bm) / (SCALE as int),
        -((am * bm) / (SCALE as int)) <= fmul(a.2, b.2) <= (am * bm) / (SCALE as int),
{
    lemma_mul_mag_bound(a.0, b.0, am, bm);
    lemma_mul_mag_bound(a.1, b.1, am, bm);
    lemma_mul_mag_bound(a.2, b.2, am, bm);
    lemma_mul_nonnegative(am, bm);
    lemma_tdiv_bound(a.0 * b.0, SCALE as int, am * bm);
    lemma_tdiv_bound(a.1 * b.1, SCALE as int, am * bm);
    lemma_tdiv_bound(a.2 * b.2, SCALE as int, am * bm);
}

/// The dot product of a vector with itself is non-negative.
pub proof fn lemma_sdot_self_nonneg(a: (int, int, int))
    ensures
        0 <= sdot(a, a),
{
    lemma_square_bound(a.0, mag(a.0));
    lemma_square_bound(a.1, mag(a.1));
    lemma_square_bound(a.2, mag(a.2));
    lemma_div_pos_is_pos(a.0 * a.0, SCALE as int);
    lemma_div_pos_is_pos(a.1 * a.1, SCALE as int);
    lemma_div_pos_is_pos(a.2 * a.2, SCALE as int);
}

/// A component of a vector divided by the vector's own length has
/// magnitude at most two whole units.
pub proof fn lemma_unit_component_bound(c: int, q: int, n: int)
    requires
        0 <= q,
        fmul(c, c) <= q,
        is_sqrt_floor(n, q * (SCALE as int)),
        1 <= n,
    ensures
        -(2 * (SCALE as int)) <= fdiv(c, n) <= 2 * (SCALE as int),
{
    let s = SCALE as int;
    // n >= 1 forces q >= 1, which in turn forces n >= 1000.
    assert(1 <= q) by (nonlinear_arith)
        requires
            is_sqrt_floor(n, q * (SCALE as int)),
            1 <= n,
            0 <= q,
    ;
    assert(1000 <= n) by (nonlinear_arith)
        requires
            is_sqrt_floor(n, q * (SCALE as int)),
            1 <= q,
            1 <= n,
    ;
    // From floor(c*c / SCALE) <= q: c*c < (q + 1) * SCALE.
    lemma_square_bound(c, mag(c));
    lemma_fundamental_div_mod(c * c, s);
    lemma_mod_division_less_than_divisor(c * c, s);
    assert(c * c == s * ((c * c) / s) + ((c * c) % s));
    assert(fmul(c, c) == (c * c) / s);
    assert(c * c < (q + 1) * s) by (nonlinear_arith)
        requires
            c * c == s * ((c * c) / s) + ((c * c) % s),
            (c * c) % s < s,
            (c * c) / s <= q,
            s == SCALE as int,
    ;
    // q * SCALE <= n * n + 2 * n, so c * c < (2n + 1) * (2n + 1).
    assert(-(2 * n) <= c <= 2 * n) by (nonlinear_arith)
        requires
            c * c < (q + 1) * s,
            q * s < (n + 1) * (n + 1),
            1000 <= n,
            s == 1_000_000,
    ;
    lemma_mul_mag_bound(c, s, 2 * n, s);
    assert(mag(c * s) <= 2 * n * s);
    lemma_tdiv_bound(c * s, n, 2 * n * s);
    assert((2 * n * s) / n == (n * (2 * s)) / n) by (nonlinear_arith);
    lemma_div_multiples_vanish(2 * s, n);
    assert((2 * n * s) / n == 2 * s);
}

impl Vec3 {
    /// Builds the vector from its three components.
    pub fn new(x: i64, y: i64, z: i64) -> (r: Vec3)
        ensures
            r@ == (x as int, y as int, z as int),
    {
        Vec3 { x, y, z }
    }

    /// The zero vector: the fixed camera origin.
    pub fn zeros() -> (r: Vec3)
        ensures
            r@ == (0int, 0int, 0int),
    {
        Vec3 { x: 0, y: 0, z: 0 }
    }

    /// The vector with all three components equal to `v`.
    pub fn repeat(v: i64) -> (r: Vec3)
        ensures
            r@ == (v as int, v as int, v as int),
    {
        Vec3 { x: v, y: v, z: v }
    }

    /// Component-wise sum.
    pub fn plus(self, o: Vec3) -> (r: Vec3)
        requires
            i64::MIN <= self.x + o.x <= i64::MAX,
            i64::MIN <= self.y + o.y <= i64::MAX,
            i64::MIN <= self.z + o.z <= i64::MAX,
        ensures
            r@ == splus(self@, o@),
    {
        Vec3 { x: self.x + o.x, y: self.y + o.y, z: self.z + o.z }
    }

    /// Component-wise difference.
    pub fn minus(self, o: Vec3) -> (r: Vec3)
        requires
            i64::MIN <= self.x - o.x <= i64::MAX,
            i64::MIN <= self.y - o.y <= i64::MAX,
            i64::MIN <= self.z - o.z <= i64::MAX,
        ensures
            r@ == sminus(self@, o@),
    {
        Vec3 { x: self.x - o.x, y: self.y - o.y, z: self.z - o.z }
    }

    /// Each component scaled by the fixed-point scalar `k`.
    pub fn scale(self, k: i64) -> (r: Vec3)
        requires
            -product_limit() <= self.x * k <= product_limit(),
            -product_limit() <= self.y * k <= product_limit(),
            -product_limit() <= self.z * k <= product_limit(),
        ensures
            r@ == sscale(self@, k as int),
    {
        Vec3 { x: fp_mul(self.x, k), y: fp_mul(self.y, k), z: fp_mul(self.z, k) }
    }

    /// Fixed-point dot product.
    pub fn dot(self, o: Vec3) -> (r: i64)
        requires
            -2_000_000_000_000_000_000_000_000 <= self.x * o.x <= 2_000_000_000_000_000_000_000_000,
            -2_000_000_000_000_000_000_000_000 <= self.y * o.y <= 2_000_000_000_000_000_000_000_000,
            -2_000_000_000_000_000_000_000_000 <= self.z * o.z <= 2_000_000_000_000_000_000_000_000,
        ensures
            r == sdot(self@, o@),
            -6_000_000_000_000_000_000 <= r <= 6_000_000_000_000_000_000,
    {
        proof {
            lemma_tdiv_bound(self.x * o.x, SCALE as int, 2_000_000_000_000_000_000_000_000);
            lemma_tdiv_bound(self.y * o.y, SCALE as int, 2_000_000_000_000_000_000_000_000);
            lemma_tdiv_bound(self.z * o.z, SCALE as int, 2_000_000_000_000_000_000_000_000);
        }
        let a: i64 = fp_mul(self.x, o.x);
        let b: i64 = fp_mul(self.y, o.y);
        let c: i64 = fp_mul(self.z, o.z);
        a + b + c
    }

    /// Fixed-point Euclidean length, rounded down.
    pub fn norm(self) -> (r: i64)
        requires
            -2_000_000_000_000_000_000_000_000 <= self.x * self.x
                <= 2_000_000_000_000_000_000_000_000,
            -2_000_000_000_000_000_000_000_000 <= self.y * self.y
                <= 2_000_000_000_000_000_000_000_000,
            -2_000_000_000_000_000_000_000_000 <= self.z * self.z
                <= 2_000_000_000_000_000_000_000_000,
        ensures
            r == snorm(self@),
            0 <= r <= 3_100_000_000_000,
    {
        let q: i64 = self.dot(self);
        proof {
            lemma_sdot_self_nonneg(self@);
        }
        fp_sqrt(q)
    }

    /// The vector scaled to unit length. The length must be at least one
    /// fixed-point step; each resulting component has magnitude at most
    /// two whole units.
    pub fn normalize(self) -> (r: Vec3)
        requires
            bounded3(self@, 1_400_000_000_000),
            1 <= snorm(self@),
        ensures
            r@ == sunit(self@),
            bounded3(r@, 2 * (SCALE as int)),
    {
        proof {
            lemma_square_bound(self.x as int, 1_400_000_000_000);
            lemma_square_bound(self.y as int, 1_400_000_000_000);
            lemma_square_bound(self.z as int, 1_400_000_000_000);
        }
        let n: i64 = self.norm();
        proof {
            let q = sdot(self@, self@);
            lemma_sdot_self_nonneg(self@);
            lemma_sqrt_floor_exists((q * (SCALE as int)) as nat);
            lemma_unit_component_bound(self.x as int, q, n as int);
            lemma_unit_component_bound(self.y as int, q, n as int);
            lemma_unit_component_bound(self.z as int, q, n as int);
        }
        Vec3 { x: fp_div(self.x, n), y: fp_div(self.y, n), z: fp_div(self.z, n) }
    }
}

} // verus!
