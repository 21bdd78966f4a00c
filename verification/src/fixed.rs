//! Fixed-point scalar arithmetic.
//!
//! Every scalar in the library is a signed 64-bit integer holding a real
//! value scaled by [`SCALE`]: the stored number `n` stands for the real
//! number `n / SCALE`. Addition and subtraction are exact; products and
//! quotients are rounded toward zero, and the square root rounds down.
//! The specification functions [`fmul`], [`fdiv`] and [`fsqrt`] state the
//! exact integer value of each executable operation.

use vstd::arithmetic::div_mod::*;
use vstd::arithmetic::mul::*;
use vstd::prelude::*;

verus! {

/// Number of fixed-point steps per whole unit: a stored value `n` stands
/// for the real number `n / SCALE`.
pub const SCALE: i64 = 1_000_000;

/// Largest magnitude allowed for the integer product handed to [`fp_mul`]:
/// the scaled-down result then still fits in an `i64`.
pub open spec fn product_limit() -> int {
    9_000_000_000_000_000_000_000_000
}

/// Magnitude of an integer.
pub open spec fn mag(x: int) -> int {
    if x < 0 {
        -x
    } else {
        x
    }
}

/// Division rounding toward zero, the rounding used by every fixed-point
/// product and quotient in the library.
pub open spec fn tdiv(p: int, d: int) -> int
    recommends
        1 <= d,
{
    if p >= 0 {
        p / d
    } else {
        -((-p) / d)
    }
}

/// Fixed-point product: the real product of the operands, rounded toward zero.
pub open spec fn fmul(a: int, b: int) -> int {
    tdiv(a * b, SCALE as int)
}

/// Fixed-point quotient: the real quotient of the operands, rounded toward zero.
pub open spec fn fdiv(a: int, b: int) -> int
    recommends
        1 <= b,
{
    tdiv(a * (SCALE as int), b)
}

/// `r` is the integer square root of `v`, rounded down.
pub open spec fn is_sqrt_floor(r: int, v: int) -> bool {
    0 <= r && r * r <= v && v < (r + 1) * (r + 1)
}

/// The integer square root of `v`, rounded down.
pub open spec fn sqrt_floor(v: int) -> int {
    choose|r: int| is_sqrt_floor(r, v)
}

/// Fixed-point square root of a non-negative scalar, rounded down.
pub open spec fn fsqrt(a: int) -> int
    recommends
        0 <= a,
{
    sqrt_floor(a * (SCALE as int))
}

/// Two integer square roots of the same value are equal.
pub proof fn lemma_sqrt_floor_unique(r1: int, r2: int, v: int)
    by (nonlinear_arith)
    requires
        is_sqrt_floor(r1, v),
        is_sqrt_floor(r2, v),
    ensures
        r1 == r2,
{
}

/// Every non-negative integer has a square root rounded down.
pub proof fn lemma_sqrt_floor_exists(v: nat)
    ensures
        is_sqrt_floor(sqrt_floor(v as int), v as int),
    decreases v,
{
    if v == 0 {
        assert(is_sqrt_floor(0, 0));
    } else {
        lemma_sqrt_floor_exists((v - 1) as nat);
        let p = sqrt_floor(v - 1);
        assert(is_sqrt_floor(p, v - 1));
        if (p + 1) * (p + 1) <= v {
            assert(is_sqrt_floor(p + 1, v as int)) by (nonlinear_arith)
                requires
                    is_sqrt_floor(p, v - 1),
                    (p + 1) * (p + 1) <= v,
            ;
        } else {
            assert(is_sqrt_floor(p, v as int));
        }
        assert(exists|r: int| is_sqrt_floor(r, v as int));
    }
}

/// Bounds on truncating division: the quotient's magnitude never exceeds
/// the quotient of the bound.
pub proof fn lemma_tdiv_bound(p: int, d: int, m: int)
    requires
        1 <= d,
        0 <= m,
        -m <= p <= m,
    ensures
        -(m / d) <= tdiv(p, d) <= m / d,
        0 <= p ==> tdiv(p, d) == p / d,
{
    if p >= 0 {
        lemma_div_pos_is_pos(p, d);
        lemma_div_is_ordered(p, m, d);
        lemma_div_pos_is_pos(m, d);
    } else {
        lemma_div_pos_is_pos(-p, d);
        lemma_div_is_ordered(-p, m, d);
        lemma_div_pos_is_pos(m, d);
    }
}

/// Fixed-point product of two scalars, rounded toward zero.
pub fn fp_mul(a: i64, b: i64) -> (r: i64)
    requires
        -product_limit() <= (a as int) * (b as int) <= product_limit(),
    ensures
        r == fmul(a as int, b as int),
{
    let am: u64 = if a >= 0 {
        a as u64
    } else {
        (-(a as i128)) as u64
    };
    let bm: u64 = if b >= 0 {
        b as u64
    } else {
        (-(b as i128)) as u64
    };
    proof {
        assert(am == mag(a as int));
        assert(bm == mag(b as int));
        assert((am as int) * (bm as int) == mag((a as int) * (b as int))) by (nonlinear_arith)
            requires
                am == mag(a as int),
                bm == mag(b as int),
        ;
        assert((am as int) * (bm as int) <= product_limit());
    }
    let p: u128 = (am as u128) * (bm as u128);
    let q: u128 = p / 1_000_000u128;
    proof {
        assert(q == (p as int) / 1_000_000);
        lemma_div_pos_is_pos(p as int, 1_000_000);
        lemma_div_is_ordered(p as int, product_limit(), 1_000_000);
        assert(q <= 9_000_000_000_000_000_000u128);
    }
    let neg: bool = (a < 0) != (b < 0);
    if neg {
        let qi: i128 = -(q as i128);
        proof {
            if (a as int) * (b as int) >= 0 {
                assert((a as int) * (b as int) == 0) by (nonlinear_arith)
                    requires
                        (a < 0) != (b < 0),
                        (a as int) * (b as int) >= 0,
                ;
                assert(q == 0);
            } else {
                assert(tdiv((a as int) * (b as int), SCALE as int) == -((p as int) / 1_000_000));
            }
        }
        qi as i64
    } else {
        proof {
            assert((a as int) * (b as int) >= 0) by (nonlinear_arith)
                requires
                    (a < 0) == (b < 0),
            ;
            assert(tdiv((a as int) * (b as int), SCALE as int) == (p as int) / 1_000_000);
        }
        q as i64
    }
}

/// Fixed-point quotient of a scalar by a positive scalar, rounded toward zero.
pub fn fp_div(a: i64, b: i64) -> (r: i64)
    requires
        1 <= b,
        -3_000_000_000_000 <= a <= 3_000_000_000_000,
    ensures
        r == fdiv(a as int, b as int),
        -3_000_000_000_000_000_000 <= r <= 3_000_000_000_000_000_000,
{
    let am: u64 = if a >= 0 {
        a as u64
    } else {
        (-(a as i128)) as u64
    };
    let p: u128 = (am as u128) * 1_000_000u128;
    let q: u128 = p / (b as u128);
    proof {
        assert(am == mag(a as int));
        assert(p == mag(a as int) * (SCALE as int)) by (nonlinear_arith)
            requires
                am == mag(a as int),
                p == (am as int) * 1_000_000,
        ;
        assert(p <= 3_000_000_000_000_000_000u128);
        assert(q == (p as int) / (b as int));
        lemma_div_pos_is_pos(p as int, b as int);
        lemma_div_nonincreasing(p as int, b as int);
        assert(q <= p);
        assert(mag(a as int) * (SCALE as int) == mag((a as int) * (SCALE as int))) by (nonlinear_arith);
        if a >= 0 {
            assert(tdiv((a as int) * (SCALE as int), b as int) == q);
        } else {
            assert(tdiv((a as int) * (SCALE as int), b as int) == -(q as int));
        }
    }
    if a >= 0 {
        q as i64
    } else {
        let qi: i128 = -(q as i128);
        qi as i64
    }
}

/// Integer square root of an unsigned 128-bit value, rounded down.
pub fn sqrt_floor_u128(x: u128) -> (r: u64)
    ensures
        is_sqrt_floor(r as int, x as int),
        r == sqrt_floor(x as int),
{
    let mut lo: u128 = 0;
    let mut hi: u128 = 0xFFFF_FFFF_FFFF_FFFF;
    proof {
        assert((hi + 1) * (hi + 1) > x) by (nonlinear_arith)
            requires
                hi == 0xFFFF_FFFF_FFFF_FFFFu128,
                x <= u128::MAX,
        ;
    }
    while lo < hi
        invariant
            0 <= lo <= hi <= 0xFFFF_FFFF_FFFF_FFFF,
            (lo as int) * (lo as int) <= x as int,
            (x as int) < ((hi + 1) as int) * ((hi + 1) as int),
        decreases hi - lo,
    {
        let mid: u128 = lo + (hi - lo + 1) / 2;
        assert(lo < mid <= hi);
        proof {
            assert((mid as int) * (mid as int) <= 0xFFFF_FFFF_FFFF_FFFF * 0xFFFF_FFFF_FFFF_FFFF)
                by (nonlinear_arith)
                requires
                    0 <= mid <= 0xFFFF_FFFF_FFFF_FFFFu128,
            ;
        }
        let sq: u128 = mid * mid;
        if sq <= x {
            lo = mid;
        } else {
            hi = mid - 1;
        }
    }
    let r: u64 = lo as u64;
    proof {
        assert(is_sqrt_floor(r as int, x as int));
        assert(exists|s: int| is_sqrt_floor(s, x as int));
        lemma_sqrt_floor_unique(r as int, sqrt_floor(x as int), x as int);
    }
    r
}

/// Fixed-point square root of a non-negative scalar, rounded down.
pub fn fp_sqrt(a: i64) -> (r: i64)
    requires
        0 <= a,
    ensures
        r == fsqrt(a as int),
        0 <= r <= 3_100_000_000_000,
{
    let p: u128 = (a as u128) * 1_000_000u128;
    let s: u64 = sqrt_floor_u128(p);
    proof {
        assert(p == (a as int) * (SCALE as int));
        assert(is_sqrt_floor(s as int, p as int));
        assert((s as int) <= 3_100_000_000_000) by (nonlinear_arith)
            requires
                is_sqrt_floor(s as int, p as int),
                p as int <= 9_223_372_036_854_775_807int * 1_000_000,
        ;
    }
    s as i64
}

} // verus!
