//! Fixed-point arithmetic on raw `i64` values.
//!
//! A raw value `r` stands for the real number `r / SCALE`. Multiplication
//! truncates toward zero, as the sign-split definitions below spell out;
//! every executable operation here returns exactly the value of its spec
//! counterpart.

use vstd::prelude::*;

verus! {

/// One plane-coordinate unit, as a raw fixed-point value (2^32).
pub const SCALE: i64 = 4294967296;

/// Largest magnitude a plane coordinate of a viewport may have: 64 units.
pub const COORD_LIMIT: i64 = 274877906944;

/// Largest extent (stop - start) a viewport axis may have: 128 units.
pub const SPAN_LIMIT: i64 = 549755813888;

/// Largest magnitude accepted by the fixed-point multiplication helpers (2^43).
pub const FP_ARG_LIMIT: i64 = 8796093022208;

/// Product of two raw values, scaled back down, truncating toward zero.
pub open spec fn mul_raw(a: int, b: int) -> int {
    if a * b >= 0 {
        (a * b) / (SCALE as int)
    } else {
        -((-(a * b)) / (SCALE as int))
    }
}

/// Square of a raw value, scaled back down. Always equals `mul_raw(x, x)`
/// and is never negative.
pub open spec fn sq_raw(x: int) -> int {
    (x * x) / (SCALE as int)
}

/// The scaled fraction `(x / d) * e` used to map a pixel offset `x` out of
/// `d` pixels onto an extent `e`, truncating toward zero.
pub open spec fn scaled_frac(x: int, d: int, e: int) -> int {
    (x * e) / d
}

/// Fixed-point division `a / b` of two raw values, truncating toward zero
/// (only used with `a >= 0 < b`).
pub open spec fn div_fp(a: int, b: int) -> int {
    (a * (SCALE as int)) / b
}

pub proof fn lemma_sq_raw_nonneg(x: int)
    ensures
        0 <= sq_raw(x),
        sq_raw(x) == mul_raw(x, x),
{
    assert(x * x >= 0) by (nonlinear_arith);
    vstd::arithmetic::div_mod::lemma_div_pos_is_pos(x * x, SCALE as int);
}

/// `|mul_raw(a, b)| <= p / SCALE` whenever `|a * b| <= p`.
pub proof fn lemma_mul_raw_bound(a: int, b: int, p: int)
    requires
        a * b <= p,
        -(a * b) <= p,
    ensures
        -(p / (SCALE as int)) <= mul_raw(a, b) <= p / (SCALE as int),
{
    let s = SCALE as int;
    if a * b >= 0 {
        vstd::arithmetic::div_mod::lemma_div_pos_is_pos(a * b, s);
        vstd::arithmetic::div_mod::lemma_div_is_ordered(a * b, p, s);
        vstd::arithmetic::div_mod::lemma_div_pos_is_pos(p, s);
    } else {
        vstd::arithmetic::div_mod::lemma_div_pos_is_pos(-(a * b), s);
        vstd::arithmetic::div_mod::lemma_div_is_ordered(-(a * b), p, s);
        vstd::arithmetic::div_mod::lemma_div_pos_is_pos(p, s);
    }
}

/// Truncating fixed-point product of two raw values.
pub(crate) fn fp_mul(a: i64, b: i64) -> (r: i64)
    requires
        -FP_ARG_LIMIT <= a <= FP_ARG_LIMIT,
        -FP_ARG_LIMIT <= b <= FP_ARG_LIMIT,
    ensures
        r == mul_raw(a as int, b as int),
        -0x40000000000000 <= r <= 0x40000000000000,
{
    proof {
        assert(-0x4000000000000000000000 <= (a as int) * (b as int)
            <= 0x4000000000000000000000) by (nonlinear_arith)
            requires
                -FP_ARG_LIMIT <= a <= FP_ARG_LIMIT,
                -FP_ARG_LIMIT <= b <= FP_ARG_LIMIT,
        ;
    }
    let p: i128 = (a as i128) * (b as i128);
    if p >= 0 {
        let q: u128 = (p as u128) / (SCALE as u128);
        proof {
            assert(4294967296int * 0x40000000000000 == 0x4000000000000000000000)
                by (nonlinear_arith);
            vstd::arithmetic::div_mod::lemma_div_pos_is_pos(p as int, SCALE as int);
            vstd::arithmetic::div_mod::lemma_multiply_divide_le(
                p as int,
                SCALE as int,
                0x40000000000000,
            );
        }
        q as i64
    } else {
        let n: u128 = (-p) as u128;
        let q: u128 = n / (SCALE as u128);
        proof {
            assert(4294967296int * 0x40000000000000 == 0x4000000000000000000000)
                by (nonlinear_arith);
            vstd::arithmetic::div_mod::lemma_div_pos_is_pos(n as int, SCALE as int);
            vstd::arithmetic::div_mod::lemma_multiply_divide_le(
                n as int,
                SCALE as int,
                0x40000000000000,
            );
        }
        -(q as i64)
    }
}

/// Truncating fixed-point division of a positive raw value by a positive
/// raw value.
pub(crate) fn fp_div_pos(a: i64, b: i64) -> (r: i64)
    requires
        1 <= a <= SPAN_LIMIT,
        1 <= b,
        div_fp(a as int, b as int) <= SPAN_LIMIT,
    ensures
        r == div_fp(a as int, b as int),
        0 <= r <= SPAN_LIMIT,
{
    let p: u128 = (a as u128) * 4294967296u128;
    let q: u128 = p / (b as u128);
    proof {
        vstd::arithmetic::div_mod::lemma_div_pos_is_pos((a as int) * (SCALE as int), b as int);
    }
    q as i64
}

/// Truncating fixed-point square of a raw value.
pub(crate) fn fp_sq(x: i64) -> (r: i64)
    requires
        -FP_ARG_LIMIT <= x <= FP_ARG_LIMIT,
    ensures
        r == sq_raw(x as int),
        0 <= r <= 0x40000000000000,
{
    proof {
        assert((x as int) * (x as int) >= 0) by (nonlinear_arith);
    }
    let r = fp_mul(x, x);
    proof {
        lemma_sq_raw_nonneg(x as int);
    }
    r
}

} // verus!
