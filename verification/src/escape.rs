//! The escape-time recurrence: the orbit `z -> z*z + c` from the origin,
//! the iteration at which it first leaves the escape radius, and the
//! executable classifier `belongs_to_set`.

use vstd::prelude::*;
use crate::fixed::{mul_raw, sq_raw, SCALE};
use crate::complex::{Complex, mag_raw, step_re, step_im, ESCAPE_LIMIT, C_LIMIT, Z_LIMIT};

verus! {

/// One sampled grid point and the iteration at which its orbit escaped
/// (`escapes == 0` marks a point that never escaped within the cap).
#[derive(Clone, Copy, PartialEq, Eq, Structural, Debug)]
pub struct Pixel {
    pub x: u32,
    pub y: u32,
    pub escapes: u32,
}

/// The orbit of `c`: `orbit(c, 0) == (0, 0)` and each later element is the
/// fixed-point evaluation of `z * z + c` on the previous one.
pub open spec fn orbit(cr: int, ci: int, n: nat) -> (int, int)
    decreases n,
{
    if n == 0 {
        (0, 0)
    } else {
        let prev = orbit(cr, ci, (n - 1) as nat);
        (step_re(prev.0, prev.1, cr), step_im(prev.0, prev.1, ci))
    }
}

/// First index in `[i, cap)` whose orbit element lies outside the escape
/// radius, or 0 if none does.
pub open spec fn escape_from(cr: int, ci: int, i: nat, cap: nat) -> nat
    decreases cap - i,
{
    if i >= cap {
        0
    } else if mag_raw(orbit(cr, ci, i).0, orbit(cr, ci, i).1) > ESCAPE_LIMIT {
        i
    } else {
        escape_from(cr, ci, (i + 1) as nat, cap)
    }
}

/// The escape count of `c` under iteration cap `cap`: the iteration at which
/// the orbit's raw squared magnitude first exceeds `ESCAPE_LIMIT`, or 0 if it
/// never does within the cap.
pub open spec fn escape_count(cr: int, ci: int, cap: nat) -> nat {
    escape_from(cr, ci, 0, cap)
}

/// A non-escaped orbit element steps to a bounded one.
pub proof fn lemma_step_bounded(zr: int, zi: int, cr: int, ci: int)
    requires
        mag_raw(zr, zi) <= ESCAPE_LIMIT,
        -C_LIMIT <= cr <= C_LIMIT,
        -C_LIMIT <= ci <= C_LIMIT,
    ensures
        -Z_LIMIT <= step_re(zr, zi, cr) <= Z_LIMIT,
        -Z_LIMIT <= step_im(zr, zi, ci) <= Z_LIMIT,
{
    let s = SCALE as int;
    crate::fixed::lemma_sq_raw_nonneg(zr);
    crate::fixed::lemma_sq_raw_nonneg(zi);
    // Each square is at most the whole magnitude, so the real part is linear.
    assert(sq_raw(zr) <= ESCAPE_LIMIT && sq_raw(zi) <= ESCAPE_LIMIT);
    // For the cross term: |2 * zr * zi| <= zr * zr + zi * zi.
    assert((zr + zr) * zi <= zr * zr + zi * zi && -((zr + zr) * zi) <= zr * zr + zi * zi)
        by (nonlinear_arith);
    // And zr * zr < SCALE * (sq_raw(zr) + 1), likewise for zi.
    vstd::arithmetic::div_mod::lemma_fundamental_div_mod(zr * zr, s);
    vstd::arithmetic::div_mod::lemma_mod_division_less_than_divisor(zr * zr, s);
    vstd::arithmetic::div_mod::lemma_fundamental_div_mod(zi * zi, s);
    vstd::arithmetic::div_mod::lemma_mod_division_less_than_divisor(zi * zi, s);
    assert(zr * zr + zi * zi <= s * (ESCAPE_LIMIT + 2));
    crate::fixed::lemma_mul_raw_bound(zr + zr, zi, s * (ESCAPE_LIMIT + 2));
    vstd::arithmetic::div_mod::lemma_div_multiples_vanish(ESCAPE_LIMIT + 2, s);
    assert(-(ESCAPE_LIMIT + 2) <= mul_raw(zr + zr, zi) <= ESCAPE_LIMIT + 2);
}

/// The escape index is 0 or lies in `[i, cap)`.
pub proof fn lemma_escape_from_range(cr: int, ci: int, i: nat, cap: nat)
    ensures
        escape_from(cr, ci, i, cap) == 0 || i <= escape_from(cr, ci, i, cap) < cap,
    decreases cap - i,
{
    if i < cap {
        let z = orbit(cr, ci, i);
        if !(mag_raw(z.0, z.1) > ESCAPE_LIMIT) {
            lemma_escape_from_range(cr, ci, (i + 1) as nat, cap);
        }
    }
}

/// The orbit never escapes at iteration 0, so a positive count is at least 1:
/// the escape count is 0 or lies in `[1, cap)`.
pub proof fn lemma_escape_count_range(cr: int, ci: int, cap: nat)
    ensures
        escape_count(cr, ci, cap) == 0 || 1 <= escape_count(cr, ci, cap) < cap,
{
    if cap > 0 {
        assert(sq_raw(0) == 0);
        assert(mag_raw(orbit(cr, ci, 0).0, orbit(cr, ci, 0).1) == 0);
        lemma_escape_from_range(cr, ci, 1, cap);
    }
}

proof fn lemma_orbit_origin(n: nat)
    ensures
        orbit(0, 0, n).0 == 0,
        orbit(0, 0, n).1 == 0,
    decreases n,
{
    assert(sq_raw(0) == 0);
    assert(mul_raw(0, 0) == 0);
    if n > 0 {
        lemma_orbit_origin((n - 1) as nat);
    }
}

proof fn lemma_origin_escape_from(i: nat, cap: nat)
    ensures
        escape_from(0, 0, i, cap) == 0,
    decreases cap - i,
{
    if i < cap {
        lemma_orbit_origin(i);
        assert(sq_raw(0) == 0);
        lemma_origin_escape_from((i + 1) as nat, cap);
    }
}

/// The origin never escapes: its orbit stays at the origin, so its escape
/// count is 0 under every iteration cap.
pub proof fn lemma_origin_in_set(cap: nat)
    ensures
        escape_count(0, 0, cap) == 0,
{
    lemma_origin_escape_from(0, cap);
}

proof fn lemma_orbit_minus_one(n: nat)
    ensures
        n % 2 == 0 ==> orbit(-(SCALE as int), 0, n).0 == 0 && orbit(-(SCALE as int), 0, n).1 == 0,
        n % 2 == 1 ==> orbit(-(SCALE as int), 0, n).0 == -(SCALE as int) && orbit(
            -(SCALE as int),
            0,
            n,
        ).1 == 0,
    decreases n,
{
    let s = SCALE as int;
    assert(sq_raw(0) == 0);
    assert(mul_raw(0, 0) == 0);
    assert(sq_raw(-s) == s);
    assert(mul_raw(-s + -s, 0) == 0);
    if n > 0 {
        lemma_orbit_minus_one((n - 1) as nat);
    }
}

proof fn lemma_minus_one_escape_from(i: nat, cap: nat)
    ensures
        escape_from(-(SCALE as int), 0, i, cap) == 0,
    decreases cap - i,
{
    let s = SCALE as int;
    if i < cap {
        lemma_orbit_minus_one(i);
        assert(sq_raw(0) == 0);
        assert(sq_raw(-s) == s);
        lemma_minus_one_escape_from((i + 1) as nat, cap);
    }
}

/// The classic in-set point -1: its orbit cycles between -1 and 0 exactly,
/// so its escape count is 0 under every iteration cap.
pub proof fn lemma_minus_one_in_set(cap: nat)
    ensures
        escape_count(-(SCALE as int), 0, cap) == 0,
{
    lemma_minus_one_escape_from(0, cap);
}

/// The point 2 + 2i escapes at exactly iteration 2 for every cap of at
/// least 3 (its squared magnitude starts below the threshold and exceeds
/// it two steps later).
pub proof fn lemma_two_two_escapes(cap: nat)
    requires
        3 <= cap,
    ensures
        escape_count(2 * (SCALE as int), 2 * (SCALE as int), cap) == 2,
{
    let c: int = 8589934592;
    assert(c == 2 * (SCALE as int));
    assert(sq_raw(0) == 0);
    assert(mul_raw(0, 0) == 0);
    assert(orbit(c, c, 0).0 == 0 && orbit(c, c, 0).1 == 0);
    assert(orbit(c, c, 1).0 == c && orbit(c, c, 1).1 == c);
    assert(sq_raw(8589934592int) == 17179869184);
    assert(mul_raw(17179869184int, 8589934592int) == 34359738368);
    assert(c + c == 17179869184int);
    assert(orbit(c, c, 2).0 == c && orbit(c, c, 2).1 == 42949672960);
    assert(sq_raw(42949672960int) == 429496729600);
    assert(mag_raw(orbit(c, c, 0).0, orbit(c, c, 0).1) == 0);
    assert(mag_raw(orbit(c, c, 1).0, orbit(c, c, 1).1) == 34359738368);
    assert(mag_raw(orbit(c, c, 2).0, orbit(c, c, 2).1) == 446676598784);
    assert(escape_from(c, c, 2, cap) == 2);
    assert(escape_from(c, c, 1, cap) == 2);
    assert(escape_from(c, c, 0, cap) == 2);
}

/// Classifies one sample point: walks the orbit of `c` and records in
/// `p.escapes` the iteration at which it escaped, or 0 if it never did
/// within `iters` iterations.
pub fn belongs_to_set(c: Complex, p: &mut Pixel, iters: u32)
    requires
        -C_LIMIT <= c.real <= C_LIMIT,
        -C_LIMIT <= c.imag <= C_LIMIT,
    ensures
        final(p).x == old(p).x,
        final(p).y == old(p).y,
        final(p).escapes as nat == escape_count(c.real as int, c.imag as int, iters as nat),
{
    let cr: Ghost<int> = Ghost(c.real as int);
    let ci: Ghost<int> = Ghost(c.imag as int);
    let mut z: Complex = Complex { real: 0, imag: 0 };
    let mut i: u32 = 0;
    while i < iters
        invariant
            i <= iters,
            -C_LIMIT <= c.real <= C_LIMIT,
            -C_LIMIT <= c.imag <= C_LIMIT,
            cr@ == c.real as int,
            ci@ == c.imag as int,
            -Z_LIMIT <= z.real <= Z_LIMIT,
            -Z_LIMIT <= z.imag <= Z_LIMIT,
            z.real as int == orbit(cr@, ci@, i as nat).0,
            z.imag as int == orbit(cr@, ci@, i as nat).1,
            escape_from(cr@, ci@, 0, iters as nat) == escape_from(cr@, ci@, i as nat, iters as nat),
            p.x == old(p).x,
            p.y == old(p).y,
        decreases iters - i,
    {
        let m = z.mag();
        if m > ESCAPE_LIMIT {
            p.escapes = i;
            proof {
                assert(escape_from(cr@, ci@, i as nat, iters as nat) == i as nat);
            }
            return;
        }
        proof {
            lemma_step_bounded(z.real as int, z.imag as int, cr@, ci@);
            assert(escape_from(cr@, ci@, i as nat, iters as nat) == escape_from(
                cr@,
                ci@,
                (i + 1) as nat,
                iters as nat,
            ));
            assert(orbit(cr@, ci@, (i + 1) as nat) == (
                step_re(z.real as int, z.imag as int, cr@),
                step_im(z.real as int, z.imag as int, ci@),
            ));
        }
        z.square();
        z = z.add(c);
        i = i + 1;
    }
    p.escapes = 0;
}

} // verus!
