//! The grey shade of an escape count: the count's floor-log2 scaled against
//! the iteration cap's floor-log2, the integer core of the caller's
//! colouring.

use vstd::prelude::*;
use vstd::arithmetic::power2::{pow2, lemma_pow2_unfold, lemma2_to64};

verus! {

/// Floor of the base-2 logarithm (0 for 0 and 1).
pub open spec fn log2_floor(n: nat) -> nat
    decreases n,
{
    if n <= 1 {
        0
    } else {
        1 + log2_floor(n / 2)
    }
}

/// `log2_floor` is monotone.
pub proof fn lemma_log2_floor_monotone(a: nat, b: nat)
    requires
        a <= b,
    ensures
        log2_floor(a) <= log2_floor(b),
    decreases b,
{
    if a > 1 {
        lemma_log2_floor_monotone(a / 2, b / 2);
    }
}

/// A value below `pow2(k)` has a floor-log2 below `k`.
pub proof fn lemma_log2_floor_below(n: nat, k: nat)
    requires
        1 <= n < pow2(k),
    ensures
        log2_floor(n) < k,
    decreases n,
{
    lemma2_to64();
    if n <= 1 {
        if k == 0 {
            assert(pow2(0) == 1);
        }
    } else {
        if k == 0 {
            assert(pow2(0) == 1);
        }
        lemma_pow2_unfold(k);
        lemma_log2_floor_below(n / 2, (k - 1) as nat);
    }
}

/// Floor of the base-2 logarithm of a positive `u32`; at most 31.
pub fn log2_floor_of(n: u32) -> (r: u32)
    requires
        1 <= n,
    ensures
        r == log2_floor(n as nat),
        r <= 31,
{
    proof {
        lemma2_to64();
        lemma_log2_floor_below(n as nat, 32);
    }
    let mut v: u32 = n;
    let mut r: u32 = 0;
    while v >= 2
        invariant
            1 <= v <= n,
            log2_floor(n as nat) == r + log2_floor(v as nat),
            log2_floor(n as nat) <= 31,
        decreases v,
    {
        v = v / 2;
        r = r + 1;
    }
    r
}

/// The grey shade of one escape count under cap `iters`: 0 for an in-set
/// point, else `log2(escapes) * 255 / log2(iters)`, which never exceeds 255.
pub fn shade_of(escapes: u32, iters: u32) -> (r: u8)
    requires
        2 <= iters,
        escapes < iters,
    ensures
        escapes == 0 ==> r == 0,
        1 <= escapes ==> r == log2_floor(escapes as nat) * 255 / log2_floor(iters as nat),
{
    if escapes < 1 {
        0
    } else {
        let a = log2_floor_of(escapes);
        let b = log2_floor_of(iters);
        proof {
            lemma_log2_floor_monotone(escapes as nat, iters as nat);
            vstd::arithmetic::mul::lemma_mul_inequality(a as int, b as int, 255);
            vstd::arithmetic::div_mod::lemma_multiply_divide_le(
                (a as int) * 255,
                b as int,
                255,
            );
            vstd::arithmetic::div_mod::lemma_div_pos_is_pos((a as int) * 255, b as int);
        }
        let q = (a * 255) / b;
        q as u8
    }
}

} // verus!
