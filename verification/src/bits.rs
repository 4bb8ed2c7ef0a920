//! Small integer helpers for the bit-budget computation: bit length,
//! ceiling of the base-two logarithm, and powers of two.

use vstd::prelude::*;

verus! {

use vstd::arithmetic::power2::{
    pow2, lemma_pow2_unfold, lemma_pow2_strictly_increases, lemma2_to64,
};
use vstd::bits::{lemma_u64_shl_is_mul, lemma_u64_pow2_no_overflow};

/// Number of bits needed to represent `x`: one plus the position of the
/// highest set bit, with zero counted as needing one bit.
pub open spec fn bit_len(x: nat) -> nat
    decreases x,
{
    if x < 2 {
        1
    } else {
        1 + bit_len(x / 2)
    }
}

/// Smallest `k` with `pow2(k) >= x` (zero and one both give zero).
pub open spec fn ceil_log2(x: nat) -> nat
    decreases x,
{
    if x <= 1 {
        0
    } else {
        1 + ceil_log2((x + 1) / 2)
    }
}

/// `pow2` is monotone.
pub proof fn lemma_pow2_le(e1: nat, e2: nat)
    requires
        e1 <= e2,
    ensures
        pow2(e1) <= pow2(e2),
{
    if e1 < e2 {
        lemma_pow2_strictly_increases(e1, e2);
    }
}

/// The bit length brackets its argument between two powers of two.
pub proof fn lemma_bit_len_bounds(x: nat)
    ensures
        1 <= bit_len(x),
        x < pow2(bit_len(x)),
        x >= 1 ==> pow2((bit_len(x) - 1) as nat) <= x,
    decreases x,
{
    if x < 2 {
        lemma2_to64();
    } else {
        lemma_bit_len_bounds(x / 2);
        lemma_pow2_unfold(bit_len(x));
        if x / 2 >= 1 {
            lemma_pow2_unfold((bit_len(x) - 1) as nat);
        }
    }
}

/// Any value below `pow2(k)` has bit length at most `k`.
pub proof fn lemma_bit_len_upper(x: nat, k: nat)
    requires
        x < pow2(k),
        k >= 1,
    ensures
        bit_len(x) <= k,
    decreases x,
{
    if x < 2 {
    } else {
        lemma2_to64();
        lemma_pow2_unfold(k);
        if k >= 2 {
            lemma_bit_len_upper(x / 2, (k - 1) as nat);
        }
    }
}

/// The ceiling logarithm never exceeds its argument.
pub proof fn lemma_ceil_log2_le(x: nat)
    ensures
        ceil_log2(x) <= x,
    decreases x,
{
    if x > 1 {
        lemma_ceil_log2_le((x + 1) / 2);
    }
}

/// Number of bits needed to represent `x`.
pub fn bit_length(x: u64) -> (len: u64)
    ensures
        len == bit_len(x as nat),
        1 <= len <= 64,
{
    proof {
        lemma2_to64();
        lemma_bit_len_bounds(x as nat);
        lemma_bit_len_upper(x as nat, 64);
    }
    let mut n: u64 = x;
    let mut len: u64 = 1;
    while n >= 2
        invariant
            bit_len(x as nat) == (len - 1) + bit_len(n as nat),
            1 <= len,
            len - 1 + bit_len(n as nat) <= 64,
        decreases n,
    {
        n = n / 2;
        len = len + 1;
        proof {
            lemma_bit_len_bounds(n as nat);
        }
    }
    len
}

/// Smallest `k` with `pow2(k) >= x`.
pub fn ceil_log2_u64(x: u64) -> (r: u64)
    requires
        x < u64::MAX,
    ensures
        r == ceil_log2(x as nat),
{
    proof {
        lemma_ceil_log2_le(x as nat);
    }
    let mut v: u64 = x;
    let mut r: u64 = 0;
    while v > 1
        invariant
            ceil_log2(x as nat) == r + ceil_log2(v as nat),
            ceil_log2(x as nat) <= x,
            v <= x < u64::MAX,
        decreases v,
    {
        v = (v + 1) / 2;
        r = r + 1;
        proof {
            lemma_ceil_log2_le(v as nat);
        }
    }
    r
}

/// `pow2(e)` as a 64-bit value.
pub fn pow2_u64(e: u64) -> (r: u64)
    requires
        e < 64,
    ensures
        r == pow2(e as nat),
{
    proof {
        lemma_u64_pow2_no_overflow(e as nat);
        lemma_u64_shl_is_mul(1u64, e);
    }
    1u64 << e
}

} // verus!
