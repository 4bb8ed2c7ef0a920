//! Two-bit packing of nucleotide sequences.

use vstd::prelude::*;

verus! {

use vstd::arithmetic::power2::{pow2, lemma_pow2_adds, lemma2_to64, lemma2_to64_rest};
use crate::bits::lemma_pow2_le;

/// Two-bit code of a nucleotide letter.
///
/// `A` maps to 0b00, `C` to 0b01, `T` to 0b10 and `G` to 0b11, in either
/// case; `N` folds to `G`'s code.  A byte outside the nucleotide alphabet
/// is not rejected: it folds to bits 2..1 of its value, so it never
/// corrupts any other row.
pub open spec fn nuc_code(nuc: u8) -> u64 {
    ((nuc as u64) >> 1) & 0b11
}

/// Numeric value of a sequence read as a base-four numeral, most
/// significant character first, each character contributing its two-bit
/// nucleotide code.
pub open spec fn seq_code(s: Seq<u8>) -> nat
    decreases s.len(),
{
    if s.len() == 0 {
        0
    } else {
        (seq_code(s.drop_last()) * 4 + nuc_code(s.last())) as nat
    }
}

/// A two-bit code is below four.
pub proof fn lemma_nuc_code_bound(nuc: u8)
    ensures
        nuc_code(nuc) < 4,
{
    assert(((nuc as u64) >> 1) & 0b11 < 4) by (bit_vector);
}

/// A packed sequence occupies two bits per character.
pub proof fn lemma_seq_code_bound(s: Seq<u8>)
    ensures
        seq_code(s) < pow2(2 * s.len()),
    decreases s.len(),
{
    if s.len() == 0 {
        lemma2_to64();
    } else {
        lemma_seq_code_bound(s.drop_last());
        lemma_nuc_code_bound(s.last());
        lemma_pow2_adds(2 * (s.len() - 1) as nat, 2);
        lemma2_to64();
    }
}

/// Two-bit code of a nucleotide letter.
pub fn nuc2bit(nuc: u8) -> (code: u64)
    ensures
        code == nuc_code(nuc),
{
    ((nuc as u64) >> 1) & 0b11
}

/// Two-bit packing of a whole sequence, most significant character first.
pub fn seq2bit(seq: &[u8]) -> (code: u64)
    requires
        seq@.len() <= 31,
    ensures
        code == seq_code(seq@),
{
    let mut two_bit: u64 = 0;
    let mut i: usize = 0;
    proof {
        assert(seq@.take(0) =~= Seq::<u8>::empty());
    }
    while i < seq.len()
        invariant
            i <= seq@.len() <= 31,
            two_bit == seq_code(seq@.take(i as int)),
        decreases seq@.len() - i,
    {
        proof {
            lemma_seq_code_bound(seq@.take(i as int));
            lemma_pow2_le(2 * i as nat, 60);
            lemma2_to64();
            lemma2_to64_rest();
            assert(two_bit < pow2(60));
            lemma_nuc_code_bound(seq@[i as int]);
            assert(seq@.take(i + 1).drop_last() =~= seq@.take(i as int));
            assert(seq@.take(i + 1).last() == seq@[i as int]);
        }
        two_bit = two_bit * 4 + nuc2bit(seq[i]);
        i = i + 1;
    }
    proof {
        assert(seq@.take(seq@.len() as int) =~= seq@);
    }
    two_bit
}

} // verus!
