//! The per-dataset bit budget of the packed identifier layout.
//!
//! One bit of the 64 is the overflow discriminator.  Below it the position
//! occupies as many bits as the dataset-wide maximum position needs; the
//! bits that remain are split between a field recording the reference
//! sequence's length and the two-bit-per-character packed alleles.

use vstd::prelude::*;

verus! {

use vstd::arithmetic::power2::pow2;
use crate::bits::{
    bit_len, ceil_log2, bit_length, ceil_log2_u64, pow2_u64, lemma_bit_len_bounds,
    lemma_ceil_log2_le,
};

/// A batch-level failure of the identifier codec.
#[derive(Clone, Copy, Debug, PartialEq, Eq, Structural)]
pub enum CodecError {
    /// The maximum-position bound leaves no sound packed layout: either no
    /// room for a single packed nucleotide, or a reference-length field too
    /// narrow for every length the nucleotide space admits.
    InvalidMaxPosition,
}

/// Bits needed for the largest position of the dataset.
pub open spec fn spec_pos_bits(max_pos: u64) -> nat {
    bit_len(max_pos as nat)
}

/// Bits left below the position field and the discriminator bit.
pub open spec fn spec_spare(max_pos: u64) -> int {
    63 - spec_pos_bits(max_pos)
}

/// Width of the reference-length field.
pub open spec fn spec_sep_len(max_pos: u64) -> nat {
    if spec_spare(max_pos) >= 0 {
        ceil_log2((spec_spare(max_pos) / 2) as nat)
    } else {
        0
    }
}

/// Largest total number of reference plus alternate characters that the
/// packed layout can hold.
pub open spec fn spec_nuc_len_max(max_pos: u64) -> int {
    (spec_spare(max_pos) - spec_sep_len(max_pos)) / 2
}

/// Whether `max_pos` leaves a sound packed layout: the position fits below
/// the discriminator bit, at least one nucleotide can be packed, and the
/// reference-length field is wide enough for every length that fits.
pub open spec fn layout_ok(max_pos: u64) -> bool {
    &&& spec_spare(max_pos) >= 0
    &&& spec_nuc_len_max(max_pos) >= 1
    &&& spec_nuc_len_max(max_pos) < pow2(spec_sep_len(max_pos))
}

/// The field widths and shifts of the packed layout for one dataset.
#[derive(Clone, Copy, Debug, PartialEq, Eq, Structural)]
pub struct BitBudget {
    /// The dataset-wide maximum position the budget was built for.
    pub max_pos: u64,
    /// Bits of the position field.
    pub pos_bits: u64,
    /// Shift of the position field: bits below it.
    pub pos_mov: u64,
    /// Bits of the reference-length field.
    pub sep_len: u64,
    /// Shift of the reference-length field: bits below it.
    pub sep_mov: u64,
    /// Largest total reference plus alternate character count that packs.
    pub nuc_len_max: u64,
}

/// The budget that belongs to a maximum position, as a value.
pub open spec fn budget_of(max_pos: u64) -> BitBudget {
    BitBudget {
        max_pos,
        pos_bits: spec_pos_bits(max_pos) as u64,
        pos_mov: spec_spare(max_pos) as u64,
        sep_len: spec_sep_len(max_pos) as u64,
        sep_mov: (spec_spare(max_pos) - spec_sep_len(max_pos)) as u64,
        nuc_len_max: spec_nuc_len_max(max_pos) as u64,
    }
}

impl BitBudget {
    /// A well-formed budget is the one its own maximum position yields,
    /// and that maximum position admits a sound layout.
    pub open spec fn wf(self) -> bool {
        layout_ok(self.max_pos) && self == budget_of(self.max_pos)
    }

    /// Compute the bit budget for a dataset, or report that the
    /// maximum-position bound admits no sound packed layout.
    pub fn new(max_pos: u64) -> (result: Result<BitBudget, CodecError>)
        ensures
            result is Ok <==> layout_ok(max_pos),
            result is Ok ==> result->Ok_0 == budget_of(max_pos) && result->Ok_0.wf(),
    {
        let pos_bits = bit_length(max_pos);
        if pos_bits > 63 {
            return Err(CodecError::InvalidMaxPosition);
        }
        let pos_mov = 63 - pos_bits;
        let sep_len = ceil_log2_u64(pos_mov / 2);
        proof {
            lemma_ceil_log2_le((pos_mov / 2) as nat);
        }
        let sep_mov = pos_mov - sep_len;
        let nuc_len_max = sep_mov / 2;
        if nuc_len_max == 0 {
            return Err(CodecError::InvalidMaxPosition);
        }
        if nuc_len_max >= pow2_u64(sep_len) {
            return Err(CodecError::InvalidMaxPosition);
        }
        Ok(BitBudget { max_pos, pos_bits, pos_mov, sep_len, sep_mov, nuc_len_max })
    }
}

/// Numeric consequences of well-formedness that the encoder's proofs use.
pub proof fn lemma_budget_props(b: BitBudget)
    requires
        b.wf(),
    ensures
        1 <= b.pos_bits <= 61,
        b.pos_mov == 63 - b.pos_bits,
        b.sep_len <= b.pos_mov,
        b.sep_mov == b.pos_mov - b.sep_len,
        b.nuc_len_max == b.sep_mov / 2,
        1 <= b.nuc_len_max <= 30,
        2 * b.nuc_len_max <= b.sep_mov,
        b.nuc_len_max < pow2(b.sep_len as nat),
        b.max_pos < pow2(b.pos_bits as nat),
        1 <= b.sep_len <= 31,
        2 <= b.sep_mov <= 61,
{
    lemma_bit_len_bounds(b.max_pos as nat);
    lemma_ceil_log2_le((spec_spare(b.max_pos) / 2) as nat);
    if b.sep_len == 0 {
        vstd::arithmetic::power2::lemma2_to64();
    }
}

} // verus!
