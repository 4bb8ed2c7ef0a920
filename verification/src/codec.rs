//! The identifier encoder and the partition extractor.
//!
//! Short variants pack position, reference length and both alleles into
//! non-overlapping bit fields of one 64-bit identifier; variants whose
//! alleles do not fit are hashed, and the identifier's top bit records
//! which of the two happened.

use vstd::prelude::*;

verus! {

use vstd::arithmetic::power2::{pow2, lemma_pow2_adds, lemma_pow2_pos, lemma2_to64, lemma2_to64_rest};
use vstd::arithmetic::mul::{
    lemma_mul_inequality, lemma_mul_is_distributive_sub_other_way, lemma_mul_nonnegative,
};
use vstd::arithmetic::div_mod::lemma_basic_div;
use vstd::bits::lemma_u64_shr_is_div;
use crate::bits::{pow2_u64, lemma_pow2_le};
use crate::budget::{BitBudget, CodecError, budget_of, layout_ok, lemma_budget_props};
use crate::hashing::{ahash_of, hash_key};
use crate::pack::{seq_code, seq2bit, lemma_seq_code_bound};

/// The eight bytes of a position, most significant first.
pub open spec fn be_bytes(p: u64) -> Seq<u8> {
    seq![
        (p >> 56) as u8,
        (p >> 48) as u8,
        (p >> 40) as u8,
        (p >> 32) as u8,
        (p >> 24) as u8,
        (p >> 16) as u8,
        (p >> 8) as u8,
        p as u8,
    ]
}

/// The byte key hashed for an overflow identifier: the big-endian position
/// followed by the raw reference and alternate bytes.
pub open spec fn key_bytes(p: u64, refs: Seq<u8>, alts: Seq<u8>) -> Seq<u8> {
    be_bytes(p) + refs + alts
}

/// An overflow identifier: the top bit forced to one over the hash shifted
/// right once, its lowest bit discarded.
pub open spec fn overflow_id(hash: u64) -> u64 {
    (1u64 << 63) | (hash >> 1)
}

/// Whether both alleles together fit the packed layout of a budget.
pub open spec fn fits_packed(refs: Seq<u8>, alts: Seq<u8>, b: BitBudget) -> bool {
    refs.len() + alts.len() <= b.nuc_len_max
}

/// The low bits of a packed identifier: the packed reference shifted above
/// the packed alternate.
pub open spec fn packed_content(refs: Seq<u8>, alts: Seq<u8>) -> int {
    (seq_code(refs) * pow2(2 * alts.len()) + seq_code(alts)) as int
}

/// A packed identifier: position, reference length and packed alleles in
/// non-overlapping fields, most significant first.
pub open spec fn packed_id(p: u64, refs: Seq<u8>, alts: Seq<u8>, b: BitBudget) -> int {
    p * pow2(b.pos_mov as nat) + refs.len() * pow2(b.sep_mov as nat) + packed_content(refs, alts)
}

/// The identifier of a variant under a budget: packed when the alleles
/// fit, the marked content hash otherwise.
pub open spec fn variant_id(p: u64, refs: Seq<u8>, alts: Seq<u8>, b: BitBudget) -> int {
    if fits_packed(refs, alts, b) {
        packed_id(p, refs, alts, b)
    } else {
        overflow_id(ahash_of(key_bytes(p, refs, alts))) as int
    }
}

/// Bounds of the fields of a packed identifier: each field ends below the
/// next one's shift, and the whole identifier stays below the top bit.
pub proof fn lemma_packed_parts(p: u64, refs: Seq<u8>, alts: Seq<u8>, b: BitBudget)
    requires
        b.wf(),
        p <= b.max_pos,
        fits_packed(refs, alts, b),
    ensures
        0 <= packed_content(refs, alts) < pow2(b.sep_mov as nat),
        refs.len() * pow2(b.sep_mov as nat) + packed_content(refs, alts) < pow2(b.pos_mov as nat),
        p * pow2(b.pos_mov as nat) <= pow2(63) - pow2(b.pos_mov as nat),
        0 <= packed_id(p, refs, alts, b) < pow2(63),
{
    lemma_budget_props(b);
    let lr = refs.len();
    let la = alts.len();
    let sl = b.sep_len as nat;
    let sm = b.sep_mov as nat;
    let pm = b.pos_mov as nat;
    let pb = b.pos_bits as nat;
    lemma_seq_code_bound(refs);
    lemma_seq_code_bound(alts);
    lemma_pow2_pos(2 * la);
    lemma_pow2_pos(sm);
    lemma_pow2_pos(pm);
    lemma_mul_nonnegative(seq_code(refs) as int, pow2(2 * la) as int);
    lemma_mul_nonnegative(lr as int, pow2(sm) as int);
    lemma_mul_nonnegative(p as int, pow2(pm) as int);
    // The packed alleles fill fewer than 2 * (lr + la) <= sep_mov bits.
    lemma_pow2_adds(2 * lr, 2 * la);
    lemma_mul_inequality(seq_code(refs) as int, pow2(2 * lr) - 1, pow2(2 * la) as int);
    assert((pow2(2 * lr) - 1) * pow2(2 * la) == pow2(2 * lr) * pow2(2 * la) - pow2(2 * la)) by {
        lemma_mul_is_distributive_sub_other_way(pow2(2 * la) as int, pow2(2 * lr) as int, 1);
    };
    lemma_pow2_le(2 * (lr + la), sm);
    // The reference length stays below the length field's width.
    lemma_pow2_adds(sl, sm);
    lemma_mul_inequality(lr as int, pow2(sl) - 1, pow2(sm) as int);
    assert((pow2(sl) - 1) * pow2(sm) == pow2(sl) * pow2(sm) - pow2(sm)) by {
        lemma_mul_is_distributive_sub_other_way(pow2(sm) as int, pow2(sl) as int, 1);
    };
    // The position stays below the discriminator bit.
    lemma_pow2_adds(pb, pm);
    lemma_mul_inequality(p as int, pow2(pb) - 1, pow2(pm) as int);
    assert((pow2(pb) - 1) * pow2(pm) == pow2(pb) * pow2(pm) - pow2(pm)) by {
        lemma_mul_is_distributive_sub_other_way(pow2(pm) as int, pow2(pb) as int, 1);
    };
}

/// Encode one variant under a well-formed budget.
///
/// The result is exactly `variant_id`, and its top bit is set precisely
/// when the alleles did not fit the packed layout.
pub fn encode_variant(p: u64, refs: &[u8], alts: &[u8], budget: &BitBudget) -> (id: u64)
    requires
        budget.wf(),
        p <= budget.max_pos,
    ensures
        id == variant_id(p, refs@, alts@, *budget),
        id >> 63 == 1 <==> !fits_packed(refs@, alts@, *budget),
{
    proof {
        lemma_budget_props(*budget);
    }
    let len_r: usize = refs.len();
    let len_a: usize = alts.len();
    let nuc_max: usize = budget.nuc_len_max as usize;
    if len_r > nuc_max || len_a > nuc_max - len_r {
        let mut key: Vec<u8> = Vec::new();
        key.push((p >> 56) as u8);
        key.push((p >> 48) as u8);
        key.push((p >> 40) as u8);
        key.push((p >> 32) as u8);
        key.push((p >> 24) as u8);
        key.push((p >> 16) as u8);
        key.push((p >> 8) as u8);
        key.push(p as u8);
        proof {
            assert(key@ =~= be_bytes(p));
        }
        let mut i: usize = 0;
        while i < refs.len()
            invariant
                i <= refs@.len(),
                key@ == be_bytes(p) + refs@.take(i as int),
            decreases refs@.len() - i,
        {
            proof {
                assert((be_bytes(p) + refs@.take(i as int)).push(refs@[i as int]) =~= be_bytes(
                    p,
                ) + refs@.take(i as int + 1));
            }
            key.push(refs[i]);
            i = i + 1;
        }
        proof {
            assert(refs@.take(refs@.len() as int) =~= refs@);
        }
        let mut j: usize = 0;
        while j < alts.len()
            invariant
                j <= alts@.len(),
                key@ == be_bytes(p) + refs@ + alts@.take(j as int),
            decreases alts@.len() - j,
        {
            proof {
                assert((be_bytes(p) + refs@ + alts@.take(j as int)).push(alts@[j as int]) =~= be_bytes(
                    p,
                ) + refs@ + alts@.take(j as int + 1));
            }
            key.push(alts[j]);
            j = j + 1;
        }
        proof {
            assert(alts@.take(alts@.len() as int) =~= alts@);
            assert(key@ =~= key_bytes(p, refs@, alts@));
        }
        let h = hash_key(&key);
        let id = (1u64 << 63) | (h >> 1);
        proof {
            assert(((1u64 << 63) | (h >> 1)) >> 63 == 1) by (bit_vector);
        }
        id
    } else {
        proof {
            lemma_packed_parts(p, refs@, alts@, *budget);
            lemma_pow2_le(budget.sep_mov as nat, 61);
            lemma_pow2_le(budget.pos_mov as nat, 62);
            lemma2_to64();
            lemma2_to64_rest();
        }
        let code_r = seq2bit(refs);
        let code_a = seq2bit(alts);
        let content = code_r * pow2_u64(2 * (len_a as u64)) + code_a;
        let id = p * pow2_u64(budget.pos_mov) + (len_r as u64) * pow2_u64(budget.sep_mov)
            + content;
        proof {
            assert(id >> 63 == 0) by {
                lemma_u64_shr_is_div(id, 63);
                lemma_basic_div(id as int, pow2(63) as int);
            };
        }
        id
    }
}

/// The identifier of one nullable row: absent input, absent output.
pub open spec fn row_id(
    pos: Option<u64>,
    refs: Option<Vec<u8>>,
    alts: Option<Vec<u8>>,
    b: BitBudget,
) -> Option<u64> {
    match (pos, refs, alts) {
        (Some(p), Some(r), Some(a)) => Some((variant_id(p, r@, a@, b) as u64)),
        _ => None,
    }
}

/// Encode a batch of nullable rows against one maximum-position bound.
///
/// Fails, before any row is touched, exactly when the bound admits no
/// sound packed layout; otherwise returns one nullable identifier per row,
/// null exactly where some input of the row is null.
pub fn encode(
    positions: &Vec<Option<u64>>,
    references: &Vec<Option<Vec<u8>>>,
    alternates: &Vec<Option<Vec<u8>>>,
    max_pos: u64,
) -> (result: Result<Vec<Option<u64>>, CodecError>)
    requires
        references@.len() == positions@.len(),
        alternates@.len() == positions@.len(),
        forall|k: int|
            0 <= k < positions@.len() && positions@[k] is Some ==> positions@[k]->0 <= max_pos,
    ensures
        result is Ok <==> layout_ok(max_pos),
        result is Ok ==> result->Ok_0@.len() == positions@.len(),
        result is Ok ==> forall|k: int|
            0 <= k < positions@.len() ==> result->Ok_0@[k] == row_id(
                positions@[k],
                references@[k],
                alternates@[k],
                budget_of(max_pos),
            ),
{
    let budget = match BitBudget::new(max_pos) {
        Ok(b) => b,
        Err(e) => {
            return Err(e);
        },
    };
    let n = positions.len();
    let mut out: Vec<Option<u64>> = Vec::new();
    let mut i: usize = 0;
    while i < n
        invariant
            n == positions@.len(),
            references@.len() == n,
            alternates@.len() == n,
            i <= n,
            out@.len() == i,
            budget.wf(),
            budget == budget_of(max_pos),
            forall|k: int|
                0 <= k < n && positions@[k] is Some ==> positions@[k]->0 <= max_pos,
            forall|k: int|
                0 <= k < i ==> out@[k] == row_id(
                    positions@[k],
                    references@[k],
                    alternates@[k],
                    budget,
                ),
        decreases n - i,
    {
        let pos_opt: Option<u64> = positions[i];
        let mut row: Option<u64> = None;
        if pos_opt.is_some() && references[i].is_some() && alternates[i].is_some() {
            let rv: &Vec<u8> = references[i].as_ref().unwrap();
            let av: &Vec<u8> = alternates[i].as_ref().unwrap();
            row = Some(encode_variant(pos_opt.unwrap(), rv.as_slice(), av.as_slice(), &budget));
        }
        out.push(row);
        i = i + 1;
    }
    Ok(out)
}

/// The partition of an identifier: 255 for an overflow identifier, else
/// the eight bits right below the discriminator bit.
pub open spec fn partition_code(id: u64) -> u8 {
    if id >> 63 == 1 {
        255
    } else {
        ((id << 1) >> 56) as u8
    }
}

/// The partition of one nullable identifier.
pub open spec fn row_partition(id: Option<u64>) -> Option<u8> {
    match id {
        Some(v) => Some(partition_code(v)),
        None => None,
    }
}

/// Extract the partition of one identifier.
pub fn partition_of(id: u64) -> (part: u8)
    ensures
        part == partition_code(id),
{
    if id >> 63 == 1 {
        255
    } else {
        proof {
            assert((id << 1) >> 56 < 256) by (bit_vector);
        }
        ((id << 1) >> 56) as u8
    }
}

/// Extract the partition of a batch of nullable identifiers,
/// null-preserving row for row.
pub fn partition(identifiers: &Vec<Option<u64>>) -> (parts: Vec<Option<u8>>)
    ensures
        parts@.len() == identifiers@.len(),
        forall|k: int|
            0 <= k < identifiers@.len() ==> parts@[k] == row_partition(identifiers@[k]),
{
    let n = identifiers.len();
    let mut out: Vec<Option<u8>> = Vec::new();
    let mut i: usize = 0;
    while i < n
        invariant
            n == identifiers@.len(),
            i <= n,
            out@.len() == i,
            forall|k: int| 0 <= k < i ==> out@[k] == row_partition(identifiers@[k]),
        decreases n - i,
    {
        let row: Option<u8> = match identifiers[i] {
            Some(id) => Some(partition_of(id)),
            None => None,
        };
        out.push(row);
        i = i + 1;
    }
    out
}

} // verus!
