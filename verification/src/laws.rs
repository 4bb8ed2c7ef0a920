//! The guarantees the codec gives its callers, stated and proved once.

use vstd::prelude::*;

verus! {

use vstd::arithmetic::power2::{pow2, lemma_pow2_adds, lemma_pow2_pos, lemma2_to64, lemma2_to64_rest};
use vstd::arithmetic::mul::{
    lemma_mul_inequality, lemma_mul_is_associative, lemma_mul_is_distributive_add_other_way,
    lemma_mul_is_distributive_sub_other_way, lemma_mul_nonnegative,
};
use vstd::arithmetic::div_mod::{
    lemma_basic_div, lemma_div_by_multiple, lemma_div_denominator, lemma_div_is_ordered,
    lemma_fundamental_div_mod, lemma_fundamental_div_mod_converse, lemma_mod_bound,
    lemma_multiply_divide_lt,
};
use vstd::bits::{lemma_u64_shl_is_mul, lemma_u64_shr_is_div};
use crate::budget::{BitBudget, lemma_budget_props};
use crate::codec::{
    fits_packed, packed_content, packed_id, partition_code, variant_id, lemma_packed_parts,
};

/// The identifier is a function of position, alleles and budget alone:
/// encoding the same variant under the same budget always yields the same
/// identifier.
pub proof fn lemma_encode_deterministic(
    p1: u64,
    refs1: Seq<u8>,
    alts1: Seq<u8>,
    p2: u64,
    refs2: Seq<u8>,
    alts2: Seq<u8>,
    b: BitBudget,
)
    requires
        p1 == p2,
        refs1 == refs2,
        alts1 == alts2,
    ensures
        variant_id(p1, refs1, alts1, b) == variant_id(p2, refs2, alts2, b),
{
}

/// The top bit of an identifier is set exactly when the combined allele
/// length exceeds what the budget can pack.
pub proof fn lemma_top_bit_marks_overflow(p: u64, refs: Seq<u8>, alts: Seq<u8>, b: BitBudget)
    requires
        b.wf(),
        p <= b.max_pos,
    ensures
        ((variant_id(p, refs, alts, b) as u64) >> 63 == 1) <==> refs.len() + alts.len()
            > b.nuc_len_max,
{
    if fits_packed(refs, alts, b) {
        lemma_packed_parts(p, refs, alts, b);
        lemma2_to64();
        lemma2_to64_rest();
        let id = packed_id(p, refs, alts, b) as u64;
        lemma_u64_shr_is_div(id, 63);
        lemma_basic_div(id as int, pow2(63) as int);
    } else {
        let h = crate::hashing::ahash_of(crate::codec::key_bytes(p, refs, alts));
        assert(((1u64 << 63) | (h >> 1)) >> 63 == 1) by (bit_vector);
    }
}

/// Below the top bit, the partition is the identifier divided by `2^55`,
/// an eight-bit value.
pub proof fn lemma_partition_as_div(id: u64)
    requires
        id < pow2(63),
    ensures
        partition_code(id) == id as nat / pow2(55),
        id as nat / pow2(55) < 256,
{
    lemma2_to64();
    lemma2_to64_rest();
    lemma_u64_shr_is_div(id, 63);
    lemma_basic_div(id as int, pow2(63) as int);
    lemma_u64_shl_is_mul(id, 1);
    lemma_u64_shr_is_div((id << 1) as u64, 56);
    lemma_div_denominator(2 * id as int, 2, pow2(55) as int);
    lemma_div_by_multiple(id as int, 2);
    lemma_multiply_divide_lt(id as int, pow2(55) as int, 256);
}

/// An overflow-marked identifier always lands in the sentinel partition.
pub proof fn lemma_partition_overflow(id: u64)
    requires
        id >> 63 == 1,
    ensures
        partition_code(id) == 255,
{
}

/// For a packed identifier the partition is derived from the position
/// alone whenever the position field is at least eight bits wide: it is
/// the top eight bits of that field, `p / 2^(pos_bits - 8)`.
pub proof fn lemma_partition_from_position(p: u64, refs: Seq<u8>, alts: Seq<u8>, b: BitBudget)
    requires
        b.wf(),
        p <= b.max_pos,
        fits_packed(refs, alts, b),
        b.pos_bits >= 8,
    ensures
        partition_code(packed_id(p, refs, alts, b) as u64) == p as nat / pow2(
            (b.pos_bits - 8) as nat,
        ),
{
    lemma_budget_props(b);
    lemma_packed_parts(p, refs, alts, b);
    lemma2_to64();
    lemma2_to64_rest();
    let pm = b.pos_mov as nat;
    let d = (b.pos_bits - 8) as nat;
    let id_int = packed_id(p, refs, alts, b);
    let id = id_int as u64;
    lemma_partition_as_div(id);
    let rest = refs.len() * pow2(b.sep_mov as nat) + packed_content(refs, alts);
    lemma_pow2_pos(d);
    lemma_pow2_pos(pm);
    lemma_fundamental_div_mod(p as int, pow2(d) as int);
    lemma_mod_bound(p as int, pow2(d) as int);
    let q = p as int / pow2(d) as int;
    let s = p as int % pow2(d) as int;
    lemma_pow2_adds(d, pm);
    // p * 2^pm == q * 2^55 + s * 2^pm
    assert((pow2(d) * q + s) * pow2(pm) == (pow2(d) * q) * pow2(pm) + s * pow2(pm)) by {
        lemma_mul_is_distributive_add_other_way(pow2(pm) as int, pow2(d) as int * q, s);
    };
    assert((pow2(d) * q) * pow2(pm) == q * pow2(55)) by {
        lemma_mul_is_associative(q, pow2(d) as int, pow2(pm) as int);
        lemma_mul_is_associative(q, pow2(pm) as int, pow2(d) as int);
        assert(pow2(d) * q == q * pow2(d));
        assert(q * (pow2(d) * pow2(pm)) == q * pow2(55));
        lemma_mul_is_associative(q, pow2(d) as int, pow2(pm) as int);
    };
    // s * 2^pm + rest < 2^55
    lemma_mul_inequality(s, pow2(d) - 1, pow2(pm) as int);
    assert((pow2(d) - 1) * pow2(pm) == pow2(d) * pow2(pm) - pow2(pm)) by {
        lemma_mul_is_distributive_sub_other_way(pow2(pm) as int, pow2(d) as int, 1);
    };
    lemma_mul_nonnegative(s, pow2(pm) as int);
    lemma_fundamental_div_mod_converse(id as int, pow2(55) as int, q, s * pow2(pm) + rest);
}

/// For a fixed budget and fixed alleles, a larger position never yields a
/// smaller partition: packed identifiers keep coarse position order.
pub proof fn lemma_partition_monotone(p1: u64, p2: u64, refs: Seq<u8>, alts: Seq<u8>, b: BitBudget)
    requires
        b.wf(),
        p1 <= p2,
        p2 <= b.max_pos,
        fits_packed(refs, alts, b),
    ensures
        partition_code(packed_id(p1, refs, alts, b) as u64) <= partition_code(
            packed_id(p2, refs, alts, b) as u64,
        ),
{
    lemma_budget_props(b);
    lemma_packed_parts(p1, refs, alts, b);
    lemma_packed_parts(p2, refs, alts, b);
    lemma2_to64();
    lemma2_to64_rest();
    lemma_mul_inequality(p1 as int, p2 as int, pow2(b.pos_mov as nat) as int);
    lemma_partition_as_div(packed_id(p1, refs, alts, b) as u64);
    lemma_partition_as_div(packed_id(p2, refs, alts, b) as u64);
    lemma_pow2_pos(55);
    lemma_div_is_ordered(packed_id(p1, refs, alts, b), packed_id(p2, refs, alts, b), pow2(
        55,
    ) as int);
}

/// A packed identifier determines its fields: the packed alleles, the
/// reference length and the position can each be read back out of it.
pub proof fn lemma_packed_id_fields(p: u64, refs: Seq<u8>, alts: Seq<u8>, b: BitBudget)
    requires
        b.wf(),
        p <= b.max_pos,
        fits_packed(refs, alts, b),
    ensures
        packed_id(p, refs, alts, b) % (pow2(b.sep_mov as nat) as int) == packed_content(
            refs,
            alts,
        ),
        (packed_id(p, refs, alts, b) / (pow2(b.sep_mov as nat) as int)) % (pow2(
            b.sep_len as nat,
        ) as int) == refs.len(),
        packed_id(p, refs, alts, b) / (pow2(b.pos_mov as nat) as int) == p,
{
    lemma_budget_props(b);
    lemma_packed_parts(p, refs, alts, b);
    let sl = b.sep_len as nat;
    let sm = b.sep_mov as nat;
    let pm = b.pos_mov as nat;
    let content = packed_content(refs, alts);
    let high = p * pow2(sl) + refs.len();
    let id = packed_id(p, refs, alts, b);
    lemma_pow2_pos(sl);
    lemma_pow2_pos(sm);
    lemma_pow2_pos(pm);
    lemma_pow2_adds(sl, sm);
    // id == high * 2^sm + content
    assert((p * pow2(sl) + refs.len()) * pow2(sm) == (p * pow2(sl)) * pow2(sm) + refs.len() * pow2(
        sm,
    )) by {
        lemma_mul_is_distributive_add_other_way(pow2(sm) as int, p * pow2(sl), refs.len() as int);
    };
    assert((p * pow2(sl)) * pow2(sm) == p * pow2(pm)) by {
        lemma_mul_is_associative(p as int, pow2(sl) as int, pow2(sm) as int);
    };
    lemma_mul_nonnegative(p as int, pow2(sl) as int);
    lemma_fundamental_div_mod_converse(id, pow2(sm) as int, high, content);
    lemma_fundamental_div_mod_converse(high, pow2(sl) as int, p as int, refs.len() as int);
    assert((id / pow2(sm) as int) / pow2(sl) as int == id / pow2(pm) as int) by {
        lemma_div_denominator(id, pow2(sm) as int, pow2(sl) as int);
        lemma_pow2_adds(sm, sl);
    };
}

/// Packing is injective over the packed fields: at one position and under
/// one budget, two allele pairs whose reference lengths or packed contents
/// differ never share a packed identifier.
pub proof fn lemma_packed_injective(
    p: u64,
    refs1: Seq<u8>,
    alts1: Seq<u8>,
    refs2: Seq<u8>,
    alts2: Seq<u8>,
    b: BitBudget,
)
    requires
        b.wf(),
        p <= b.max_pos,
        fits_packed(refs1, alts1, b),
        fits_packed(refs2, alts2, b),
        refs1.len() != refs2.len() || packed_content(refs1, alts1) != packed_content(
            refs2,
            alts2,
        ),
    ensures
        packed_id(p, refs1, alts1, b) != packed_id(p, refs2, alts2, b),
{
    lemma_packed_id_fields(p, refs1, alts1, b);
    lemma_packed_id_fields(p, refs2, alts2, b);
}

} // verus!
