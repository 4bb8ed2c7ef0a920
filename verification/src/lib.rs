//! Deterministic 64-bit identifiers for genomic variants.
//!
//! A variant is a genomic position together with a reference and an
//! alternate nucleotide sequence.  Short variants are bit-packed into a
//! 64-bit identifier that preserves ordering by position in its high bits;
//! variants whose alleles do not fit the packed layout are routed through a
//! seeded content hash and marked by the identifier's top bit.  An 8-bit
//! partition value for bucketing variants is derived from the identifier.

pub mod bits;
pub mod budget;
pub mod codec;
pub mod hashing;
pub mod laws;
pub mod pack;

pub use budget::{BitBudget, CodecError};
pub use codec::{encode, encode_variant, partition, partition_of};
pub use pack::{nuc2bit, seq2bit};
