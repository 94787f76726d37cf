//! Facts about 32-bit and 64-bit words that need the bit-vector solver.
use vstd::prelude::*;

verus! {

/// The top five bits of a word name one of its 32 bit positions.
pub proof fn lemma_top_five_bits(y: u32)
    by (bit_vector)
    ensures
        y >> 27 < 32,
{
}

/// A one shifted to a bit position is a word with that single bit set: it
/// is not zero, it shares no bit with the word just below it, and it is
/// either wholly inside another word or disjoint from it.
pub proof fn lemma_single_bit(word: u32, position: u32)
    by (bit_vector)
    requires
        position < 32,
    ensures
        1u32 << position != 0,
        (1u32 << position) & (((1u32 << position) - 1) as u32) == 0,
        word & (1u32 << position) == 0 || word & (1u32 << position) == 1u32 << position,
{
}

/// After a union with `mask`, `mask` is covered; whatever was covered stays
/// covered; and a second union changes nothing.
pub proof fn lemma_union(word: u32, mask: u32, other: u32)
    by (bit_vector)
    ensures
        (word | mask) & mask == mask,
        (word | mask) | mask == word | mask,
        word & other == other ==> (word | mask) & other == other,
        word & mask == mask ==> word | mask == word,
{
}

/// The three ways of asking whether `mask` is a subset of `word` agree.
pub proof fn lemma_subset_forms(word: u32, mask: u32)
    by (bit_vector)
    ensures
        (!word & mask == 0) <==> (word & mask == mask),
        (mask & !word == 0) <==> (word & mask == mask),
        (mask & word == mask) <==> (word & mask == mask),
{
}

/// Splitting a 64-bit hash into its halves is division and remainder by 2^32.
pub proof fn lemma_hash_halves(hash: u64)
    by (bit_vector)
    ensures
        hash >> 32 == hash / 0x1_0000_0000,
        hash >> 32 <= 0xffff_ffff,
        (hash & 0xffff_ffff) == hash % 0x1_0000_0000,
        (hash & 0xffff_ffff) <= 0xffff_ffff,
{
}

} // verus!
