//! What the filter means, stated on the bytes of a buffer.
//!
//! A buffer of `num_buckets` buckets is a sequence of at least
//! `32 * num_buckets` bytes. Bucket `b` is the eight little-endian words at
//! bytes `32 * b .. 32 * b + 32`. A hash is in the filter when, in the bucket
//! it selects, each of the eight words has the one bit set that the hash
//! selects in that word.
use crate::endian::{with_words, words_at};
use vstd::prelude::*;

verus! {

/// The eight odd multipliers that spread the low half of a hash over the
/// eight words of a bucket.
pub const SALT: [u32; 8] = [
    0x47b6137b,
    0x44974d91,
    0x8824ad5b,
    0xa2b7289d,
    0x705495c7,
    0x2df1424b,
    0x9efc4947,
    0x5c6bfb31,
];

/// A buffer is large enough for `num_buckets` buckets, and there is at least
/// one bucket.
pub open spec fn fits(buf: Seq<u8>, num_buckets: usize) -> bool {
    &&& num_buckets > 0
    &&& buf.len() >= 32 * num_buckets
}

/// The low 32 bits of a hash: they select one bit in each word of a bucket.
pub open spec fn key_of(hash: u64) -> u32 {
    (hash % 0x1_0000_0000) as u32
}

/// The high 32 bits of a hash: they select the bucket.
pub open spec fn high_half(hash: u64) -> u32 {
    (hash / 0x1_0000_0000) as u32
}

/// The bucket that `hash` selects among `num_buckets`: the high half of the
/// hash times the number of buckets, divided by 2^32, and never more than the
/// largest 32-bit value.
pub open spec fn bucket_index(num_buckets: usize, hash: u64) -> int {
    let scaled = (high_half(hash) as int * num_buckets as int) / 0x1_0000_0000;
    if scaled <= 0xffff_ffff {
        scaled
    } else {
        0xffff_ffff
    }
}

/// The product of `key` and `SALT[i]`, kept to its low 32 bits.
pub open spec fn salted(key: u32, i: int) -> u32 {
    vstd::wrapping::u32_specs::wrapping_mul(key, SALT@[i])
}

/// The bit position, from 0 to 31, that `key` selects in word `i` of a
/// bucket: the top five bits of the wrapping product of `key` and `SALT[i]`.
pub open spec fn bit_position(key: u32, i: int) -> u32 {
    salted(key, i) >> 27
}

/// Word `i` of the mask of `key`: the word with only the selected bit set.
pub open spec fn word_mask(key: u32, i: int) -> u32 {
    1u32 << bit_position(key, i)
}

/// `mask` is a bitwise subset of `word`.
pub open spec fn covers(word: u32, mask: u32) -> bool {
    word & mask == mask
}

/// The mask of `key`: eight words with one bit set in each.
pub open spec fn mask_of(key: u32) -> Seq<u32> {
    Seq::new(8, |i: int| word_mask(key, i))
}

/// Every word of `words` covers the matching word of the mask of `key`.
pub open spec fn covers_mask(words: Seq<u32>, key: u32) -> bool {
    forall|i: int| 0 <= i < 8 ==> covers(#[trigger] words[i], word_mask(key, i))
}

/// `words` joined, word by word, with the mask of `key`.
pub open spec fn joined(words: Seq<u32>, key: u32) -> Seq<u32> {
    Seq::new(8, |i: int| words[i] | word_mask(key, i))
}

/// The eight words of bucket `bucket` of `buf`.
pub open spec fn bucket_words(buf: Seq<u8>, bucket: int) -> Seq<u32> {
    words_at(buf, 32 * bucket, 8)
}

/// The hash is in the filter: every word of its bucket covers the matching
/// word of its mask.
pub open spec fn contains_hash(buf: Seq<u8>, num_buckets: usize, hash: u64) -> bool {
    covers_mask(bucket_words(buf, bucket_index(num_buckets, hash)), key_of(hash))
}

/// The buffer after the hash is put in: in its bucket every word is joined
/// with the matching word of the mask, and no other byte changes.
pub open spec fn with_hash(buf: Seq<u8>, num_buckets: usize, hash: u64) -> Seq<u8> {
    let bucket = bucket_index(num_buckets, hash);
    with_words(buf, 32 * bucket, joined(bucket_words(buf, bucket), key_of(hash)))
}

/// The buffer after a run of hashes is put in, first to last.
pub open spec fn with_hashes(buf: Seq<u8>, num_buckets: usize, hashes: Seq<u64>) -> Seq<u8>
    decreases hashes.len(),
{
    if hashes.len() == 0 {
        buf
    } else {
        with_hash(with_hashes(buf, num_buckets, hashes.drop_last()), num_buckets, hashes.last())
    }
}

} // verus!
