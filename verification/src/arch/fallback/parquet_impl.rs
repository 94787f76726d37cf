//! The filter on one bucket at a time, as the Parquet format lays it out:
//! a block of eight 32-bit words, read from and written to the buffer in
//! little-endian byte order.
use crate::bits::{lemma_hash_halves, lemma_single_bit, lemma_top_five_bits};
use crate::endian::{le_byte, le_word, read_word, swap_word, swapped, word_bytes};
use crate::laws::lemma_bucket_index_in_range;
use crate::model::{
    bit_position, bucket_index, bucket_words, contains_hash, covers, covers_mask, fits, joined,
    key_of, mask_of, salted, with_hash, word_mask, SALT,
};
use vstd::prelude::*;

verus! {

/// A bucket held as eight 32-bit words. Each word is an array of 32 bits,
/// each of them set or not set.
#[derive(Debug, Copy, Clone)]
pub struct Block(pub [u32; 8]);

impl View for Block {
    type V = Seq<u32>;

    open spec fn view(&self) -> Seq<u32> {
        self.0@
    }
}

/// The words of a 32-byte bucket.
pub open spec fn block_of(bytes: Seq<u8>) -> Seq<u32> {
    Seq::new(
        8,
        |i: int|
            if 4 * i + 4 <= bytes.len() {
                le_word(bytes, 4 * i)
            } else {
                0
            },
    )
}

/// The 32 bytes of a block of eight words, each word in little-endian order.
pub open spec fn bytes_of(words: Seq<u32>) -> Seq<u8> {
    Seq::new(32, |j: int| le_byte(words[j / 4], j % 4))
}

impl Block {
    /// The block with no bit set.
    pub fn zero() -> (block: Block)
        ensures
            block@ == Seq::new(8, |i: int| 0u32),
    {
        let block = Block([0u32; 8]);
        assert(block@ =~= Seq::new(8, |i: int| 0u32));
        block
    }

    /// The block in which each word has exactly one bit set: in word `i`,
    /// the bit named by the top five bits of `x * SALT[i]`, multiplied with
    /// wrap-around.
    #[inline(always)]
    pub fn mask(x: u32) -> (block: Block)
        ensures
            block@ == mask_of(x),
    {
        let mut result = [0u32; 8];
        for i in 0..8usize
            invariant
                forall|k: int| 0 <= k < i ==> result@[k] == word_mask(x, k),
        {
            let y: u32 = x.wrapping_mul(SALT[i]);
            let y: u32 = y >> 27;
            proof {
                lemma_top_five_bits(x.wrapping_mul(SALT[i as int]));
            }
            result[i] = 1u32 << y;
        }
        assert(result@ =~= mask_of(x));
        Block(result)
    }

    /// The 32 bytes of the block, each word in little-endian order.
    #[inline(always)]
    pub fn to_le_bytes(self) -> (bytes: [u8; 32])
        ensures
            bytes@ == bytes_of(self@),
    {
        let mut bytes = [0u8; 32];
        for i in 0..8usize
            invariant
                forall|j: int| 0 <= j < 4 * i ==> bytes@[j] == le_byte(self@[j / 4], j % 4),
        {
            let word = word_bytes(self.0[i]);
            bytes[4 * i] = word[0];
            bytes[4 * i + 1] = word[1];
            bytes[4 * i + 2] = word[2];
            bytes[4 * i + 3] = word[3];
        }
        assert(bytes@ =~= bytes_of(self@));
        bytes
    }

    /// The block with the bytes of every word in reverse order.
    #[inline(always)]
    pub fn swap_bytes(self) -> (block: Block)
        ensures
            block@ == Seq::new(8, |i: int| swapped(self@[i])),
    {
        let mut words = self.0;
        for i in 0..8usize
            invariant
                forall|k: int| 0 <= k < i ==> words@[k] == swapped(self@[k]),
                forall|k: int| i <= k < 8 ==> words@[k] == self@[k],
        {
            words[i] = swap_word(words[i]);
        }
        assert(words@ =~= Seq::new(8, |i: int| swapped(self@[i])));
        Block(words)
    }

    /// Sets every bit of the block that is set in the mask of `hash`.
    #[inline(always)]
    pub fn insert(&mut self, hash: u32)
        ensures
            final(self)@ == joined(old(self)@, hash),
    {
        let mask = Self::mask(hash);
        for i in 0..8usize
            invariant
                mask@ == mask_of(hash),
                forall|k: int| 0 <= k < i ==> self@[k] == old(self)@[k] | word_mask(hash, k),
                forall|k: int| i <= k < 8 ==> self@[k] == old(self)@[k],
        {
            let ghost before = self@;
            self.0[i] |= mask.0[i];
            assert(self@ == before.update(i as int, before[i as int] | mask@[i as int]));
        }
        assert(self@ =~= joined(old(self)@, hash));
    }

    /// True when every bit that is set in the mask of `hash` is also set in
    /// the block.
    #[inline(always)]
    pub fn check(&self, hash: u32) -> (found: bool)
        ensures
            found == covers_mask(self@, hash),
    {
        let mask = Self::mask(hash);
        for i in 0..8usize
            invariant
                mask@ == mask_of(hash),
                forall|k: int| 0 <= k < i ==> covers(#[trigger] self@[k], word_mask(hash, k)),
        {
            proof {
                lemma_top_five_bits(salted(hash, i as int));
                lemma_single_bit(self@[i as int], bit_position(hash, i as int));
            }
            if self.0[i] & mask.0[i] == 0 {
                assert(!covers(self@[i as int], word_mask(hash, i as int)));
                return false;
            }
        }
        true
    }

    /// Reads a block from a bucket's bytes, a little-endian word from every
    /// four of them. Words for which `buf` is too short stay zero; a `buf` of
    /// 36 bytes or more has a ninth word, for which a block has no room.
    #[inline(always)]
    pub fn load(buf: &[u8]) -> (block: Block)
        requires
            buf@.len() < 36,
        ensures
            block@ == block_of(buf@),
    {
        let mut block = Block::zero();
        let words = buf.len() / 4;
        for i in 0..words
            invariant
                words == buf@.len() / 4,
                words <= 8,
                forall|k: int| 0 <= k < i ==> block@[k] == le_word(buf@, 4 * k),
                forall|k: int| i <= k < 8 ==> block@[k] == 0,
        {
            let ghost before = block@;
            block.0[i] = read_word(buf, 4 * i);
            assert(block@ == before.update(i as int, le_word(buf@, 4 * i)));
        }
        assert(block@ =~= block_of(buf@));
        block
    }

    /// Writes the block over a bucket's 32 bytes.
    #[inline(always)]
    pub fn store(&self, buf: &mut [u8])
        requires
            old(buf)@.len() == 32,
        ensures
            final(buf)@ == bytes_of(self@),
    {
        let bytes = self.to_le_bytes();
        for j in 0..32usize
            invariant
                buf@.len() == 32,
                bytes@ == bytes_of(self@),
                forall|k: int| 0 <= k < j ==> buf@[k] == bytes@[k],
        {
            buf[j] = bytes[j];
        }
        assert(buf@ =~= bytes_of(self@));
    }
}

/// Puts `hash` into the filter in `buf` and says whether it was there
/// before: the bucket is read, tested against the mask of the low half of
/// the hash, joined with that mask and written back.
#[inline(always)]
pub fn insert_hash(buf: &mut [u8], num_buckets: usize, hash: u64) -> (found: bool)
    requires
        fits(old(buf)@, num_buckets),
    ensures
        found == contains_hash(old(buf)@, num_buckets, hash),
        final(buf)@ == with_hash(old(buf)@, num_buckets, hash),
{
    let block_idx = hash_to_block_index(num_buckets, hash);
    let key = low_half(hash);
    assert(buf.len() == buf@.len());
    let (_head, rest) = buf.split_at_mut(block_idx * 32);
    let (bucket, _tail) = rest.split_at_mut(32);

    let mut block = Block::load(bucket);
    assert(block@ =~= bucket_words(old(buf)@, block_idx as int));

    let res = block.check(key);
    block.insert(key);

    block.store(bucket);

    assert(buf@ =~= with_hash(old(buf)@, num_buckets, hash));
    res
}

/// Says whether `hash` is in the filter in `buf`.
#[inline(always)]
pub fn check_hash(buf: &[u8], num_buckets: usize, hash: u64) -> (found: bool)
    requires
        fits(buf@, num_buckets),
    ensures
        found == contains_hash(buf@, num_buckets, hash),
{
    let block_idx = hash_to_block_index(num_buckets, hash);
    assert(buf.len() == buf@.len());
    let bucket = &buf[block_idx * 32..block_idx * 32 + 32];

    let block = Block::load(bucket);
    assert(block@ =~= bucket_words(buf@, block_idx as int));

    block.check(low_half(hash))
}

/// The low 32 bits of `hash`.
#[inline(always)]
pub fn low_half(hash: u64) -> (key: u32)
    ensures
        key == key_of(hash),
{
    proof {
        lemma_hash_halves(hash);
    }
    (hash & 0xffff_ffff) as u32
}

/// The bucket that `hash` selects among `num_buckets`: the high half of the
/// hash is multiplied by the number of buckets, stopping at the largest
/// 64-bit value, and the high half of that product is the index.
#[inline(always)]
pub fn hash_to_block_index(num_buckets: usize, hash: u64) -> (index: usize)
    ensures
        index == bucket_index(num_buckets, hash),
        num_buckets > 0 ==> index < num_buckets,
{
    let high: u64 = hash >> 32;
    let product: u64 = match high.checked_mul(num_buckets as u64) {
        Some(p) => p,
        None => u64::MAX,
    };
    proof {
        lemma_hash_halves(hash);
        lemma_hash_halves(product);
        if num_buckets > 0 {
            lemma_bucket_index_in_range(num_buckets, hash);
        }
    }
    (product >> 32) as usize
}

} // verus!
