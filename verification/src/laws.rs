//! Laws of the filter, proved of the model that every backend computes.
use crate::bits::{lemma_top_five_bits, lemma_union};
use crate::endian::{le_byte, lemma_word_of_bytes};
use crate::model::{
    bit_position, bucket_index, bucket_words, contains_hash, covers, fits, high_half, joined,
    key_of, salted, with_hash, with_hashes, word_mask, SALT,
};
use crate::FilterImpl;
use vstd::prelude::*;

verus! {

/// A hash always selects one of the buckets that exist.
pub proof fn lemma_bucket_index_in_range(num_buckets: usize, hash: u64)
    requires
        num_buckets > 0,
    ensures
        0 <= bucket_index(num_buckets, hash) < num_buckets,
{
    let high = high_half(hash) as int;
    let n = num_buckets as int;
    assert(0 <= high * n < 0x1_0000_0000 * n) by (nonlinear_arith)
        requires
            0 <= high < 0x1_0000_0000,
            n > 0,
    ;
}

/// The bucket depends on the high half of the hash alone, and a larger high
/// half never selects an earlier bucket: the buckets cut the range of high
/// halves into consecutive runs.
pub proof fn lemma_bucket_index_monotonic(num_buckets: usize, low: u64, high: u64)
    requires
        high_half(low) <= high_half(high),
    ensures
        bucket_index(num_buckets, low) <= bucket_index(num_buckets, high),
        high_half(low) == high_half(high) ==> bucket_index(num_buckets, low) == bucket_index(
            num_buckets,
            high,
        ),
{
    let a = high_half(low) as int;
    let b = high_half(high) as int;
    let n = num_buckets as int;
    assert(a * n <= b * n) by (nonlinear_arith)
        requires
            0 <= a <= b,
            0 <= n,
    ;
}

/// Every salt is odd.
pub proof fn lemma_salt_is_odd(i: int)
    requires
        0 <= i < 8,
    ensures
        SALT@[i] % 2 == 1,
{
    assert(SALT@[0] == 0x47b6137b && SALT@[1] == 0x44974d91 && SALT@[2] == 0x8824ad5b && SALT@[3]
        == 0xa2b7289d);
    assert(SALT@[4] == 0x705495c7 && SALT@[5] == 0x2df1424b && SALT@[6] == 0x9efc4947 && SALT@[7]
        == 0x5c6bfb31);
}

/// Every word of a mask has exactly one bit set: it is not zero, and
/// taking one away from it leaves no bit of it.
pub proof fn lemma_mask_word_has_a_bit(key: u32, i: int)
    requires
        0 <= i < 8,
    ensures
        bit_position(key, i) < 32,
        word_mask(key, i) != 0,
        word_mask(key, i) & ((word_mask(key, i) - 1) as u32) == 0,
{
    lemma_top_five_bits(salted(key, i));
    crate::bits::lemma_single_bit(0, bit_position(key, i));
}

/// Putting a hash in rewrites its own bucket, to the old words joined with
/// the mask, and leaves the words of every other bucket as they were.
pub proof fn lemma_words_after_insert(buf: Seq<u8>, num_buckets: usize, hash: u64, bucket: int)
    requires
        fits(buf, num_buckets),
        0 <= bucket < num_buckets,
    ensures
        with_hash(buf, num_buckets, hash).len() == buf.len(),
        bucket == bucket_index(num_buckets, hash) ==> bucket_words(
            with_hash(buf, num_buckets, hash),
            bucket,
        ) == joined(bucket_words(buf, bucket), key_of(hash)),
        bucket != bucket_index(num_buckets, hash) ==> bucket_words(
            with_hash(buf, num_buckets, hash),
            bucket,
        ) == bucket_words(buf, bucket),
{
    lemma_bucket_index_in_range(num_buckets, hash);
    let target = bucket_index(num_buckets, hash);
    let after = with_hash(buf, num_buckets, hash);
    if bucket == target {
        let words = joined(bucket_words(buf, bucket), key_of(hash));
        assert forall|i: int| 0 <= i < 8 implies #[trigger] bucket_words(after, bucket)[i]
            == words[i] by {
            let at = 32 * bucket + 4 * i;
            assert(after[at] == le_byte(words[i], 0));
            assert(after[at + 1] == le_byte(words[i], 1));
            assert(after[at + 2] == le_byte(words[i], 2));
            assert(after[at + 3] == le_byte(words[i], 3));
            lemma_word_of_bytes(after, at, words[i]);
        }
        assert(bucket_words(after, bucket) =~= words);
    } else {
        assert forall|i: int| 0 <= i < 8 implies #[trigger] bucket_words(after, bucket)[i]
            == bucket_words(buf, bucket)[i] by {
            let at = 32 * bucket + 4 * i;
            assert(after[at] == buf[at]);
            assert(after[at + 1] == buf[at + 1]);
            assert(after[at + 2] == buf[at + 2]);
            assert(after[at + 3] == buf[at + 3]);
        }
        assert(bucket_words(after, bucket) =~= bucket_words(buf, bucket));
    }
}

/// An insertion touches one bucket: every byte outside the bucket that the
/// hash selects is left as it was, and the buffer keeps its length.
pub proof fn lemma_insert_touches_one_bucket(buf: Seq<u8>, num_buckets: usize, hash: u64, j: int)
    requires
        0 <= j < buf.len(),
        !(32 * bucket_index(num_buckets, hash) <= j < 32 * bucket_index(num_buckets, hash) + 32),
    ensures
        with_hash(buf, num_buckets, hash).len() == buf.len(),
        with_hash(buf, num_buckets, hash)[j] == buf[j],
{
}

/// A hash is found right after it was put in.
pub proof fn lemma_inserted_is_found(buf: Seq<u8>, num_buckets: usize, hash: u64)
    requires
        fits(buf, num_buckets),
    ensures
        contains_hash(with_hash(buf, num_buckets, hash), num_buckets, hash),
{
    let bucket = bucket_index(num_buckets, hash);
    lemma_bucket_index_in_range(num_buckets, hash);
    lemma_words_after_insert(buf, num_buckets, hash, bucket);
    let before = bucket_words(buf, bucket);
    let after = bucket_words(with_hash(buf, num_buckets, hash), bucket);
    assert forall|i: int| 0 <= i < 8 implies covers(
        #[trigger] after[i],
        word_mask(key_of(hash), i),
    ) by {
        lemma_union(before[i], word_mask(key_of(hash), i), 0);
    }
}

/// Putting a hash in never removes another: what was found before is found
/// after.
pub proof fn lemma_found_stays_found(buf: Seq<u8>, num_buckets: usize, hash: u64, other: u64)
    requires
        fits(buf, num_buckets),
        contains_hash(buf, num_buckets, other),
    ensures
        contains_hash(with_hash(buf, num_buckets, hash), num_buckets, other),
{
    let bucket = bucket_index(num_buckets, other);
    lemma_bucket_index_in_range(num_buckets, other);
    lemma_words_after_insert(buf, num_buckets, hash, bucket);
    let before = bucket_words(buf, bucket);
    let after = bucket_words(with_hash(buf, num_buckets, hash), bucket);
    assert forall|i: int| 0 <= i < 8 implies covers(
        #[trigger] after[i],
        word_mask(key_of(other), i),
    ) by {
        assert(covers(before[i], word_mask(key_of(other), i)));
        lemma_union(before[i], word_mask(key_of(hash), i), word_mask(key_of(other), i));
    }
}

/// No false negatives: after any run of insertions, every hash of the run is
/// found, however many others were put in after it.
pub proof fn lemma_no_false_negatives(
    buf: Seq<u8>,
    num_buckets: usize,
    hashes: Seq<u64>,
    k: int,
)
    requires
        fits(buf, num_buckets),
        0 <= k < hashes.len(),
    ensures
        with_hashes(buf, num_buckets, hashes).len() == buf.len(),
        contains_hash(with_hashes(buf, num_buckets, hashes), num_buckets, hashes[k]),
    decreases hashes.len(),
{
    let earlier = hashes.drop_last();
    let so_far = with_hashes(buf, num_buckets, earlier);
    lemma_with_hashes_len(buf, num_buckets, earlier);
    if k == hashes.len() - 1 {
        lemma_inserted_is_found(so_far, num_buckets, hashes.last());
    } else {
        lemma_no_false_negatives(buf, num_buckets, earlier, k);
        lemma_found_stays_found(so_far, num_buckets, hashes.last(), hashes[k]);
    }
}

/// Insertions never change the length of the buffer.
pub proof fn lemma_with_hashes_len(buf: Seq<u8>, num_buckets: usize, hashes: Seq<u64>)
    ensures
        with_hashes(buf, num_buckets, hashes).len() == buf.len(),
    decreases hashes.len(),
{
    if hashes.len() > 0 {
        lemma_with_hashes_len(buf, num_buckets, hashes.drop_last());
    }
}

/// Putting in a hash that is already found changes nothing.
pub proof fn lemma_insert_of_found_is_identity(buf: Seq<u8>, num_buckets: usize, hash: u64)
    requires
        fits(buf, num_buckets),
        contains_hash(buf, num_buckets, hash),
    ensures
        with_hash(buf, num_buckets, hash) == buf,
{
    let bucket = bucket_index(num_buckets, hash);
    lemma_bucket_index_in_range(num_buckets, hash);
    let words = bucket_words(buf, bucket);
    let after = with_hash(buf, num_buckets, hash);
    assert forall|j: int| 0 <= j < buf.len() implies after[j] == buf[j] by {
        if 32 * bucket <= j < 32 * bucket + 32 {
            let i = (j - 32 * bucket) / 4;
            assert(covers(words[i], word_mask(key_of(hash), i)));
            lemma_union(words[i], word_mask(key_of(hash), i), 0);
            crate::endian::lemma_bytes_of_word(buf, 32 * bucket + 4 * i);
        }
    }
    assert(after =~= buf);
}

/// Idempotence: putting the same hash in twice leaves the buffer as putting
/// it in once does, and the second insertion finds the hash.
pub proof fn lemma_insert_idempotent(buf: Seq<u8>, num_buckets: usize, hash: u64)
    requires
        fits(buf, num_buckets),
    ensures
        contains_hash(with_hash(buf, num_buckets, hash), num_buckets, hash),
        with_hash(with_hash(buf, num_buckets, hash), num_buckets, hash) == with_hash(
            buf,
            num_buckets,
            hash,
        ),
{
    lemma_inserted_is_found(buf, num_buckets, hash);
    lemma_insert_of_found_is_identity(with_hash(buf, num_buckets, hash), num_buckets, hash);
}

/// The subset test comes out the same in every idiom that a backend uses
/// for it. On a word of a bucket and the matching word of a mask, these all
/// say whether the word covers the mask: that the two have a bit in common
/// (the mask has only one); that the mask has no bit outside the word,
/// asked from either side; that the mask is unchanged by intersecting it
/// with the word.
pub proof fn lemma_subset_tests_agree(word: u32, key: u32, i: int)
    requires
        0 <= i < 8,
    ensures
        (word & word_mask(key, i) != 0) == covers(word, word_mask(key, i)),
        (!word & word_mask(key, i) == 0) == covers(word, word_mask(key, i)),
        (word_mask(key, i) & !word == 0) == covers(word, word_mask(key, i)),
        (word_mask(key, i) & word == word_mask(key, i)) == covers(word, word_mask(key, i)),
{
    lemma_mask_word_has_a_bit(key, i);
    crate::bits::lemma_single_bit(word, bit_position(key, i));
    crate::bits::lemma_subset_forms(word, word_mask(key, i));
}

/// No bucket is left out: among up to 2^32 buckets, every one is selected by
/// some hash.
pub proof fn lemma_every_bucket_is_selected(num_buckets: usize, bucket: int) -> (hash: u64)
    requires
        num_buckets <= 0x1_0000_0000,
        0 <= bucket < num_buckets,
    ensures
        bucket_index(num_buckets, hash) == bucket,
{
    let n = num_buckets as int;
    let scaled = bucket * 0x1_0000_0000;
    let high = (scaled + n - 1) / n;
    assert(scaled <= high * n < scaled + n) by (nonlinear_arith)
        requires
            n > 0,
            high == (scaled + n - 1) / n,
    ;
    assert(0 <= high < 0x1_0000_0000) by (nonlinear_arith)
        requires
            0 <= bucket < n,
            n <= 0x1_0000_0000,
            scaled == bucket * 0x1_0000_0000,
            scaled <= high * n < scaled + n,
    ;
    let hash = (high * 0x1_0000_0000) as u64;
    assert(high_half(hash) == high);
    assert((high * n) / 0x1_0000_0000 == bucket);
    hash
}

/// Parity of lookups: on the same buffer and the same hash, any two
/// backends answer alike. `found_a` and `found_b` stand for what a call of
/// `contains` on each of them can return.
pub proof fn lemma_backends_agree_on_lookup<A: FilterImpl, B: FilterImpl>(
    a: &A,
    b: &B,
    buf: &[u8],
    num_buckets: usize,
    hash: u64,
    found_a: bool,
    found_b: bool,
)
    requires
        fits(buf@, num_buckets),
        call_ensures(A::contains, (a, buf, num_buckets, hash), found_a),
        call_ensures(B::contains, (b, buf, num_buckets, hash), found_b),
    ensures
        found_a == found_b,
{
}

/// Parity of insertions: started on buffers with the same bytes, with the
/// same number of buckets and the same hash, any two backends return the
/// same answer and leave the same bytes. `run_a` and `run_b` are the
/// arguments of one call of `insert` on each of them, `found_a` and `found_b`
/// what the calls can return. Step by step, this carries over to any
/// sequence of operations replayed through two backends.
pub proof fn lemma_backends_agree_on_insert<A: FilterImpl, B: FilterImpl>(
    run_a: (&A, &mut [u8], usize, u64),
    found_a: bool,
    run_b: (&B, &mut [u8], usize, u64),
    found_b: bool,
)
    requires
        fits(run_a.1@, run_a.2),
        run_a.1@ == run_b.1@,
        run_a.2 == run_b.2,
        run_a.3 == run_b.3,
        call_ensures(A::insert, run_a, found_a),
        call_ensures(B::insert, run_b, found_b),
    ensures
        found_a == found_b,
        final(run_a.1)@ == final(run_b.1)@,
{
}

} // verus!
