//! Two backends in the idiom of the x86 vector instruction sets: one on a
//! single vector of eight lanes, one on two vectors of four lanes.
use crate::arch::fallback::parquet_impl::low_half;
use crate::arch::lanes::Lanes;
use crate::arch::{lemma_halves_cover, lemma_halves_store, lemma_mask_lane, select_bucket};
use crate::model::{key_of, mask_of, SALT};
use crate::FilterImpl;
use vstd::prelude::*;

verus! {

/// The backend on one vector of eight 32-bit lanes: a whole bucket at once.
pub struct Avx2Filter;

impl Avx2Filter {
    /// The mask of `hash` as one vector: the salts times the hash in every
    /// lane, the top five bits of each product, and a one shifted left by
    /// them.
    #[inline]
    pub fn make_mask(hash: u32) -> (mask: Lanes<8>)
        ensures
            mask@ == mask_of(hash),
    {
        let salt = Lanes(
            [SALT[0], SALT[1], SALT[2], SALT[3], SALT[4], SALT[5], SALT[6], SALT[7]],
        );
        let mut acc = Lanes::<8>::splat(hash);
        acc = salt.wrapping_mul(acc);
        let ghost products = acc@;
        acc = acc.shr(27);
        let mask = Lanes::<8>::splat(1).shl_each(acc);
        proof {
            assert forall|i: int| 0 <= i < 8 implies mask@[i] == mask_of(hash)[i] by {
                lemma_mask_lane(hash, i, products[i], acc@[i], mask@[i]);
            }
            assert(mask@ =~= mask_of(hash));
        }
        mask
    }
}

impl FilterImpl for Avx2Filter {
    #[inline]
    fn contains(&self, buf: &[u8], num_buckets: usize, hash: u64) -> (found: bool) {
        let bucket_idx = select_bucket(num_buckets, hash);
        let mask = Self::make_mask(low_half(hash));
        assert(buf.len() == buf@.len());
        let bucket = Lanes::<8>::load(buf, bucket_idx * 32);
        bucket.test_covers(mask)
    }

    #[inline]
    fn insert(&self, buf: &mut [u8], num_buckets: usize, hash: u64) -> (found: bool) {
        let bucket_idx = select_bucket(num_buckets, hash);
        let mask = Self::make_mask(low_half(hash));
        assert(buf.len() == buf@.len());
        let val = Lanes::<8>::load(buf, bucket_idx * 32);
        let res = val.test_covers(mask);
        let joined = val.bitor(mask);
        assert(joined@ =~= crate::model::joined(val@, key_of(hash)));
        joined.store(buf, bucket_idx * 32);
        res
    }

    open spec fn name(&self) -> Seq<char> {
        "Avx2Filter"@
    }

    fn which(&self) -> (name: &'static str) {
        "Avx2Filter"
    }
}

/// The backend on two vectors of four 32-bit lanes: a bucket in two halves.
pub struct SseFilter;

impl SseFilter {
    /// Two to the power of each lane: a one shifted left by the lane. A lane
    /// of 32 or more gives zero.
    #[inline]
    pub fn power_of_two(b: Lanes<4>) -> (r: Lanes<4>)
        ensures
            r@.len() == 4,
            forall|i: int|
                0 <= i < 4 ==> r@[i] == if b@[i] < 32 {
                    1u32 << b@[i]
                } else {
                    0
                },
    {
        Lanes::<4>::splat(1).shl_each(b)
    }

    /// The mask of `hash` as two vectors: words 0 to 3, then words 4 to 7.
    #[inline]
    pub fn make_mask(hash: u32) -> (mask: (Lanes<4>, Lanes<4>))
        ensures
            mask.0@ + mask.1@ == mask_of(hash),
            mask.0@.len() == 4,
            mask.1@.len() == 4,
    {
        let salt = (
            Lanes([SALT[0], SALT[1], SALT[2], SALT[3]]),
            Lanes([SALT[4], SALT[5], SALT[6], SALT[7]]),
        );
        let key = Lanes::<4>::splat(hash);
        let mut acc = (salt.0.wrapping_mul(key), salt.1.wrapping_mul(key));
        let ghost products = (acc.0@, acc.1@);
        acc = (acc.0.shr(27), acc.1.shr(27));
        let mask = (Self::power_of_two(acc.0), Self::power_of_two(acc.1));
        proof {
            assert forall|i: int| 0 <= i < 8 implies (mask.0@ + mask.1@)[i] == mask_of(
                hash,
            )[i] by {
                if i < 4 {
                    lemma_mask_lane(hash, i, products.0[i], acc.0@[i], mask.0@[i]);
                } else {
                    lemma_mask_lane(hash, i, products.1[i - 4], acc.1@[i - 4], mask.1@[i - 4]);
                }
            }
            assert(mask.0@ + mask.1@ =~= mask_of(hash));
        }
        mask
    }
}

impl FilterImpl for SseFilter {
    #[inline]
    fn contains(&self, buf: &[u8], num_buckets: usize, hash: u64) -> (found: bool) {
        let bucket_idx = select_bucket(num_buckets, hash);
        let mask = Self::make_mask(low_half(hash));
        assert(buf.len() == buf@.len());
        let low = Lanes::<4>::load(buf, bucket_idx * 32);
        let high = Lanes::<4>::load(buf, bucket_idx * 32 + 16);
        proof {
            lemma_halves_cover(buf@, bucket_idx as int, key_of(hash), mask.0@, mask.1@);
        }
        low.test_covers(mask.0) && high.test_covers(mask.1)
    }

    #[inline]
    fn insert(&self, buf: &mut [u8], num_buckets: usize, hash: u64) -> (found: bool) {
        let bucket_idx = select_bucket(num_buckets, hash);
        let mask = Self::make_mask(low_half(hash));
        assert(buf.len() == buf@.len());
        let low = Lanes::<4>::load(buf, bucket_idx * 32);
        let high = Lanes::<4>::load(buf, bucket_idx * 32 + 16);
        let res = low.test_covers(mask.0) && high.test_covers(mask.1);
        let low_out = low.bitor(mask.0);
        let high_out = high.bitor(mask.1);
        proof {
            let key = key_of(hash);
            lemma_halves_cover(buf@, bucket_idx as int, key, mask.0@, mask.1@);
            lemma_halves_store(
                buf@,
                bucket_idx as int,
                key,
                mask.0@,
                mask.1@,
                low_out@,
                high_out@,
            );
        }
        low_out.store(buf, bucket_idx * 32);
        high_out.store(buf, bucket_idx * 32 + 16);
        res
    }

    open spec fn name(&self) -> Seq<char> {
        "SseFilter"@
    }

    fn which(&self) -> (name: &'static str) {
        "SseFilter"
    }
}

} // verus!
