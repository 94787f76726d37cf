//! The backend in the idiom of the WebAssembly 128-bit vector instructions:
//! two vectors of four lanes, with the subset test done by asking whether
//! any bit of the mask is missing.
use crate::arch::fallback::parquet_impl::low_half;
use crate::arch::lanes::{covers_lanes, Lanes};
use crate::arch::{lemma_halves_cover, lemma_halves_store, lemma_mask_lane, select_bucket};
use crate::bits::lemma_subset_forms;
use crate::model::{covers, key_of, mask_of, SALT};
use crate::FilterImpl;
use vstd::prelude::*;

verus! {

/// The backend on two vectors of four 32-bit lanes, with the subset test
/// done by looking for a set bit in `mask & !bucket`.
pub struct WasmFilter;

impl WasmFilter {
    /// Two to the power of each lane: a one shifted left by the lane. A lane
    /// of 32 or more gives zero.
    #[inline]
    pub fn power_of_two(b: Lanes<4>) -> (r: Lanes<4>)
        ensures
            r@.len() == 4,
            forall|i: int|
                0 <= i < 4 ==> r@[i] == if b@[i] < 32 {
                    1u32 << b@[i]
                } else {
                    0
                },
    {
        Lanes::<4>::splat(1).shl_each(b)
    }

    /// The mask of `hash` as two vectors: words 0 to 3, then words 4 to 7.
    #[inline]
    pub fn make_mask(hash: u32) -> (mask: (Lanes<4>, Lanes<4>))
        ensures
            mask.0@ + mask.1@ == mask_of(hash),
            mask.0@.len() == 4,
            mask.1@.len() == 4,
    {
        let salt = (Self::load_v(SALT.as_slice(), 0), Self::load_v(SALT.as_slice(), 4));
        let key = Lanes::<4>::splat(hash);
        let mut acc = (salt.0.wrapping_mul(key), salt.1.wrapping_mul(key));
        let ghost products = (acc.0@, acc.1@);
        acc = (acc.0.shr(27), acc.1.shr(27));
        let mask = (Self::power_of_two(acc.0), Self::power_of_two(acc.1));
        proof {
            assert forall|i: int| 0 <= i < 8 implies (mask.0@ + mask.1@)[i] == mask_of(
                hash,
            )[i] by {
                if i < 4 {
                    lemma_mask_lane(hash, i, products.0[i], acc.0@[i], mask.0@[i]);
                } else {
                    lemma_mask_lane(hash, i, products.1[i - 4], acc.1@[i - 4], mask.1@[i - 4]);
                }
            }
            assert(mask.0@ + mask.1@ =~= mask_of(hash));
        }
        mask
    }

    /// Four consecutive words of `vals`, from index `at` on, as one vector:
    /// lane `i` holds `vals[at + i]`.
    #[inline]
    pub fn load_v(vals: &[u32], at: usize) -> (r: Lanes<4>)
        requires
            at + 4 <= vals@.len(),
        ensures
            r@ == vals@.subrange(at as int, at + 4),
    {
        assert(vals.len() == vals@.len());
        Lanes([vals[at], vals[at + 1], vals[at + 2], vals[at + 3]])
    }

    /// True when `mask` is a subset of `bucket` in every lane.
    #[inline]
    pub fn check(mask: Lanes<4>, bucket: Lanes<4>) -> (found: bool)
        ensures
            found == covers_lanes(bucket@, mask@),
    {
        let missing = mask.and_not(bucket);
        let any = missing.any_set();
        proof {
            if any {
                let i = choose|i: int| 0 <= i < 4 && missing@[i] != 0;
                lemma_subset_forms(bucket@[i], mask@[i]);
                assert(!covers(bucket@[i], mask@[i]));
            } else {
                assert forall|i: int| 0 <= i < 4 implies covers(
                    #[trigger] bucket@[i],
                    mask@[i],
                ) by {
                    assert(missing@[i] == 0);
                    lemma_subset_forms(bucket@[i], mask@[i]);
                }
            }
        }
        !any
    }
}

impl FilterImpl for WasmFilter {
    #[inline]
    fn contains(&self, buf: &[u8], num_buckets: usize, hash: u64) -> (found: bool) {
        let bucket_idx = select_bucket(num_buckets, hash);
        let mask = Self::make_mask(low_half(hash));
        assert(buf.len() == buf@.len());
        let bucket = (
            Lanes::<4>::load(buf, bucket_idx * 32),
            Lanes::<4>::load(buf, bucket_idx * 32 + 16),
        );
        proof {
            lemma_halves_cover(buf@, bucket_idx as int, key_of(hash), mask.0@, mask.1@);
        }
        Self::check(mask.0, bucket.0) && Self::check(mask.1, bucket.1)
    }

    #[inline]
    fn insert(&self, buf: &mut [u8], num_buckets: usize, hash: u64) -> (found: bool) {
        let bucket_idx = select_bucket(num_buckets, hash);
        let mask = Self::make_mask(low_half(hash));
        assert(buf.len() == buf@.len());
        let val = (
            Lanes::<4>::load(buf, bucket_idx * 32),
            Lanes::<4>::load(buf, bucket_idx * 32 + 16),
        );
        let res = Self::check(mask.0, val.0) && Self::check(mask.1, val.1);
        let c = (val.0.bitor(mask.0), val.1.bitor(mask.1));
        proof {
            let key = key_of(hash);
            lemma_halves_cover(buf@, bucket_idx as int, key, mask.0@, mask.1@);
            lemma_halves_store(buf@, bucket_idx as int, key, mask.0@, mask.1@, c.0@, c.1@);
        }
        c.0.store(buf, bucket_idx * 32);
        c.1.store(buf, bucket_idx * 32 + 16);
        res
    }

    open spec fn name(&self) -> Seq<char> {
        "WasmFilter"@
    }

    fn which(&self) -> (name: &'static str) {
        "WasmFilter"
    }
}

} // verus!
