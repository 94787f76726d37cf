//! The backends: one portable, word at a time, and four written lane by
//! lane, each in the idiom of one vector instruction set. All of them select
//! the bucket in the same way and meet the same contract.
use crate::arch::fallback::parquet_impl::hash_to_block_index;
use crate::arch::lanes::covers_lanes;
use crate::bits::{lemma_hash_halves, lemma_top_five_bits};
use crate::endian::{with_words, words_at};
use crate::model::{
    bucket_index, bucket_words, covers, covers_mask, joined, mask_of, salted, word_mask, SALT,
};
use vstd::prelude::*;

pub mod aarch64;
pub mod fallback;
pub mod lanes;
pub mod wasm;
pub mod x86;

verus! {

/// What the caller found out about the processor that the program runs on.
/// Every field that is `false` rules the backend of that name out.
#[derive(Debug, Clone, Copy, PartialEq, Eq, Structural)]
pub struct CpuFeatures {
    /// x86 with 256-bit integer vectors (AVX2).
    pub avx2: bool,
    /// x86 with 128-bit integer vectors and the vector test instruction
    /// (SSE4.1).
    pub sse41: bool,
    /// Little-endian AArch64 with its 128-bit vectors (NEON).
    pub neon: bool,
    /// Little-endian WebAssembly with 128-bit vectors (simd128).
    pub simd128: bool,
}

/// The backends, a closed set.
#[derive(Debug, Clone, Copy, PartialEq, Eq, Structural)]
pub enum Backend {
    /// [`x86::Avx2Filter`].
    Avx2,
    /// [`x86::SseFilter`].
    Sse,
    /// [`aarch64::NeonFilter`].
    Neon,
    /// [`wasm::WasmFilter`].
    Wasm,
    /// [`fallback::FallbackFilter`].
    Fallback,
}

impl Backend {
    /// The name of the backend, as its `which` gives it.
    pub open spec fn name(self) -> Seq<char> {
        match self {
            Backend::Avx2 => "Avx2Filter"@,
            Backend::Sse => "SseFilter"@,
            Backend::Neon => "NeonFilter"@,
            Backend::Wasm => "WasmFilter"@,
            Backend::Fallback => "FallbackFilter"@,
        }
    }
}

/// The backend to use on a processor with `features`: the widest vectors
/// first, the portable backend when nothing else is there.
pub open spec fn preferred(features: CpuFeatures) -> Backend {
    if features.avx2 {
        Backend::Avx2
    } else if features.sse41 {
        Backend::Sse
    } else if features.neon {
        Backend::Neon
    } else if features.simd128 {
        Backend::Wasm
    } else {
        Backend::Fallback
    }
}

/// Picks the backend for a processor with `features`. It always finds one:
/// the portable backend needs no feature.
pub fn load(features: CpuFeatures) -> (backend: Backend)
    ensures
        backend == preferred(features),
{
    if features.avx2 {
        Backend::Avx2
    } else if features.sse41 {
        Backend::Sse
    } else if features.neon {
        Backend::Neon
    } else if features.simd128 {
        Backend::Wasm
    } else {
        Backend::Fallback
    }
}

/// Taken on trust from the source of `fastrange_rs::fastrange_32`: it widens
/// `word` and `p` to 64 bits, multiplies them and returns the high 32 bits of
/// the product, which is the product divided by 2^32.
pub assume_specification[ fastrange_rs::fastrange_32 ](word: u32, p: u32) -> (r: u32)
    ensures
        r == (word * p) / 0x1_0000_0000,
;

/// The bucket that `hash` selects among `num_buckets`, by multiply and
/// shift on the high half of the hash. A number of buckets that does not fit
/// in 32 bits is handled as the portable backend handles it.
#[inline]
pub fn select_bucket(num_buckets: usize, hash: u64) -> (index: usize)
    ensures
        index == bucket_index(num_buckets, hash),
        num_buckets > 0 ==> index < num_buckets,
{
    if num_buckets <= 0xffff_ffff {
        proof {
            lemma_hash_halves(hash);
            if num_buckets > 0 {
                crate::laws::lemma_bucket_index_in_range(num_buckets, hash);
            }
        }
        fastrange_rs::fastrange_32((hash >> 32) as u32, num_buckets as u32) as usize
    } else {
        hash_to_block_index(num_buckets, hash)
    }
}

/// One lane of mask generation, as every vector backend does it: the salt
/// times the key, the product shifted right by 27, and a one shifted left by
/// what is left. The lane is the word of the mask.
pub proof fn lemma_mask_lane(key: u32, i: int, product: u32, position: u32, lane: u32)
    requires
        0 <= i < 8,
        product == vstd::wrapping::u32_specs::wrapping_mul(SALT@[i], key),
        position == product >> 27,
        lane == if position < 32 {
            1u32 << position
        } else {
            0
        },
    ensures
        lane == word_mask(key, i),
{
    lemma_top_five_bits(product);
    assert(product == salted(key, i)) by (nonlinear_arith)
        requires
            product == vstd::wrapping::u32_specs::wrapping_mul(SALT@[i], key),
    ;
}

/// A bucket read as two halves of four words covers a mask when each half
/// covers its half of the mask.
pub proof fn lemma_halves_cover(buf: Seq<u8>, bucket: int, key: u32, low: Seq<u32>, high: Seq<u32>)
    requires
        low.len() == 4,
        high.len() == 4,
        low + high == mask_of(key),
    ensures
        covers_mask(bucket_words(buf, bucket), key) <==> covers_lanes(
            words_at(buf, 32 * bucket, 4),
            low,
        ) && covers_lanes(words_at(buf, 32 * bucket + 16, 4), high),
{
    let words = bucket_words(buf, bucket);
    let first = words_at(buf, 32 * bucket, 4);
    let second = words_at(buf, 32 * bucket + 16, 4);
    let mask = mask_of(key);
    assert forall|i: int| 0 <= i < 4 implies first[i] == words[i] && second[i] == words[i + 4]
        && low[i] == mask[i] && high[i] == mask[i + 4] by {
        assert((low + high)[i] == low[i]);
        assert((low + high)[i + 4] == high[i]);
    }
    if covers_mask(words, key) {
        assert forall|i: int| 0 <= i < 4 implies covers(
            #[trigger] first[i],
            low[i],
        ) by {
            assert(covers(words[i], mask[i]));
        }
        assert forall|i: int| 0 <= i < 4 implies covers(
            #[trigger] second[i],
            high[i],
        ) by {
            assert(covers(words[i + 4], mask[i + 4]));
        }
    }
    if covers_lanes(first, low) && covers_lanes(second, high) {
        assert forall|i: int| 0 <= i < 8 implies covers(
            #[trigger] words[i],
            word_mask(key, i),
        ) by {
            if i < 4 {
                assert(covers(first[i], low[i]));
            } else {
                assert(covers(second[i - 4], high[i - 4]));
            }
        }
    }
}

/// Writing the two halves of a bucket one after the other, each joined with
/// its half of a mask, is writing the whole bucket joined with the mask.
pub proof fn lemma_halves_store(
    buf: Seq<u8>,
    bucket: int,
    key: u32,
    low: Seq<u32>,
    high: Seq<u32>,
    low_out: Seq<u32>,
    high_out: Seq<u32>,
)
    requires
        0 <= bucket,
        32 * bucket + 32 <= buf.len(),
        low.len() == 4,
        high.len() == 4,
        low + high == mask_of(key),
        low_out.len() == 4,
        high_out.len() == 4,
        forall|i: int| 0 <= i < 4 ==> low_out[i] == words_at(buf, 32 * bucket, 4)[i] | low[i],
        forall|i: int|
            0 <= i < 4 ==> high_out[i] == words_at(buf, 32 * bucket + 16, 4)[i] | high[i],
    ensures
        with_words(with_words(buf, 32 * bucket, low_out), 32 * bucket + 16, high_out)
            == with_words(buf, 32 * bucket, joined(bucket_words(buf, bucket), key)),
{
    let whole = joined(bucket_words(buf, bucket), key);
    let one = with_words(with_words(buf, 32 * bucket, low_out), 32 * bucket + 16, high_out);
    let other = with_words(buf, 32 * bucket, whole);
    assert forall|i: int| 0 <= i < 4 implies low_out[i] == whole[i] && high_out[i] == whole[i
        + 4] by {
        assert((low + high)[i] == low[i]);
        assert((low + high)[i + 4] == high[i]);
    }
    assert forall|j: int| 0 <= j < buf.len() implies one[j] == other[j] by {
        let at = 32 * bucket;
        if at <= j < at + 16 {
            let i = (j - at) / 4;
            assert(low_out[i] == whole[i]);
        } else if at + 16 <= j < at + 32 {
            let i = (j - at - 16) / 4;
            assert((j - at) / 4 == i + 4);
            assert((j - at) % 4 == (j - at - 16) % 4);
            assert(high_out[i] == whole[i + 4]);
        }
    }
    assert(one =~= other);
}

} // verus!
