//! A split block Bloom filter over caller-owned memory.
//!
//! The filter is a byte buffer made of 32-byte buckets, each read as eight
//! little-endian 32-bit words. A 64-bit hash selects one bucket with its high
//! half and one bit in each of the bucket's eight words with its low half.
//! The library never allocates filter state and never hashes keys.
//!
//! [`model`] defines what membership and insertion mean on the bytes of a
//! buffer; every backend under [`arch`] is proved to compute exactly that,
//! and [`laws`] proves what follows for every buffer and every hash.
use crate::arch::aarch64::NeonFilter;
use crate::arch::fallback::FallbackFilter;
use crate::arch::wasm::WasmFilter;
use crate::arch::x86::{Avx2Filter, SseFilter};
use crate::arch::{preferred, Backend, CpuFeatures};
use crate::buffer::{base_address, validate, validation, FilterError};
use vstd::prelude::*;

pub mod arch;
pub mod bits;
pub mod buffer;
pub mod endian;
pub mod laws;
pub mod model;

verus! {

/// Alignment, in bytes, that the base address of a filter buffer must have.
pub const ALIGNMENT: usize = 64;

/// Size of one bucket in bytes.
pub const BUCKET_SIZE: usize = 32;

/// What every backend offers. The contract is the same for all of them: a
/// backend decides how the work is done, never what comes out.
pub trait FilterImpl {
    /// Says whether the filter bits in `buf` contain `hash`. Reads one bucket
    /// and changes nothing.
    fn contains(&self, buf: &[u8], num_buckets: usize, hash: u64) -> (found: bool)
        requires
            model::fits(buf@, num_buckets),
        ensures
            found == model::contains_hash(buf@, num_buckets, hash),
    ;

    /// Puts `hash` into the filter bits in `buf`, and says whether it was
    /// already there before the call. Rewrites one bucket.
    fn insert(&self, buf: &mut [u8], num_buckets: usize, hash: u64) -> (found: bool)
        requires
            model::fits(old(buf)@, num_buckets),
        ensures
            found == model::contains_hash(old(buf)@, num_buckets, hash),
            final(buf)@ == model::with_hash(old(buf)@, num_buckets, hash),
    ;

    /// The name by which the backend is known.
    spec fn name(&self) -> Seq<char>;

    /// The name of the backend.
    fn which(&self) -> (name: &'static str)
        ensures
            name@ == self.name(),
    ;
}

/// What a checked lookup of `hash` gives for the buffer `buf` when its
/// first byte lies at address `addr`: the error of the buffer, or whether the
/// hash is in the filter.
pub open spec fn checked_lookup(addr: usize, buf: Seq<u8>, hash: u64) -> Result<
    bool,
    FilterError,
> {
    match validation(addr, buf.len()) {
        Ok(num_buckets) => Ok(model::contains_hash(buf, num_buckets, hash)),
        Err(error) => Err(error),
    }
}

/// The buffer after a checked insertion of `hash` into `buf` when its first
/// byte lies at address `addr`: unchanged when the buffer is refused.
pub open spec fn checked_update(addr: usize, buf: Seq<u8>, hash: u64) -> Seq<u8> {
    match validation(addr, buf.len()) {
        Ok(num_buckets) => model::with_hash(buf, num_buckets, hash),
        Err(_) => buf,
    }
}

/// The handle through which a filter is used: it holds the backend that was
/// picked, and no filter state.
#[derive(Debug, Clone, Copy)]
pub struct FilterFn {
    inner: Backend,
}

impl FilterFn {
    /// The backend that the handle runs.
    pub closed spec fn backend(&self) -> Backend {
        self.inner
    }

    /// A handle on the best backend for a processor with `features`.
    /// Allocates no memory.
    pub fn new(features: CpuFeatures) -> (filter: Self)
        ensures
            filter.backend() == preferred(features),
    {
        Self { inner: arch::load(features) }
    }

    /// Says whether the filter bits in `buf` contain `hash`.
    ///
    /// The buffer must hold `num_buckets` buckets of [`BUCKET_SIZE`] bytes,
    /// and `num_buckets` must be more than zero. Nothing is checked at run
    /// time: this is the entry point for callers that have established both.
    #[inline(always)]
    pub fn contains(&self, buf: &[u8], num_buckets: usize, hash: u64) -> (found: bool)
        requires
            model::fits(buf@, num_buckets),
        ensures
            found == model::contains_hash(buf@, num_buckets, hash),
    {
        match self.inner {
            Backend::Avx2 => Avx2Filter.contains(buf, num_buckets, hash),
            Backend::Sse => SseFilter.contains(buf, num_buckets, hash),
            Backend::Neon => NeonFilter.contains(buf, num_buckets, hash),
            Backend::Wasm => WasmFilter.contains(buf, num_buckets, hash),
            Backend::Fallback => FallbackFilter.contains(buf, num_buckets, hash),
        }
    }

    /// Puts `hash` into the filter bits in `buf`. Returns true if `hash` was
    /// already in the filter bits before the call.
    ///
    /// The buffer must hold `num_buckets` buckets of [`BUCKET_SIZE`] bytes,
    /// and `num_buckets` must be more than zero. Nothing is checked at run
    /// time: this is the entry point for callers that have established both.
    #[inline(always)]
    pub fn insert(&self, buf: &mut [u8], num_buckets: usize, hash: u64) -> (found: bool)
        requires
            model::fits(old(buf)@, num_buckets),
        ensures
            found == model::contains_hash(old(buf)@, num_buckets, hash),
            final(buf)@ == model::with_hash(old(buf)@, num_buckets, hash),
    {
        match self.inner {
            Backend::Avx2 => Avx2Filter.insert(buf, num_buckets, hash),
            Backend::Sse => SseFilter.insert(buf, num_buckets, hash),
            Backend::Neon => NeonFilter.insert(buf, num_buckets, hash),
            Backend::Wasm => WasmFilter.insert(buf, num_buckets, hash),
            Backend::Fallback => FallbackFilter.insert(buf, num_buckets, hash),
        }
    }

    /// Returns a string that says which backend the handle runs.
    pub fn which(&self) -> (name: &'static str)
        ensures
            name@ == self.backend().name(),
    {
        match self.inner {
            Backend::Avx2 => Avx2Filter.which(),
            Backend::Sse => SseFilter.which(),
            Backend::Neon => NeonFilter.which(),
            Backend::Wasm => WasmFilter.which(),
            Backend::Fallback => FallbackFilter.which(),
        }
    }

    /// [`FilterFn::checked_contains`] for a buffer whose first byte is known
    /// to lie at address `addr`.
    pub fn checked_contains_at(&self, addr: usize, buf: &[u8], hash: u64) -> (r: Result<
        bool,
        FilterError,
    >)
        ensures
            r == checked_lookup(addr, buf@, hash),
    {
        assert(buf.len() == buf@.len());
        match validate(addr, buf.len()) {
            Ok(num_buckets) => Ok(self.contains(buf, num_buckets, hash)),
            Err(error) => Err(error),
        }
    }

    /// [`FilterFn::checked_insert`] for a buffer whose first byte is known to
    /// lie at address `addr`.
    pub fn checked_insert_at(&self, addr: usize, buf: &mut [u8], hash: u64) -> (r: Result<
        bool,
        FilterError,
    >)
        ensures
            r == checked_lookup(addr, old(buf)@, hash),
            final(buf)@ == checked_update(addr, old(buf)@, hash),
    {
        assert(buf.len() == buf@.len());
        match validate(addr, buf.len()) {
            Ok(num_buckets) => Ok(self.insert(buf, num_buckets, hash)),
            Err(error) => Err(error),
        }
    }

    /// Says whether the filter bits in `buf` contain `hash`, after checking
    /// the buffer: it must not be empty, its length must be a multiple of
    /// [`BUCKET_SIZE`], and it must start at a multiple of [`ALIGNMENT`].
    /// The number of buckets is the length divided by [`BUCKET_SIZE`].
    ///
    /// The result is what [`checked_lookup`] gives for the address at which
    /// `buf` lies.
    pub fn checked_contains(&self, buf: &[u8], hash: u64) -> (r: Result<bool, FilterError>)
        ensures
            exists|addr: usize| r == checked_lookup(addr, buf@, hash),
            buf@.len() == 0 ==> r == Err::<bool, FilterError>(FilterError::EmptyBuffer),
            buf@.len() % 32 != 0 ==> r == Err::<bool, FilterError>(FilterError::PartialBucket),
            r matches Ok(found) ==> found == model::contains_hash(
                buf@,
                (buf@.len() / 32) as usize,
                hash,
            ),
    {
        let addr = base_address(buf);
        let r = self.checked_contains_at(addr, buf, hash);
        assert(r == checked_lookup(addr, buf@, hash));
        r
    }

    /// Puts `hash` into the filter bits in `buf`, after checking the buffer
    /// as [`FilterFn::checked_contains`] does, and says whether the hash was
    /// already there. A buffer that is refused is left untouched.
    ///
    /// The result and the buffer are what [`checked_lookup`] and
    /// [`checked_update`] give for the address at which `buf` lies.
    pub fn checked_insert(&self, buf: &mut [u8], hash: u64) -> (r: Result<bool, FilterError>)
        ensures
            exists|addr: usize|
                r == checked_lookup(addr, old(buf)@, hash) && final(buf)@ == checked_update(
                    addr,
                    old(buf)@,
                    hash,
                ),
            old(buf)@.len() == 0 ==> r == Err::<bool, FilterError>(FilterError::EmptyBuffer),
            old(buf)@.len() % 32 != 0 ==> r == Err::<bool, FilterError>(
                FilterError::PartialBucket,
            ),
            r is Err ==> final(buf)@ == old(buf)@,
            r matches Ok(found) ==> found == model::contains_hash(
                old(buf)@,
                (old(buf)@.len() / 32) as usize,
                hash,
            ) && final(buf)@ == model::with_hash(
                old(buf)@,
                (old(buf)@.len() / 32) as usize,
                hash,
            ),
    {
        let addr = base_address(buf);
        let r = self.checked_insert_at(addr, buf, hash);
        assert(r == checked_lookup(addr, old(buf)@, hash) && buf@ == checked_update(
            addr,
            old(buf)@,
            hash,
        ));
        r
    }
}

impl Default for FilterFn {
    /// A handle on the portable backend, which every processor can run.
    fn default() -> (filter: Self)
        ensures
            filter.backend() == Backend::Fallback,
    {
        Self { inner: Backend::Fallback }
    }
}

} // verus!
