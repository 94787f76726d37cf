//! The portable backend: plain integer arithmetic, one word at a time.
use crate::FilterImpl;
use vstd::prelude::*;

pub mod parquet_impl;

verus! {

/// The backend that runs everywhere, and the one the others are measured
/// against.
pub struct FallbackFilter;

impl FilterImpl for FallbackFilter {
    fn contains(&self, buf: &[u8], num_buckets: usize, hash: u64) -> (found: bool) {
        parquet_impl::check_hash(buf, num_buckets, hash)
    }

    fn insert(&self, buf: &mut [u8], num_buckets: usize, hash: u64) -> (found: bool) {
        parquet_impl::insert_hash(buf, num_buckets, hash)
    }

    open spec fn name(&self) -> Seq<char> {
        "FallbackFilter"@
    }

    fn which(&self) -> (name: &'static str) {
        "FallbackFilter"
    }
}

} // verus!
