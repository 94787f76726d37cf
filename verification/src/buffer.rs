//! What a filter buffer must be before the checked entry points touch it.
use crate::{ALIGNMENT, BUCKET_SIZE};
use vstd::prelude::*;

verus! {

/// Why a buffer was refused.
#[derive(Debug, Clone, Copy, PartialEq, Eq, Structural)]
pub enum FilterError {
    /// The buffer has no bytes, so it holds no bucket.
    EmptyBuffer,
    /// The length of the buffer is not a multiple of the bucket size.
    PartialBucket,
    /// The buffer does not start at a multiple of the alignment.
    Misaligned,
}

impl FilterError {
    /// The sentence that describes the error.
    pub open spec fn text(self) -> Seq<char> {
        match self {
            FilterError::EmptyBuffer => "filter buffer is empty"@,
            FilterError::PartialBucket => "filter buffer length is not a multiple of 32 bytes"@,
            FilterError::Misaligned => "filter buffer is not aligned to 64 bytes"@,
        }
    }

    /// A sentence that describes the error.
    pub fn describe(&self) -> (message: &'static str)
        ensures
            message@ == self.text(),
    {
        match self {
            FilterError::EmptyBuffer => "filter buffer is empty",
            FilterError::PartialBucket => "filter buffer length is not a multiple of 32 bytes",
            FilterError::Misaligned => "filter buffer is not aligned to 64 bytes",
        }
    }
}

/// The number of buckets of a buffer of `len` bytes that starts at address
/// `addr`, or the reason why it is no filter buffer. The length is looked at
/// first, so that an empty buffer is refused as empty wherever it lies.
pub open spec fn validation(addr: usize, len: nat) -> Result<usize, FilterError> {
    if len == 0 {
        Err(FilterError::EmptyBuffer)
    } else if len % 32 != 0 {
        Err(FilterError::PartialBucket)
    } else if addr % 64 != 0 {
        Err(FilterError::Misaligned)
    } else {
        Ok((len / 32) as usize)
    }
}

/// Checks the length and the base address of a buffer, and gives its number
/// of buckets.
pub fn validate(addr: usize, len: usize) -> (r: Result<usize, FilterError>)
    ensures
        r == validation(addr, len as nat),
        r is Ok <==> len > 0 && len % 32 == 0 && addr % 64 == 0,
        r matches Ok(num_buckets) ==> num_buckets > 0 && num_buckets * 32 == len,
{
    if len == 0 {
        Err(FilterError::EmptyBuffer)
    } else if len % BUCKET_SIZE != 0 {
        Err(FilterError::PartialBucket)
    } else if addr % ALIGNMENT != 0 {
        Err(FilterError::Misaligned)
    } else {
        Ok(len / BUCKET_SIZE)
    }
}

/// Calls `<[u8]>::as_ptr` and gives the pointer as a number: the address
/// of the first byte of `buf`. Nothing is claimed of the number, which
/// differs from run to run; what is done with it is said by [`validate`].
#[verifier::external_body]
pub(crate) fn base_address(buf: &[u8]) -> (addr: usize) {
    buf.as_ptr() as usize
}

} // verus!
