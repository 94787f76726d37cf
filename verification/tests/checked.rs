use sbbf_rs::arch::{load, Backend, CpuFeatures};
use sbbf_rs::buffer::{validate, FilterError};
use sbbf_rs::{FilterFn, ALIGNMENT, BUCKET_SIZE};

const NONE: CpuFeatures = CpuFeatures { avx2: false, sse41: false, neon: false, simd128: false };

#[test]
fn constants() {
    assert_eq!(ALIGNMENT, 64);
    assert_eq!(BUCKET_SIZE, 32);
}

#[test]
fn validate_each_outcome() {
    assert_eq!(validate(0, 0), Err(FilterError::EmptyBuffer));
    assert_eq!(validate(1, 0), Err(FilterError::EmptyBuffer));
    assert_eq!(validate(0, 1), Err(FilterError::PartialBucket));
    assert_eq!(validate(64, 33), Err(FilterError::PartialBucket));
    assert_eq!(validate(1, 31), Err(FilterError::PartialBucket));
    assert_eq!(validate(1, 64), Err(FilterError::Misaligned));
    assert_eq!(validate(32, 64), Err(FilterError::Misaligned));
    assert_eq!(validate(63, 32), Err(FilterError::Misaligned));
    assert_eq!(validate(0, 32), Ok(1));
    assert_eq!(validate(64, 64), Ok(2));
    assert_eq!(validate(4096, 32_000), Ok(1000));
}

#[test]
fn error_descriptions() {
    assert_eq!(FilterError::EmptyBuffer.describe(), "filter buffer is empty");
    assert_eq!(
        FilterError::PartialBucket.describe(),
        "filter buffer length is not a multiple of 32 bytes"
    );
    assert_eq!(FilterError::Misaligned.describe(), "filter buffer is not aligned to 64 bytes");
}

#[test]
fn checked_at_a_given_address() {
    let filter = FilterFn::new(NONE);
    let mut buf = vec![0u8; 64];
    assert_eq!(filter.checked_contains_at(128, &buf, 69), Ok(false));
    assert_eq!(filter.checked_insert_at(128, &mut buf, 69), Ok(false));
    assert_eq!(filter.checked_contains_at(128, &buf, 69), Ok(true));
    assert_eq!(filter.checked_contains_at(128, &buf, 12), Ok(false));
    assert_eq!(filter.checked_insert_at(128, &mut buf, 69), Ok(true));
    assert!(filter.contains(&buf, 2, 69));
}

#[test]
fn checked_refuses_and_leaves_the_buffer_alone() {
    let filter = FilterFn::new(NONE);

    let mut misaligned = vec![0u8; 64];
    assert_eq!(filter.checked_insert_at(65, &mut misaligned, 69), Err(FilterError::Misaligned));
    assert_eq!(filter.checked_contains_at(32, &misaligned, 69), Err(FilterError::Misaligned));
    assert_eq!(misaligned, vec![0u8; 64]);

    let mut partial = vec![0u8; 65];
    assert_eq!(filter.checked_insert_at(64, &mut partial, 69), Err(FilterError::PartialBucket));
    assert_eq!(filter.checked_insert(&mut partial, 69), Err(FilterError::PartialBucket));
    assert_eq!(filter.checked_contains(&partial, 69), Err(FilterError::PartialBucket));
    assert_eq!(partial, vec![0u8; 65]);

    let mut empty: Vec<u8> = Vec::new();
    assert_eq!(filter.checked_insert_at(64, &mut empty, 69), Err(FilterError::EmptyBuffer));
    assert_eq!(filter.checked_insert(&mut empty, 69), Err(FilterError::EmptyBuffer));
    assert_eq!(filter.checked_contains(&empty, 69), Err(FilterError::EmptyBuffer));
}

#[test]
fn checked_accepts_exactly_the_aligned_start() {
    let filter = FilterFn::default();
    let mut space = vec![0u8; 64 + 64];
    let mut accepted = Vec::new();
    for offset in 0..64 {
        match filter.checked_insert(&mut space[offset..offset + 64], 69) {
            Ok(found) => {
                assert!(!found);
                accepted.push(offset);
            }
            Err(error) => assert_eq!(error, FilterError::Misaligned),
        }
    }
    assert_eq!(accepted.len(), 1);
    let offset = accepted[0];
    let buf = &mut space[offset..offset + 64];
    assert_eq!(filter.checked_contains(buf, 69), Ok(true));
    assert_eq!(filter.checked_contains(buf, 12), Ok(false));
    assert_eq!(filter.checked_insert(buf, 69), Ok(true));
    // No other start offset was written to.
    let written: Vec<usize> = (0..128).filter(|&j| space[j] != 0).collect();
    assert!(written.iter().all(|&j| offset <= j && j < offset + 32));
    assert_eq!(written.len(), 8);
}

#[test]
fn load_prefers_the_widest_vectors() {
    let features = |avx2, sse41, neon, simd128| CpuFeatures { avx2, sse41, neon, simd128 };
    assert_eq!(load(features(true, true, false, false)), Backend::Avx2);
    assert_eq!(load(features(true, false, false, false)), Backend::Avx2);
    assert_eq!(load(features(false, true, false, false)), Backend::Sse);
    assert_eq!(load(features(false, false, true, false)), Backend::Neon);
    assert_eq!(load(features(false, false, false, true)), Backend::Wasm);
    assert_eq!(load(features(false, false, false, false)), Backend::Fallback);
    assert_eq!(load(features(true, true, true, true)), Backend::Avx2);
    assert_eq!(load(features(false, true, true, true)), Backend::Sse);
    assert_eq!(load(features(false, false, true, true)), Backend::Neon);
}

#[test]
fn which_names_the_backend() {
    let features = |avx2, sse41, neon, simd128| CpuFeatures { avx2, sse41, neon, simd128 };
    assert_eq!(FilterFn::new(features(true, true, false, false)).which(), "Avx2Filter");
    assert_eq!(FilterFn::new(features(false, true, false, false)).which(), "SseFilter");
    assert_eq!(FilterFn::new(features(false, false, true, false)).which(), "NeonFilter");
    assert_eq!(FilterFn::new(features(false, false, false, true)).which(), "WasmFilter");
    assert_eq!(FilterFn::new(NONE).which(), "FallbackFilter");
    assert_eq!(FilterFn::default().which(), "FallbackFilter");
}
