use sbbf_rs::arch::aarch64::NeonFilter;
use sbbf_rs::arch::fallback::FallbackFilter;
use sbbf_rs::arch::wasm::WasmFilter;
use sbbf_rs::arch::x86::{Avx2Filter, SseFilter};
use sbbf_rs::FilterImpl;

/// A fixed stream of 64-bit values (SplitMix64).
struct Stream(u64);

impl Stream {
    fn next(&mut self) -> u64 {
        self.0 = self.0.wrapping_add(0x9E37_79B9_7F4A_7C15);
        let mut z = self.0;
        z = (z ^ (z >> 30)).wrapping_mul(0xBF58_476D_1CE4_E5B9);
        z = (z ^ (z >> 27)).wrapping_mul(0x94D0_49BB_1331_11EB);
        z ^ (z >> 31)
    }
}

fn replay<F: FilterImpl>(filter: &F, num_buckets: usize, seed: u64) -> (Vec<bool>, Vec<u8>) {
    let mut stream = Stream(seed);
    let mut buf = vec![0u8; num_buckets * 32];
    let mut results = Vec::new();
    for step in 0..4000 {
        let hash = stream.next();
        if step % 3 == 2 {
            results.push(filter.contains(&buf, num_buckets, hash));
        } else {
            results.push(filter.insert(&mut buf, num_buckets, hash));
            results.push(filter.contains(&buf, num_buckets, hash));
        }
    }
    (results, buf)
}

#[test]
fn every_backend_replays_like_the_fallback() {
    for (num_buckets, seed) in [(1usize, 1u64), (2, 2), (7, 3), (64, 4), (1000, 5)] {
        let expected = replay(&FallbackFilter, num_buckets, seed);
        assert_eq!(replay(&Avx2Filter, num_buckets, seed), expected);
        assert_eq!(replay(&SseFilter, num_buckets, seed), expected);
        assert_eq!(replay(&NeonFilter, num_buckets, seed), expected);
        assert_eq!(replay(&WasmFilter, num_buckets, seed), expected);
    }
}

#[test]
fn inserted_hashes_are_found_ever_after() {
    let num_buckets = 16;
    let mut stream = Stream(99);
    let hashes: Vec<u64> = (0..500).map(|_| stream.next()).collect();
    let mut buf = vec![0u8; num_buckets * 32];
    for (k, hash) in hashes.iter().enumerate() {
        Avx2Filter.insert(&mut buf, num_buckets, *hash);
        for earlier in &hashes[..=k] {
            assert!(FallbackFilter.contains(&buf, num_buckets, *earlier));
        }
    }
}

#[test]
fn second_insert_changes_nothing_and_returns_true() {
    let num_buckets = 5;
    let mut stream = Stream(7);
    let mut buf = vec![0u8; num_buckets * 32];
    for _ in 0..200 {
        let hash = stream.next();
        NeonFilter.insert(&mut buf, num_buckets, hash);
        let once = buf.clone();
        assert!(WasmFilter.insert(&mut buf, num_buckets, hash));
        assert_eq!(buf, once);
    }
}

/// Puts 20000 hashes of the stream into a filter of `bits_per_key` bits for
/// each, then counts how many of the next 200000 are found.
fn false_positives<F: FilterImpl>(filter: &F, bits_per_key: usize) -> usize {
    let num_keys = 20_000;
    let num_buckets = bits_per_key / 8 * num_keys / 32;
    let mut stream = Stream(2024);
    let mut buf = vec![0u8; num_buckets * 32];
    for _ in 0..num_keys {
        filter.insert(&mut buf, num_buckets, stream.next());
    }
    (0..200_000).filter(|_| filter.contains(&buf, num_buckets, stream.next())).count()
}

#[test]
fn false_positives_follow_the_tuning_curve() {
    // About 3 % at 8 bits for a key, 0.1 % at 16 and 0.01 % at 24.
    assert_eq!(false_positives(&FallbackFilter, 8), 6679);
    assert_eq!(false_positives(&Avx2Filter, 16), 260);
    assert_eq!(false_positives(&SseFilter, 24), 23);
    assert_eq!(false_positives(&NeonFilter, 16), 260);
    assert_eq!(false_positives(&WasmFilter, 24), 23);
}
