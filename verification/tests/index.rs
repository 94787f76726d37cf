use sbbf_rs::arch::fallback::parquet_impl::{hash_to_block_index, low_half};
use sbbf_rs::arch::select_bucket;

#[test]
fn bucket_index_exact_values() {
    for index_of in [hash_to_block_index, select_bucket] {
        assert_eq!(index_of(2, 69), 0);
        assert_eq!(index_of(2, 12), 0);
        assert_eq!(index_of(1, u64::MAX), 0);
        assert_eq!(index_of(2, 0x7FFF_FFFF_FFFF_FFFF), 0);
        assert_eq!(index_of(2, 0x8000_0000_0000_0000), 1);
        assert_eq!(index_of(4, 0xC000_0000_0000_0000), 3);
        assert_eq!(index_of(10, u64::MAX), 9);
        assert_eq!(index_of(3, 0x5555_5555_0000_0000), 0);
        assert_eq!(index_of(3, 0x5555_5556_0000_0000), 1);
        assert_eq!(index_of(1000, 0x0041_8937_FFFF_FFFF), 0);
        assert_eq!(index_of(1000, 0x0041_8938_0000_0000), 1);
        assert_eq!(index_of(u32::MAX as usize, u64::MAX), 0xFFFF_FFFE);
    }
}

#[test]
fn bucket_index_ignores_the_low_half() {
    for low in [0u64, 1, 69, 0xFFFF_FFFF] {
        assert_eq!(select_bucket(7, 0x9000_0000_0000_0000 | low), 3);
        assert_eq!(hash_to_block_index(7, 0x9000_0000_0000_0000 | low), 3);
    }
}

#[test]
fn bucket_index_of_zero_buckets_is_zero() {
    assert_eq!(hash_to_block_index(0, u64::MAX), 0);
    assert_eq!(select_bucket(0, u64::MAX), 0);
}

#[test]
fn bucket_index_stops_at_the_largest_32_bit_value() {
    if usize::BITS == 64 {
        let many = 1usize << 33;
        assert_eq!(hash_to_block_index(many, u64::MAX), 0xFFFF_FFFF);
        assert_eq!(select_bucket(many, u64::MAX), 0xFFFF_FFFF);
        assert_eq!(hash_to_block_index(many, 0x4000_0000_0000_0000), 0x8000_0000);
        assert_eq!(select_bucket(many, 0x4000_0000_0000_0000), 0x8000_0000);
        let just_over = (1usize << 32) + 1;
        assert_eq!(hash_to_block_index(just_over, u64::MAX), 0xFFFF_FFFF);
        assert_eq!(select_bucket(just_over, u64::MAX), 0xFFFF_FFFF);
        assert_eq!(select_bucket(just_over, 0x0000_0001_0000_0000), 1);
    }
}

#[test]
fn bucket_index_is_monotonic_and_spreads_evenly() {
    let num_buckets = 7;
    let mut counts = [0usize; 7];
    let mut last = 0;
    for k in 0..4096u64 {
        let hash = (k << 52) | 0x1234;
        let index = select_bucket(num_buckets, hash);
        assert_eq!(index, hash_to_block_index(num_buckets, hash));
        assert!(index < num_buckets);
        assert!(index >= last);
        last = index;
        counts[index] += 1;
    }
    for count in counts {
        assert!(count == 585 || count == 586, "{}", count);
    }
}

#[test]
fn low_half_is_the_low_32_bits() {
    assert_eq!(low_half(69), 69);
    assert_eq!(low_half(0xDEAD_BEEF_0000_0045), 0x45);
    assert_eq!(low_half(u64::MAX), u32::MAX);
    assert_eq!(low_half(0x1_0000_0000), 0);
}
