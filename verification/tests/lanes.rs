use sbbf_rs::arch::aarch64::NeonFilter;
use sbbf_rs::arch::lanes::Lanes;
use sbbf_rs::arch::wasm::WasmFilter;
use sbbf_rs::arch::x86::{Avx2Filter, SseFilter};

const MASK_OF_69: [u32; 8] =
    [0x400, 0x8000, 0x40_0000, 0x800_0000, 0x100, 0x1000, 0x800_0000, 0x2000_0000];

#[test]
fn make_mask_exact_values() {
    assert_eq!(Avx2Filter::make_mask(69).0, MASK_OF_69);
    for (low, high) in
        [SseFilter::make_mask(69), NeonFilter::make_mask(69), WasmFilter::make_mask(69)]
    {
        assert_eq!(low.0, MASK_OF_69[..4]);
        assert_eq!(high.0, MASK_OF_69[4..]);
    }
}

#[test]
fn power_of_two_lanes() {
    let lanes = Lanes([0, 1, 31, 32]);
    assert_eq!(SseFilter::power_of_two(lanes).0, [1, 2, 0x8000_0000, 0]);
    assert_eq!(WasmFilter::power_of_two(lanes).0, [1, 2, 0x8000_0000, 0]);
}

#[test]
fn neon_helpers() {
    assert!(NeonFilter::is_eq(Lanes([1, 2, 3, 4]), Lanes([1, 2, 3, 4])));
    assert!(!NeonFilter::is_eq(Lanes([1, 2, 3, 4]), Lanes([1, 2, 3, 5])));
    assert!(!NeonFilter::is_eq(Lanes([0, 2, 3, 4]), Lanes([1, 2, 3, 4])));
    assert!(NeonFilter::check(Lanes([1, 2, 4, 8]), Lanes([3, 2, 0xFF, 8])));
    assert!(!NeonFilter::check(Lanes([1, 2, 4, 8]), Lanes([3, 2, 0xFB, 8])));
    assert!(NeonFilter::check(Lanes([0; 4]), Lanes([0; 4])));
}

#[test]
fn wasm_helpers() {
    assert_eq!(WasmFilter::load_v(&[10, 20, 30, 40, 50, 60], 1).0, [20, 30, 40, 50]);
    assert!(WasmFilter::check(Lanes([1, 2, 4, 8]), Lanes([3, 2, 0xFF, 8])));
    assert!(!WasmFilter::check(Lanes([1, 2, 4, 8]), Lanes([3, 2, 0xFB, 8])));
    assert!(!WasmFilter::check(Lanes([1, 2, 4, 8]), Lanes([0, 2, 4, 8])));
    assert!(WasmFilter::check(Lanes([0; 4]), Lanes([0; 4])));
}

#[test]
fn lane_arithmetic() {
    let a = Lanes([1u32, 0xFFFF_FFFF, 0x8000_0000, 69]);
    let b = Lanes([2u32, 2, 2, 0x47b6137b]);
    assert_eq!(a.wrapping_mul(b).0, [2, 0xFFFF_FFFE, 0, 69u32.wrapping_mul(0x47b6137b)]);
    assert_eq!(a.shr(27).0, [0, 31, 16, 0]);
    assert_eq!(a.shr(0).0, a.0);
    assert_eq!(a.shr(31).0, [0, 1, 1, 0]);
    assert_eq!(a.shr(32).0, [0; 4]);
    assert_eq!(Lanes::<4>::splat(7).0, [7; 4]);
    assert_eq!(Lanes::<8>::splat(1).0, [1; 8]);
    assert_eq!(
        Lanes([1u32, 1, 3, 1]).shl_each(Lanes([0, 31, 31, 40])).0,
        [1, 0x8000_0000, 0x8000_0000, 0]
    );
}

#[test]
fn lane_logic() {
    let a = Lanes([0b1100u32, 0, 0xFFFF_FFFF, 5]);
    let b = Lanes([0b1010u32, 7, 0x0F0F_0F0F, 5]);
    assert_eq!(a.bitor(b).0, [0b1110, 7, 0xFFFF_FFFF, 5]);
    assert_eq!(a.bitand(b).0, [0b1000, 0, 0x0F0F_0F0F, 5]);
    assert_eq!(a.and_not(b).0, [0b0100, 0, 0xF0F0_F0F0, 0]);
    assert_eq!(a.eq_mask(b).0, [0, 0, 0, 0xFFFF_FFFF]);
    assert_eq!(a.min_lane(), 0);
    assert_eq!(Lanes([9u32, 4, 7, 4]).min_lane(), 4);
    assert_eq!(Lanes([9u32]).min_lane(), 9);
    assert!(a.any_set());
    assert!(!Lanes([0u32; 4]).any_set());
    assert!(Lanes([0u32, 0, 0, 1]).any_set());
}

#[test]
fn lane_subset_test() {
    assert!(Lanes([3u32, 2, 0xFF, 8]).test_covers(Lanes([1, 2, 4, 8])));
    assert!(!Lanes([3u32, 2, 0xFB, 8]).test_covers(Lanes([1, 2, 4, 8])));
    assert!(!Lanes([3u32, 2, 0xFF, 0]).test_covers(Lanes([1, 2, 4, 8])));
    assert!(Lanes([0u32; 8]).test_covers(Lanes([0u32; 8])));
}

#[test]
fn lanes_in_memory() {
    let bytes: Vec<u8> = (0..40).collect();
    let four = Lanes::<4>::load(&bytes, 2);
    assert_eq!(four.0, [0x0504_0302, 0x0908_0706, 0x0D0C_0B0A, 0x1110_0F0E]);
    let eight = Lanes::<8>::load(&bytes, 8);
    assert_eq!(eight.0[0], 0x0B0A_0908);
    assert_eq!(eight.0[7], 0x2726_2524);

    let mut out = vec![0xEEu8; 20];
    Lanes([0x0403_0201u32, 0x0807_0605, 0, 0xFFFF_FFFF]).store(&mut out, 3);
    assert_eq!(
        out,
        [0xEE, 0xEE, 0xEE, 1, 2, 3, 4, 5, 6, 7, 8, 0, 0, 0, 0, 255, 255, 255, 255, 0xEE]
    );
    assert_eq!(Lanes::<2>::from_words(&[1, 2, 3, 4], 1).0, [2, 3]);
}
