use hash_roll::gear::msb_mask;
use hash_roll::range::{bound_cloned, Bound, RangeExt};
use hash_roll::zpaq::Zpaq;
use hash_roll::zstd::Zstd;
use hash_roll::{Chunk, ToChunkIncr};

#[test]
fn mm() {
    assert_eq!(0b1 << 31, msb_mask(1));
    assert_eq!(0b11 << 30, msb_mask(2));
    assert_eq!(0b111 << 29, msb_mask(3));
}

#[test]
fn msb_mask_wide() {
    assert_eq!(msb_mask(13), 0xfff8_0000);
    assert_eq!(msb_mask(31), 0xffff_fffe);
}

#[test]
fn test_zstd_init_matches_upstream() {
    let zstd = Zstd::default();
    assert_eq!(zstd.hit_mask(), 0x7f_ffff);
    assert_eq!(zstd.prime_power(), 0xf5507fe35f91f8cb);
}

#[test]
fn zstd_mask_follows_section_size() {
    assert_eq!(Zstd::with_target_section_size(1 << 20).hit_mask(), (1 << 20) - 1);
    assert_eq!(Zstd::with_target_section_size(3 << 20).hit_mask(), (1 << 21) - 1);
    assert_eq!(Zstd::with_target_section_size(16 << 20).hit_mask(), (1 << 24) - 1);
    assert_eq!(
        Zstd::with_target_section_size(16 << 20).prime_power(),
        Zstd::default().prime_power()
    );
}

#[test]
fn range_bounds() {
    let r = (Bound::Included(10u64), Bound::Excluded(20u64));
    assert!(r.under_min(&9));
    assert!(!r.under_min(&10));
    assert!(!r.exceeds_max(&19));
    assert!(r.exceeds_max(&20));
    assert!(r.contains(&10));
    assert!(r.contains(&19));
    assert!(!r.contains(&20));
    assert!(!r.contains(&9));

    let r = (Bound::Excluded(10u64), Bound::Included(20u64));
    assert!(r.under_min(&10));
    assert!(!r.under_min(&11));
    assert!(!r.exceeds_max(&20));
    assert!(r.exceeds_max(&21));

    let r: (Bound<u64>, Bound<u64>) = (Bound::Unbounded, Bound::Unbounded);
    assert!(r.contains(&0));
    assert!(r.contains(&u64::MAX));
    assert_eq!(r.into_tuple(), (Bound::Unbounded, Bound::Unbounded));
}

#[test]
fn bound_copies() {
    assert_eq!(bound_cloned(Bound::Included(&1)), Bound::Included(1));
    assert_eq!(bound_cloned(Bound::Excluded(&7u8)), Bound::Excluded(7u8));
    assert_eq!(bound_cloned::<u32>(Bound::Unbounded), Bound::Unbounded);
    assert_eq!(bound_cloned(Bound::Included(5u64).as_ref()), Bound::Included(5u64));
}

/// The length of the first chunk of `data` for `z`, from a fresh search.
fn first_len(z: &Zpaq, data: &[u8]) -> Option<usize> {
    let mut st = z.to_search_state();
    z.find_chunk_edge(&mut st, data).0
}

#[test]
fn zpaq_maximum_forces_a_cut() {
    // go's dedup parameters for a maximum of 64 KiB: sizes in [1024, 65536)
    let z = Zpaq::with_max_size(64 * 1024);
    let data = vec![7u8; 200_000];
    // a constant stream keeps the hash away from small values, so only the maximum cuts
    let first = first_len(&z, &data).unwrap();
    assert!(first <= 65536);
    assert_eq!(first_len(&z, &data[..10]), None);
}

#[test]
fn zpaq_range_constructors_agree() {
    // zpaq's fragment 3 is the range [512, 65024) with max_hash 1 << 19
    let a = Zpaq::with_average_size_pow_2(3);
    let b = Zpaq::with_average_and_range(3, (Bound::Included(512), Bound::Excluded(65024)));
    assert_eq!(a, b);
    let c = Zpaq::with_range((Bound::Included(512), Bound::Excluded(65024)));
    // 65023 / 4096 = 15, log2 rounded down is 3
    assert_eq!(a, c);
    assert_eq!(Zpaq::default(), Zpaq::with_average_size_pow_2(6));
}

#[test]
fn zpaq_incremental_matches_search() {
    let z = Zpaq::with_average_size_pow_2(0);
    let mut data = Vec::new();
    let mut x: u32 = 99;
    for _ in 0..50_000 {
        x = x.wrapping_mul(1664525).wrapping_add(1013904223);
        data.push((x >> 24) as u8);
    }
    let mut incr = z.to_chunk_incr();
    let mut rest = &data[..];
    let mut a = Vec::new();
    while let Some(k) = hash_roll::ChunkIncr::push(&mut incr, rest) {
        a.push(k);
        rest = &rest[k..];
    }
    let mut rest = &data[..];
    let mut b = Vec::new();
    while let Some(k) = first_len(&z, rest) {
        b.push(k);
        rest = &rest[k..];
    }
    assert!(!a.is_empty());
    assert_eq!(a, b);
}
