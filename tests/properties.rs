use hash_roll::buzhash::{BuzHash, BuzHashIncr, BuzHashTableBufHash, BuzHashTableByteSaltHash, BuzHashTableHash};
use hash_roll::fastcdc::FastCdc;
use hash_roll::gear::Gear32;
use hash_roll::{Chunk, ChunkIncr, IterSlices, IterSlicesStrict, ToChunkIncr};
use rand::RngCore;
use rand_pcg::Pcg64;

fn test_data(seed: u128, size: usize) -> Vec<u8> {
    let mut fill_rng = Pcg64::new(seed, 0xa02bdbf7bb3c0a7ac28fa16a64abf96);
    let mut buf = vec![0u8; size];
    fill_rng.fill_bytes(&mut buf);
    buf
}

fn table32(seed: u128) -> [u32; 256] {
    let mut rng = Pcg64::new(seed, 7);
    let mut t = [0u32; 256];
    for v in t.iter_mut() {
        *v = rng.next_u32();
    }
    t
}

fn table64(seed: u128) -> [u64; 256] {
    let mut rng = Pcg64::new(seed, 9);
    let mut t = [0u64; 256];
    for v in t.iter_mut() {
        *v = rng.next_u64();
    }
    t
}

/// Chunk lengths from the resumable search, handed buffers that grow by the sizes in
/// `buf_sizes` (cycled) and dropping what it allows after each call.
fn splits_fce<C: Chunk>(chunker: &C, buf: &[u8], buf_sizes: &[usize]) -> Vec<usize> {
    let mut splits = Vec::new();
    let mut i = 0;
    let mut ss = chunker.to_search_state();
    let mut last_split_point = 0;
    let mut curr_discard = 0;
    let mut prev_buf_size = 0;
    loop {
        if buf.len() == curr_discard {
            break;
        }
        let buf_size = buf_sizes[i % buf_sizes.len()] + prev_buf_size;
        i += 1;
        let buf_size = std::cmp::min(buf_size, buf.len() - curr_discard);
        let b = &buf[curr_discard..(buf_size + curr_discard)];
        let (split, discard_ct) = chunker.find_chunk_edge(&mut ss, b);
        match split {
            Some(split_point) => {
                let split_point_global = curr_discard + split_point;
                splits.push(split_point_global - last_split_point);
                last_split_point = split_point_global;
                prev_buf_size = 0;
            }
            None => {
                if buf_size == buf.len() - curr_discard {
                    break;
                }
                prev_buf_size = buf_size - discard_ct;
            }
        }
        curr_discard += discard_ct;
    }
    splits
}

/// Chunk lengths from an incremental chunker fed in pieces of the sizes in `sizes` (cycled).
fn splits_incr<I: ChunkIncr>(mut incr: I, buf: &[u8], sizes: &[usize]) -> Vec<usize> {
    let mut splits = Vec::new();
    let mut pos = 0;
    let mut last = 0;
    let mut i = 0;
    while pos < buf.len() {
        let n = std::cmp::min(sizes[i % sizes.len()], buf.len() - pos);
        i += 1;
        let mut piece = &buf[pos..pos + n];
        let mut piece_start = pos;
        while let Some(k) = incr.push(piece) {
            let cut = piece_start + k;
            splits.push(cut - last);
            last = cut;
            piece = &piece[k..];
            piece_start = cut;
        }
        pos += n;
    }
    splits
}

/// Complete chunk lengths through the strict slice adapter.
fn splits_strict<I: ChunkIncr>(incr: I, buf: &[u8]) -> Vec<usize> {
    let mut it = IterSlicesStrict::new(incr, buf);
    let mut out = Vec::new();
    while let Some(s) = it.next() {
        out.push(s.len());
    }
    out
}

fn check_partitions<C: Chunk + ToChunkIncr>(chunker: &C, buf: &[u8]) -> Vec<usize> {
    let whole = splits_fce(chunker, buf, &[buf.len().max(1)]);
    for sizes in [&[1usize][..], &[3, 7, 1], &[100, 5], &[4096], &[13, 999, 2]] {
        assert_eq!(splits_fce(chunker, buf, sizes), whole, "resumable, sizes {:?}", sizes);
        assert_eq!(splits_incr(chunker.to_chunk_incr(), buf, sizes), whole, "incremental, sizes {:?}", sizes);
    }
    assert_eq!(splits_strict(chunker.to_chunk_incr(), buf), whole);
    // the same configuration on the same bytes gives the same boundaries again
    assert_eq!(splits_fce(chunker, buf, &[buf.len().max(1)]), whole);
    whole
}

#[test]
fn partitions_agree_bup() {
    let buf = test_data(5, 40_000);
    let w = check_partitions(&hash_roll::bup::RollSum::default(), &buf);
    assert!(!w.is_empty());
    let w = check_partitions(&hash_roll::bup::RollSum::with_window(31), &buf);
    assert_eq!(w.iter().sum::<usize>() <= buf.len(), true);
}

#[test]
fn partitions_agree_gzip() {
    let buf = test_data(6, 40_000);
    let w = check_partitions(&hash_roll::gzip::GzipRsyncable::default(), &buf);
    assert!(!w.is_empty());
    let w = check_partitions(&hash_roll::gzip::GzipRsyncable::with_window_and_modulus(7, 64), &buf);
    assert!(!w.is_empty());
}

#[test]
fn partitions_agree_pigz() {
    let buf = test_data(7, 40_000);
    let w = check_partitions(&hash_roll::pigz::PigzRsyncable::with_bits(8), &buf);
    assert!(!w.is_empty());
}

#[test]
fn partitions_agree_mii() {
    let buf = test_data(8, 20_000);
    let w = check_partitions(&hash_roll::mii::Mii::default(), &buf);
    assert!(!w.is_empty());
}

#[test]
fn partitions_agree_ram() {
    let buf = test_data(9, 20_000);
    let w = check_partitions(&hash_roll::ram::Ram::with_w(256), &buf);
    assert!(w.iter().all(|&l| l >= 258));
}

#[test]
fn partitions_agree_zpaq() {
    let buf = test_data(10, 40_000);
    let w = check_partitions(&hash_roll::zpaq::Zpaq::with_average_size_pow_2(0), &buf);
    assert!(!w.is_empty());
}

#[test]
fn partitions_agree_zstd() {
    let buf = test_data(11, 40_000);
    let w = check_partitions(&hash_roll::zstd::Zstd::with_target_section_size(1 << 20), &buf);
    // with a 20-bit mask a boundary in 40 kB is rare: the agreement is what counts
    let _ = w;
}

#[test]
fn partitions_agree_gear() {
    let t = table32(1);
    let buf = test_data(12, 40_000);
    let w = check_partitions(&Gear32::with_average_size_log2(10, &t), &buf);
    assert!(!w.is_empty());
}

#[test]
fn partitions_agree_fastcdc() {
    let t = table64(2);
    let buf = test_data(13, 100_000);
    let c = FastCdc::new(&t, 2 * 1024, 8 * 1024, 64 * 1024);
    let w = check_partitions(&c, &buf);
    assert!(!w.is_empty());
    assert!(w.iter().all(|&l| l > 2 * 1024 && l <= 64 * 1024));
}

#[test]
fn fastcdc_cut_at_maximum() {
    // a table of zeros keeps the fingerprint at 0, which matches every mask: a boundary
    // follows the first byte past min_size
    let zeros = [0u64; 256];
    let c = FastCdc::new(&zeros, 16, 32, 64);
    let buf = vec![1u8; 200];
    assert_eq!(check_partitions(&c, &buf), vec![17; 11]);
    // a table of all ones never matches: only the maximum cuts
    let ones = [u64::MAX; 256];
    let c = FastCdc::new(&ones, 16, 32, 64);
    assert_eq!(check_partitions(&c, &buf), vec![64, 64, 64]);
}

#[test]
fn partitions_agree_buzhash() {
    let t = table32(3);
    let buf = test_data(14, 40_000);
    let c = BuzHash::new(7, (1 << 6) - 1, BuzHashTableByteSaltHash::from(0, &t), 1 << 10);
    let w = check_partitions(&c, &buf);
    assert!(!w.is_empty());
    let c = BuzHash::new_nom(3, &t);
    let w = check_partitions(&c, &buf);
    assert!(!w.is_empty());
    let c = BuzHash::new(31, (1 << 8) - 1, BuzHashTableHash::from(&t), 300);
    let w = check_partitions(&c, &buf);
    assert!(w.iter().all(|&l| l <= 301));
}

#[test]
fn buzhash_owned_table() {
    let t = table32(4);
    let buf = test_data(15, 10_000);
    let borrowed = BuzHash::new(5, 0x3f, BuzHashTableHash::from(&t), 1 << 20);
    let owned = BuzHash::new(5, 0x3f, BuzHashTableBufHash::from(Box::new(t)), 1 << 20);
    let a = splits_incr(borrowed.to_chunk_incr(), &buf, &[17]);
    let b = splits_incr(BuzHashIncr::from(owned), &buf, &[17]);
    assert_eq!(a, b);
    assert!(!a.is_empty());
}

#[test]
fn buzhash_salt_changes_boundaries() {
    let t = table32(5);
    let buf = test_data(16, 20_000);
    let a = check_partitions(&BuzHash::new_nom(0, &t), &buf);
    let b = check_partitions(&BuzHash::new_nom(1, &t), &buf);
    assert_ne!(a, b);
}

#[test]
fn empty_input_no_chunks() {
    let empty: &[u8] = &[];
    let c = hash_roll::gzip::GzipRsyncable::default();
    let mut st = c.to_search_state();
    assert_eq!(c.find_chunk_edge(&mut st, empty), (None, 0));
    let mut it = IterSlices::new(c.to_chunk_incr(), empty);
    assert_eq!(it.next(), None);
    let mut incr = hash_roll::mii::Mii::default().to_chunk_incr();
    assert_eq!(incr.push(empty), None);
    let z = hash_roll::zstd::Zstd::default();
    let mut st = z.to_search_state();
    assert_eq!(z.find_chunk_edge(&mut st, empty), (None, 0));
}

#[test]
fn short_input_no_boundary() {
    let t = table64(6);
    let zeros = [0u64; 256];
    // below min_size, even a table that matches at every byte gives no boundary
    let c = FastCdc::new(&zeros, 100, 200, 300);
    let buf = test_data(17, 100);
    let mut st = c.to_search_state();
    assert_eq!(c.find_chunk_edge(&mut st, &buf), (None, 100));
    let c = FastCdc::new(&t, 100, 200, 300);
    let mut incr = c.to_chunk_incr();
    assert_eq!(incr.push(&buf), None);

    let r = hash_roll::ram::Ram::with_w(50);
    let mut st = r.to_search_state();
    assert_eq!(r.find_chunk_edge(&mut st, &buf[..51]), (None, 51));

    let z = hash_roll::zstd::Zstd::with_target_section_size(1 << 20);
    let mut incr = z.to_chunk_incr();
    assert_eq!(incr.push(&buf[..32]), None);
}

#[test]
fn slices_cover_input() {
    let buf = test_data(18, 30_000);
    let c = hash_roll::pigz::PigzRsyncable::default();
    let mut it = IterSlices::new(c.to_chunk_incr(), &buf);
    let mut joined = Vec::new();
    let mut n = 0;
    while let Some(s) = it.next() {
        joined.extend_from_slice(s);
        n += 1;
    }
    assert_eq!(joined, buf);
    assert!(n > 1);
    let (_, rem) = it.into_parts();
    assert!(rem.is_empty());

    let mut strict = IterSlicesStrict::new(c.to_chunk_incr(), &buf);
    let mut total = 0;
    while let Some(s) = strict.next() {
        total += s.len();
    }
    let rem = strict.take_rem();
    assert_eq!(total + rem.len(), buf.len());
    assert!(strict.take_rem().is_empty());
    let (_, rem2) = strict.into_parts();
    assert!(rem2.is_empty());
}

#[test]
fn zstd_keeps_state_across_boundaries() {
    // zstd's boundaries depend on the whole stream: the boundary after a first one is where
    // the rolling hash says, not where a fresh chunker would put it
    let buf = test_data(19, 400_000);
    let z = hash_roll::zstd::Zstd::with_target_section_size(1 << 20);
    let mut h = z.to_chunk_incr();
    let mut rest = &buf[..];
    let mut cuts = Vec::new();
    while let Some(k) = h.push(rest) {
        cuts.push(k);
        rest = &rest[k..];
    }
    let again = check_partitions(&z, &buf);
    assert_eq!(cuts, again);
}

#[test]
fn stability_under_local_edit() {
    // one byte changed near the start of a large buffer leaves most chunks alone
    let buf = test_data(20, 200_000);
    let mut edited = buf.clone();
    edited[100] ^= 0xff;
    let c = hash_roll::gzip::GzipRsyncable::with_window_and_modulus(64, 1024);
    let chunks = |d: &[u8]| {
        let mut it = IterSlices::new(c.to_chunk_incr(), d);
        let mut out = std::collections::HashSet::new();
        while let Some(s) = it.next() {
            out.insert(s.to_vec());
        }
        out
    };
    let a = chunks(&buf);
    let b = chunks(&edited);
    let shared = a.intersection(&b).count();
    assert!(shared * 2 > a.len());
}

#[test]
fn zpaq_short_input_no_boundary() {
    // fragment 3: sizes in [512, 65024)
    let z = hash_roll::zpaq::Zpaq::with_average_size_pow_2(3);
    let buf = test_data(21, 511);
    let mut st = z.to_search_state();
    assert_eq!(z.find_chunk_edge(&mut st, &buf), (None, 511));
}

#[test]
fn decisions_depend_on_last_window_only() {
    // with modulus 2^40 the sum of 8 bytes is a multiple only when all 8 are zero
    let c = hash_roll::gzip::GzipRsyncable::with_window_and_modulus(8, 1 << 40);
    let long: Vec<u8> = test_data(22, 1000).iter().map(|b| b | 1).collect();
    let mut short = vec![9u8, 9, 9];
    short.extend_from_slice(&long[long.len() - 8..]);
    let mut t = vec![5u8, 6, 7, 1, 2];
    t.extend_from_slice(&[0; 8]);
    t.extend_from_slice(&[3, 4]);

    let mut a = c.to_chunk_incr();
    assert_eq!(a.push(&long), None);
    let mut b = c.to_chunk_incr();
    assert_eq!(b.push(&short), None);
    assert_eq!(a.push(&t), Some(13));
    assert_eq!(b.push(&t), Some(13));
}

#[test]
fn incremental_state_stays_bounded_on_large_input() {
    // 4 MiB through the windowed incremental chunkers, in 64 KiB pieces; the boundaries are
    // those of the resumable search over the whole buffer
    let buf = test_data(23, 4 * 1024 * 1024);
    let c = hash_roll::gzip::GzipRsyncable::default();
    let whole = splits_fce(&c, &buf, &[buf.len()]);
    let pieces = splits_incr(c.to_chunk_incr(), &buf, &[64 * 1024]);
    assert_eq!(whole, pieces);
    let r = hash_roll::bup::RollSum::default();
    let whole = splits_fce(&r, &buf, &[buf.len()]);
    let pieces = splits_incr(r.to_chunk_incr(), &buf, &[64 * 1024]);
    assert_eq!(whole, pieces);
}
