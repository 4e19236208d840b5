use hash_roll::{Chunk, ChunkIncr, ToChunkIncr};
use rand::RngCore;
use rand_pcg::Pcg64;
use rollsum::Engine;
use std::num::Wrapping;

fn test_data(seed: u128, size: usize) -> Vec<u8> {
    let mut fill_rng = Pcg64::new(seed, 0xa02bdbf7bb3c0a7ac28fa16a64abf96);
    let mut buf = vec![0u8; size];
    fill_rng.fill_bytes(&mut buf);
    buf
}

/// Chunk lengths from the resumable search, dropping what it allows after every call.
fn splits_fce<C: Chunk>(chunker: &C, buf: &[u8]) -> Vec<usize> {
    let mut splits = Vec::new();
    let mut state = chunker.to_search_state();
    let mut discard_idx = 0;
    let mut last_chunk_idx = 0;
    loop {
        let b = &buf[discard_idx..];
        let (split_point, discard_ct) = chunker.find_chunk_edge(&mut state, b);
        match split_point {
            Some(split_point) => {
                let split_point_global = discard_idx + split_point;
                assert!(last_chunk_idx <= split_point_global);
                splits.push(split_point_global - last_chunk_idx);
                last_chunk_idx = split_point_global;
            }
            None => break,
        }
        discard_idx += discard_ct;
    }
    splits
}

/// Chunk lengths from an incremental chunker fed one byte at a time.
fn splits_incr_bytewise<I: ChunkIncr>(mut incr: I, buf: &[u8]) -> Vec<usize> {
    let mut splits = Vec::new();
    let mut last_split = 0;
    for (i, v) in buf.iter().enumerate() {
        if let Some(p) = incr.push(&[*v]) {
            assert_eq!(p, 1);
            let sp = i + 1;
            splits.push(sp - last_split);
            last_split = sp;
        }
    }
    splits
}

fn cut_test_sz<C: Chunk + ToChunkIncr>(seed: u128, size: usize, chunker: C, expected: &[usize]) {
    let buf = test_data(seed, size);
    let splits = splits_fce(&chunker, &buf);
    let incr_splits = splits_incr_bytewise(chunker.to_chunk_incr(), &buf);
    assert_eq!(&splits[..], &incr_splits[..]);
    assert_eq!(expected, &splits[..]);
}

fn cut_test<C: Chunk + ToChunkIncr>(seed: u128, chunker: C, expected: &[usize]) {
    cut_test_sz(seed, 8192 * 4, chunker, expected)
}

#[test]
fn mii_cuts_1() {
    cut_test(
        0,
        hash_roll::mii::Mii::default(),
        &[
            1212, 40, 261, 1548, 1881, 312, 2043, 285, 1062, 677, 542, 1473, 303, 172, 318, 839,
            2560, 3242, 396, 202, 123, 898, 2454, 544, 3541, 571, 483, 383, 103, 2629, 929, 47,
            524,
        ],
    );
}

#[test]
fn bup_cuts_1() {
    cut_test(0, hash_roll::bup::RollSum::default(), &[2600, 6245])
}

#[test]
fn gzip_cuts_1() {
    cut_test(
        0,
        hash_roll::gzip::GzipRsyncable::default(),
        &[2941, 2077, 5263, 7263, 392, 4371, 5204],
    )
}

#[test]
fn gzip_cuts_2() {
    // chosen so that bytes leave the window
    cut_test(
        2,
        hash_roll::gzip::GzipRsyncable::default(),
        &[9277, 2758, 3074, 7415, 3579, 4141],
    )
}

#[test]
fn zpaq_cuts_0() {
    // the fragment sizes that zpaq 7.15 gives with `-fragment 3`
    cut_test(
        0,
        hash_roll::zpaq::Zpaq::with_average_size_pow_2(3),
        &[10785, 6329, 1287, 860, 4716, 7419],
    )
}

#[test]
fn zpaq_cuts_3() {
    cut_test(
        3,
        hash_roll::zpaq::Zpaq::with_average_size_pow_2(3),
        &[16353, 2334, 970, 5326, 1557],
    )
}

#[test]
fn pigz_cuts_0() {
    cut_test(
        0,
        hash_roll::pigz::PigzRsyncable::default(),
        &[9069, 1191, 3685, 8629, 2119, 2939],
    )
}

#[test]
fn zstd_cuts_0_2mb() {
    // the synchronization point that zstd finds in the 13th block of 128 KiB
    cut_test_sz(
        0,
        1024 * 1024 * 2,
        hash_roll::zstd::Zstd::default(),
        &[12 * 131072 + 87647],
    )
}

#[test]
fn ram_cuts_0() {
    cut_test(0, hash_roll::ram::Ram::with_w(8192), &[8264, 8368, 8341])
}

/// The 64-bit gear table of the rollsum crate: its Gear engine adds `table[b]` to a zero
/// digest when it rolls in the byte `b` first.
fn gear_table_64() -> [u64; 256] {
    let mut t = [0u64; 256];
    for (b, v) in t.iter_mut().enumerate() {
        let mut g = rollsum::Gear::new();
        g.roll_byte(b as u8);
        *v = g.digest();
    }
    t
}

/// The 32-bit table: the high halves of the 64-bit one.
fn gear_table_32() -> [u32; 256] {
    let t64 = gear_table_64();
    let mut t = [0u32; 256];
    for (v, w) in t.iter_mut().zip(t64.iter()) {
        *v = (*w >> 32) as u32;
    }
    t
}

fn cut_test_incr<C: ChunkIncr>(seed: u128, size: usize, chunker: C, expected_splits: &[usize]) {
    let buf = test_data(seed, size);
    let incr_splits = splits_incr_bytewise(chunker, &buf);
    assert_eq!(expected_splits, &incr_splits[..]);
}

#[test]
fn gear32_cuts_0() {
    let t = gear_table_32();
    cut_test(
        0,
        hash_roll::gear::Gear32::with_average_size_log2(13, &t),
        &[11031, 7789, 10463],
    )
}

#[test]
fn fastcdc_cuts_incr_0() {
    let t = gear_table_64();
    cut_test_incr(
        0,
        8192 * 4,
        hash_roll::fastcdc::FastCdc::with_default_sizes(&t).to_chunk_incr(),
        &[8463, 9933, 9029],
    )
}

#[test]
fn fastcdc_cuts_0() {
    let t = gear_table_64();
    cut_test(
        0,
        hash_roll::fastcdc::FastCdc::with_default_sizes(&t),
        &[8463, 9933, 9029],
    )
}

/// FastCDC over one buffer as the paper's pseudocode writes it; the result is the index of
/// the byte whose fingerprint matched, 0 when there is none.
fn fast_cdc_8kb(src: &[u8], gear: &[u64; 256]) -> usize {
    const MASK_S: u64 = 0x0003590703530000;
    const MASK_L: u64 = 0x0000d90003530000;
    const MIN_SIZE: u64 = 2 * 1024;
    const MAX_SIZE: u64 = 64 * 1024;
    const NORMAL_SIZE: u64 = 8 * 1024;

    let mut fp = Wrapping(0);
    let mut n = src.len();
    let mut normal_size = NORMAL_SIZE as usize;
    if n <= (MIN_SIZE as usize) {
        return 0;
    }

    if n >= (MAX_SIZE as usize) {
        n = MAX_SIZE as usize;
    } else if n <= normal_size {
        normal_size = n;
    }

    for i in (MIN_SIZE as usize)..normal_size {
        fp = (fp << 1) + Wrapping(gear[src[i] as usize]);
        if (fp.0 & MASK_S) == 0 {
            return i;
        }
    }

    for i in normal_size..n {
        fp = (fp << 1) + Wrapping(gear[src[i] as usize]);
        if (fp.0 & MASK_L) == 0 {
            return i;
        }
    }

    if n == MAX_SIZE as usize {
        n
    } else {
        0
    }
}

fn oracle_1_test(data: &[u8]) {
    let t = gear_table_64();
    let mut cdc = hash_roll::fastcdc::FastCdc::with_default_sizes(&t).to_chunk_incr();
    let v1 = fast_cdc_8kb(data, &t);
    let v2 = cdc.push(data).unwrap_or(0);
    assert_eq!(v1, v2);
}

#[test]
fn o1_empty() {
    oracle_1_test(&vec![0]);
}

#[test]
fn feed_until_5_chunks() {
    let t = gear_table_64();
    let mut cdc = hash_roll::fastcdc::FastCdc::with_default_sizes(&t).to_chunk_incr();
    let mut ct = 0;
    let mut rng = rand::thread_rng();
    let mut d = [0u8; 256];
    rng.fill_bytes(&mut d);
    loop {
        rng.fill_bytes(&mut d);
        let mut data = &d[..];
        loop {
            let p = cdc.push(data);
            println!("p: {:?}", p);

            if p == None || p.unwrap() == data.len() {
                break;
            } else {
                ct += 1;
                if ct > 5 {
                    return;
                }
                data = &data[p.unwrap()..];
            }
        }
    }
}

#[test]
fn fastcdc_matches_pseudocode_on_first_chunk() {
    // the pseudocode gives the index of the matching byte; the chunk ends just after it
    let t = gear_table_64();
    for seed in [1u128, 2, 3] {
        let data = test_data(seed, 100_000);
        let i = fast_cdc_8kb(&data, &t);
        let mut cdc = hash_roll::fastcdc::FastCdc::with_default_sizes(&t).to_chunk_incr();
        let k = cdc.push(&data).unwrap();
        if i == 64 * 1024 {
            assert_eq!(k, i);
        } else {
            assert_eq!(k, i + 1);
        }
    }
}
