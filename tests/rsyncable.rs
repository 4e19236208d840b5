use hash_roll::gzip::GzipRsyncable;
use hash_roll::rsyncable::Rsyncable;
use hash_roll::{Chunk, IterSlices, ToChunkIncr};
use std::collections::HashSet;

/// Every chunk of `data`, the trailing remainder included.
fn into_vecs(chunker: &GzipRsyncable, data: &[u8]) -> Vec<Vec<u8>> {
    let mut it = IterSlices::new(chunker.to_chunk_incr(), data);
    let mut out = Vec::new();
    while let Some(s) = it.next() {
        out.push(s.to_vec());
    }
    out
}

#[test]
fn test_rsyncable() {
    let d1 = b"hello, this is some bytes";
    let mut d2 = *d1;
    d2[4] = b':';

    let b1 = into_vecs(&GzipRsyncable::with_window_and_modulus(4, 8), d1);
    let b2 = into_vecs(&GzipRsyncable::with_window_and_modulus(4, 8), &d2);

    let c1 = b1.len();
    let c2 = b2.len();

    assert_eq!(c1, 4);
    assert!((c1 as i64 - c2 as i64).abs() < 1);

    let mut blocks = HashSet::with_capacity(c1);
    let mut common_in_b1 = 0u64;
    for b in b1 {
        if !blocks.insert(b) {
            common_in_b1 += 1;
        }
    }

    println!("common in b1: {}", common_in_b1);

    let mut shared_blocks = 0u64;
    for b in b2 {
        if blocks.contains(&b) {
            shared_blocks += 1;
        }
    }

    println!("shared blocks: {}", shared_blocks);
    assert!(shared_blocks > (c1 as u64) / 2);
}

/// The length of the first chunk of `d`, or 0, from a fresh search.
fn one_shot(x: &GzipRsyncable, d: &[u8]) -> usize {
    let mut st = x.to_search_state();
    x.find_chunk_edge(&mut st, d).0.unwrap_or(0)
}

#[test]
fn simple() {
    let x = GzipRsyncable::with_window_and_modulus(4, 8);
    let d_ = b"32266fsdasas";
    let d = &d_[..];
    let mut c = 0;
    let l = one_shot(&x, d);
    c += l;
    assert_eq!(l, 5);
    let d = &d[l..];
    let l = one_shot(&x, d);
    c += l;
    assert_eq!(l, 7);

    assert_eq!(c, d_.len());

    let d = &d[l..];
    let l = one_shot(&x, d);
    assert_eq!(d.len(), 0);
    assert_eq!(l, 0);

    // once nothing remains, no boundary is found
    let d = &d[l..];
    let l = one_shot(&x, d);
    assert_eq!(l, 0);

    // the chunks cover the whole input
    assert_eq!(c, d_.len());
}

#[test]
fn rsyncable_one_shot_matches_gzip() {
    let r = Rsyncable::with_window_and_modulus(4, 8);
    let d = b"32266fsdasas";
    assert_eq!(r.find_chunk_edge(d), 5);
    assert_eq!(r.find_chunk_edge(&d[5..]), 7);
    assert_eq!(r.find_chunk_edge(&d[12..]), 0);
    assert_eq!(r.find_chunk_edge(b"3226"), 0);
}

#[test]
fn gzip_sum_over_window() {
    // window 2, modulus 5: sums 1, 1+2, 2+2 -> none divisible; 2+3 = 5 -> cut after 4 bytes
    let x = GzipRsyncable::with_window_and_modulus(2, 5);
    assert_eq!(one_shot(&x, &[1, 2, 2, 3, 9]), 4);
    // the byte that left the window no longer counts: 4, 4+1 = 5 -> cut after 2 bytes
    assert_eq!(one_shot(&x, &[4, 1]), 2);
    assert_eq!(one_shot(&x, &[4]), 0);
}
