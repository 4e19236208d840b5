use hash_roll::bup::{RollSum, RollSumIncr};
use hash_roll::{Chunk, ChunkIncr};
use rand::RngCore;
use rollsum::Engine;

#[test]
fn rs() {
    let mut m = RollSumIncr::default();
    m.roll_byte(3);
    assert_eq!(m.digest(), 130279491);
}

#[test]
fn compare_rollsum() {
    let mut m1 = RollSumIncr::default();
    let mut m2 = rollsum::Bup::default();

    assert_eq!(m1.digest(), m2.digest());

    m1.roll_byte(4);
    m2.roll_byte(4);

    assert_eq!(m1.digest(), m2.digest());

    m1.roll_byte(18);
    m2.roll_byte(18);

    assert_eq!(m1.digest(), m2.digest());

    let mut r = rand::thread_rng();
    let mut b = [0u8; 2048];

    r.fill_bytes(&mut b);

    for (i, &v) in b.iter().enumerate() {
        m1.roll_byte(v);
        m2.roll_byte(v);
        println!("i={}, v={}", i, v);
        assert_eq!(m1.digest(), m2.digest());
    }

    for &v in b.iter() {
        m1.roll_byte(v);
    }
    m2.roll(&b);

    assert_eq!(m1.digest(), m2.digest());
}

#[test]
fn compare_bup() {
    let mut m1 = RollSumIncr::default();
    let mut m2 = rollsum::Bup::default();

    let mut r = rand::thread_rng();
    let mut b = [0u8; 2048];

    r.fill_bytes(&mut b);

    let mut x = &b[..];
    loop {
        let v1 = m1.push(x);
        let v2 = m2.find_chunk_edge(x);
        assert_eq!(v1, v2.map(|x| x.0));

        match v1 {
            None => break,
            Some(v) => {
                x = &x[v..];
            }
        }
    }
}

/// The first boundary found by a fresh search, or 0.
fn first_edge(x: &[u8]) -> usize {
    let m1 = RollSum::default();
    let mut st = m1.to_search_state();
    m1.find_chunk_edge(&mut st, x).0.unwrap_or(0)
}

fn chk_a(x: &[u8]) {
    let mut m2 = rollsum::Bup::default();
    let v1 = first_edge(x);
    let v2 = m2.find_chunk_edge(x).map(|e| e.0).unwrap_or(0);
    assert_eq!(v1, v2);
}

fn chk_b(x: &[u8]) {
    let mut m1 = RollSumIncr::default();
    let mut m2 = rollsum::Bup::default();
    let cm = (1 << rollsum::bup::CHUNK_BITS) - 1;

    for (i, &v) in x.iter().enumerate() {
        m1.roll_byte(v);
        m2.roll_byte(v);
        println!("i={}, v={}", i, v);
        assert_eq!(m1.digest(), m2.digest());
        assert_eq!(m1.at_split(), (m2.digest() & cm) == cm);
    }
}

#[test]
fn simple_eq_1() {
    chk_a(&[
        92, 6, 28, 35, 68, 82, 35, 71, 34, 19, 9, 45, 97, 17, 11, 6, 53, 39, 93, 49, 29, 17, 37,
        6, 39,
    ]);
}

#[test]
fn simple_eq_1b() {
    chk_b(&[
        92, 6, 28, 35, 68, 82, 35, 71, 34, 19, 9, 45, 97, 17, 11, 6, 53, 39, 93, 49, 29, 17, 37,
        6, 39,
    ]);
}

#[test]
fn simple_eq_2() {
    chk_a(&[67, 3, 23, 73, 86, 64, 26, 25, 81, 53, 26, 82, 98, 86, 28]);
}

#[test]
fn simple_eq_3() {
    chk_a(&[40, 58, 57, 0, 16, 2, 32, 88, 0, 22, 23, 74, 90, 88, 95, 99, 86]);
}

#[test]
fn bup_search_matches_rollsum_on_long_input() {
    // a boundary inside, and bytes leaving the window before it
    let mut data = Vec::new();
    let mut x: u32 = 12345;
    for _ in 0..100_000 {
        x = x.wrapping_mul(1103515245).wrapping_add(12345);
        data.push((x >> 16) as u8);
    }
    let mut rest = &data[..];
    let mut m2 = rollsum::Bup::default();
    let m1 = RollSum::default();
    let mut found = 0;
    loop {
        let mut st = m1.to_search_state();
        let e1 = m1.find_chunk_edge(&mut st, rest).0;
        let e2 = m2.find_chunk_edge(rest).map(|e| e.0);
        assert_eq!(e1, e2);
        match e1 {
            Some(k) => {
                found += 1;
                rest = &rest[k..];
            }
            None => break,
        }
    }
    assert!(found > 0);
}
