use hash_roll::circ;
use hash_roll::window;

#[test]
fn circ_test_buf() {
    let mut b = circ::Buf::new(3);

    assert_eq!(b.push(1), None);
    assert_eq!(b.push(2), None);
    assert_eq!(b.push(3), None);
    assert_eq!(b.push(4), Some(1));

    assert_eq!(b.to_vec(), vec![2, 3, 4]);

    {
        let mut i = b.iter();
        assert_eq!(i.next(), Some(&2));
        assert_eq!(i.next(), Some(&3));
        assert_eq!(i.next(), Some(&4));
        assert_eq!(i.next(), None);
        assert_eq!(i.next(), None);
    }

    assert_eq!(b.as_slices(), (&[2, 3][..], &[4][..]));
    assert_eq!(b.to_vec(), &[2, 3, 4]);

    assert_eq!(b.to_vec(), vec![2, 3, 4]);
}

#[test]
fn test_buf() {
    let mut b = circ::Buf::new(3);

    assert_eq!(b.push(1), None);
    assert_eq!(b.push(2), None);
    assert_eq!(b.push(3), None);
    assert_eq!(b.push(4), Some(1));

    assert_eq!(b.to_vec(), vec![2, 3, 4]);

    {
        let mut i = b.iter();
        assert_eq!(i.next(), Some(&2));
        assert_eq!(i.next(), Some(&3));
        assert_eq!(i.next(), Some(&4));
        assert_eq!(i.next(), None);
        assert_eq!(i.next(), None);
    }

    assert_eq!(b.to_vec(), vec![2, 3, 4]);
}

#[test]
fn window_test_buf() {
    let mut b = window::Buf::new(3);

    assert_eq!(b.push(1), None);
    assert_eq!(b.push(2), None);
    assert_eq!(b.push(3), None);
    assert_eq!(b.push(4), Some(1).as_ref());

    assert_eq!(b.as_slice(), &[1, 2, 3, 4][..]);
    assert_eq!(b.window(), [2, 3, 4]);
}

#[test]
fn circ_buf_wraps_in_order() {
    let mut b = circ::Buf::new(2);
    assert_eq!(b.limit(), 2);
    assert_eq!(b.len(), 0);
    assert_eq!(b.push(10u8), None);
    assert_eq!(b.push(11), None);
    assert_eq!(b.push(12), Some(10));
    assert_eq!(b.push(13), Some(11));
    assert_eq!(b.push(14), Some(12));
    assert_eq!(b.len(), 2);
    assert_eq!(*b.get(0), 13);
    assert_eq!(*b.get(1), 14);
    let (a1, a2) = b.as_slices();
    let mut joined = a1.to_vec();
    joined.extend_from_slice(a2);
    assert_eq!(joined, vec![13, 14]);
    b.clear();
    assert_eq!(b.len(), 0);
    assert_eq!(b.push(1), None);
    assert_eq!(b.to_vec(), vec![1]);
}

#[test]
fn circ_iter_from_start() {
    let mut b = circ::Buf::new(4);
    for v in 0..6u8 {
        b.push(v);
    }
    let mut it = circ::Iter::from(&b);
    let mut seen = Vec::new();
    while let Some(x) = it.next() {
        seen.push(*x);
    }
    assert_eq!(seen, vec![2, 3, 4, 5]);
}

#[test]
fn window_keeps_everything() {
    let mut b = window::Buf::new(2);
    for v in [5u8, 6, 7, 8] {
        b.push(v);
    }
    assert_eq!(b.len(), 4);
    assert_eq!(b.window(), &[7, 8][..]);
    assert_eq!(b.into_vec(), vec![5, 6, 7, 8]);
}
