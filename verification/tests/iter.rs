use ring_buffer::iter::Iter;
use ring_buffer::RingBuffer;

/// The items an iterator yields from the front.
fn forward<A: Copy, const CAP: usize>(mut iter: Iter<'_, A, CAP>) -> Vec<A> {
    let mut out = Vec::new();
    while let Some(item) = iter.next() {
        out.push(*item);
    }
    out
}

/// The items an iterator yields from the back.
fn backward<A: Copy, const CAP: usize>(mut iter: Iter<'_, A, CAP>) -> Vec<A> {
    let mut out = Vec::new();
    while let Some(item) = iter.next_back() {
        out.push(*item);
    }
    out
}

#[test]
fn test_iter_advance_by() {
    // test non-overflowing buffer

    let arr = RingBuffer::<_, 5>::from([0, 1, 2]);
    let mut iter = arr.iter();

    assert_eq!(iter.len(), 3);
    assert_eq!(forward(iter.clone()), [0, 1, 2]);

    assert_eq!(iter.advance_by(1), Ok(()));
    assert_eq!(iter.len(), 2);
    assert_eq!(forward(iter.clone()), [1, 2]);

    assert_eq!(iter.advance_by(2), Ok(()));
    assert_eq!(iter.len(), 0);
    assert!(iter.next().is_none());

    assert_eq!(iter.advance_by(1).unwrap_err(), 1);

    assert_eq!(arr.iter().advance_by(3), Ok(()));
    assert_eq!(arr.iter().advance_by(4).unwrap_err(), 1);

    // test overflowing buffer

    let mut arr = RingBuffer::<_, 5>::from([0, 1, 2, 3, 4]);
    assert_eq!(arr.pop_first(), Some(0));
    assert_eq!(arr.pop_first(), Some(1));
    arr.with_vacancy().unwrap().write(5);
    arr.with_vacancy().unwrap().write(6);
    assert_ne!(arr.pos().at(), 0);

    let mut iter = arr.iter();

    assert_eq!(iter.len(), 5);
    assert_eq!(forward(iter.clone()), [2, 3, 4, 5, 6]);

    assert_eq!(iter.advance_by(1), Ok(()));
    assert_eq!(iter.len(), 4);
    assert_eq!(forward(iter.clone()), [3, 4, 5, 6]);

    assert_eq!(iter.advance_by(3), Ok(()));
    assert_eq!(iter.len(), 1);
    assert_eq!(forward(iter.clone()), [6]);

    assert_eq!(iter.advance_by(1), Ok(()));
    assert_eq!(iter.len(), 0);
    assert!(iter.next().is_none());
}

#[test]
fn test_iter_double_ended() {
    let mut arr = RingBuffer::<_, 5>::from([0, 1, 2, 3, 4]);
    assert_eq!(arr.pop_first(), Some(0));
    assert_eq!(arr.pop_first(), Some(1));
    arr.with_vacancy().unwrap().write(5);
    arr.with_vacancy().unwrap().write(6);
    assert_ne!(arr.pos().at(), 0);

    assert_eq!(backward(arr.iter()), [6, 5, 4, 3, 2]);

    let mut iter = arr.iter();

    assert_eq!(iter.next_back(), Some(&6));
    assert_eq!(iter.len(), 4);
    assert_eq!(forward(iter.clone()), [2, 3, 4, 5]);

    assert_eq!(iter.next(), Some(&2));
    assert_eq!(iter.next_back(), Some(&5));
    assert_eq!(iter.len(), 2);
    assert_eq!(forward(iter.clone()), [3, 4]);

    assert_eq!(iter.next(), Some(&3));
    assert_eq!(iter.next_back(), Some(&4));
    assert!(iter.next().is_none());
    assert!(iter.next_back().is_none());

    // test advance_back_by

    let mut iter = arr.iter();
    assert_eq!(iter.advance_back_by(2), Ok(()));
    assert_eq!(iter.len(), 3);
    assert_eq!(forward(iter.clone()), [2, 3, 4]);

    assert_eq!(iter.advance_back_by(1), Ok(()));
    assert_eq!(iter.len(), 2);
    assert_eq!(forward(iter.clone()), [2, 3]);

    assert_eq!(iter.advance_back_by(2), Ok(()));
    assert_eq!(iter.len(), 0);
    assert!(iter.next().is_none());
    assert!(iter.next_back().is_none());

    assert_eq!(arr.iter().advance_back_by(5), Ok(()));
    assert_eq!(arr.iter().advance_back_by(6).unwrap_err(), 1);
}

#[test]
fn test_iter_trusted_random_access() {
    let mut arr = RingBuffer::<_, 5>::from([0, 1, 2, 3, 4]);
    assert_eq!(arr.pop_first(), Some(0));
    assert_eq!(arr.pop_first(), Some(1));
    arr.with_vacancy().unwrap().write(5);
    arr.with_vacancy().unwrap().write(6);
    assert_ne!(arr.pos().at(), 0);

    let factors = [1, 2, 3, 4, 5];
    let mut iter = arr.iter_mut();
    let mut k = 0;
    while let Some(a) = iter.next() {
        *a *= factors[k];
        k += 1;
    }
    assert_eq!(k, factors.len());

    assert_eq!(forward(arr.iter()), [2, 6, 12, 20, 30]);
}
