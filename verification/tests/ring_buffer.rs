use ring_buffer::iter::Iter;
use ring_buffer::RingBuffer;

/// The items an iterator yields from the front.
fn items<A: Copy, const CAP: usize>(mut iter: Iter<'_, A, CAP>) -> Vec<A> {
    let mut out = Vec::new();
    while let Some(item) = iter.next() {
        out.push(*item);
    }
    out
}

#[test]
fn test() {
    let mut arr = RingBuffer::<_, 3>::new();
    assert_eq!(arr.pop_first(), None);
    assert_eq!(arr.iter().next(), None);
    assert!(arr == []);
    assert!(arr.is_empty());
    assert!(!arr.is_full());

    arr.with_vacancy().unwrap().write(0);
    arr.with_vacancy().unwrap().write(1);
    assert!(arr == [0, 1]);
    assert_eq!(arr.len(), 2);
    assert!(!arr.is_empty());
    assert!(!arr.is_full());

    // fill cap
    arr.with_vacancy().unwrap().write(2);

    assert!(arr == [0, 1, 2]);
    assert_eq!(arr.len(), 3);
    assert!(!arr.is_empty());
    assert!(arr.is_full());
    assert!(arr.with_vacancy().is_none());

    assert_eq!(arr.pop_first(), Some(0));
    assert!(arr == [1, 2]);
    assert!(!arr.is_full());
    assert_eq!(items(arr.iter()), [1, 2]);

    arr.with_vacancy().unwrap().write(3);
    assert!(arr.is_full());
    assert!(arr == [1, 2, 3]);

    assert_eq!(arr.pop_first(), Some(1));
    assert_eq!(arr.pop_first(), Some(2));
    assert_eq!(arr.pop_first(), Some(3));
    assert!(arr.is_empty());
    assert!(arr == []);
}

#[test]
fn test_to_array() {
    let mut arr = RingBuffer::<_, 3>::new();
    assert_eq!(arr.to_array(), None);

    arr.with_vacancy().unwrap().write(0);
    assert_eq!(arr.to_array(), None);
    assert_eq!(arr.to_vec(), &[0]);

    arr.with_vacancy().unwrap().write(1);
    assert_eq!(arr.to_array(), None);
    assert_eq!(arr.to_vec(), &[0, 1]);

    arr.with_vacancy().unwrap().write(2);
    assert_eq!(arr.to_array(), Some([0, 1, 2]));
    assert_eq!(arr.to_vec(), &[0, 1, 2]);

    assert_eq!(arr.pop_first().unwrap(), 0);
    assert_eq!(arr.pop_first().unwrap(), 1);
    assert_eq!(arr.to_array(), None);
    assert_eq!(arr.to_vec(), &[2]);

    arr.with_vacancy().unwrap().write(3);
    assert_eq!(arr.to_array(), None);
    assert_eq!(arr.to_vec(), &[2, 3]);
    arr.with_vacancy().unwrap().write(4);
    assert_ne!(arr.len(), 0);
    assert_eq!(arr.to_array(), Some([2, 3, 4]));
    assert_eq!(arr.to_vec(), &[2, 3, 4]);
}

#[test]
fn test_zero_cap() {
    let mut arr = RingBuffer::<i32, 0>::from_iter(&[]);
    assert_eq!(arr.to_array(), Some([]));
    assert_eq!(arr.to_vec(), &[]);
    assert_eq!(arr.pop_first(), None);
    assert!(arr.with_vacancy().is_none());
    assert_eq!(items(arr.iter()), []);
    assert!(arr.iter_mut().next().is_none());
    assert_eq!(arr.get(0), None);
    assert_eq!(arr.get_mut(0), None);
    assert!(arr.is_full());
    assert!(arr.is_empty());
    assert!(!arr.has_remaining());
    assert_eq!(arr.len(), 0);
    assert_eq!(arr.as_slice(), Some(&[][..]));
    assert_eq!(arr.as_slice_mut(), Some(&mut [][..]));
    assert_eq!(arr.front_slice(), &[]);
    assert_eq!(arr.front_slice_mut(), &mut []);
    assert_eq!(arr.back_slice(), &[]);
    assert_eq!(arr.back_slice_mut(), &mut []);
    assert_eq!(arr.split_mut_slices(), (&mut [][..], &mut [][..]));
}

#[test]
fn test_push() {
    let mut arr = RingBuffer::<_, 3>::new();
    arr.push(0);
    assert!(arr == [0]);
    arr.push(1);
    assert!(arr == [0, 1]);
    arr.push(2);
    assert!(arr == [0, 1, 2]);
}
