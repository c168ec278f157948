use ring_buffer::iter::Iter;
use ring_buffer::RingBuffer;

fn forward<A: Copy, const CAP: usize>(mut iter: Iter<'_, A, CAP>) -> Vec<A> {
    let mut out = Vec::new();
    while let Some(item) = iter.next() {
        out.push(*item);
    }
    out
}

#[test]
fn remaining_counts_free_places() {
    let mut buf = RingBuffer::<_, 3>::new();
    assert_eq!(buf.remaining(), 3);
    buf.extend(&[0, 1]);
    assert_eq!(buf.remaining(), 1);
    buf.push(2);
    assert_eq!(buf.remaining(), 0);
    assert_eq!(buf.pop_first(), Some(0));
    assert_eq!(buf.remaining(), 1);
}

#[test]
fn get_in_and_out_of_bounds() {
    let buf = RingBuffer::<_, 3>::from([0, 1]);
    assert_eq!(buf.get(0), Some(&0));
    assert_eq!(buf.get(1), Some(&1));
    assert_eq!(buf.get(2), None);
}

#[test]
fn get_mut_changes_items() {
    let mut buf = RingBuffer::<_, 3>::from([1, 2]);
    *buf.get_mut(0).unwrap() *= 2;
    *buf.get_mut(1).unwrap() *= 3;
    assert_eq!(buf.get_mut(2), None);
    assert_eq!(buf.to_vec(), [2, 6]);
}

#[test]
fn get_unchecked_reads_wrapped_items() {
    let mut buf = RingBuffer::<_, 3>::from([0, 1, 2]);
    buf.pop_push(3);
    assert_eq!(*buf.get_unchecked(0), 1);
    assert_eq!(*buf.get_unchecked(2), 3);
    *buf.get_unchecked_mut(2) = 7;
    assert_eq!(buf.to_vec(), [1, 2, 7]);
}

#[test]
fn pop_first_takes_items_in_order() {
    let mut buf = RingBuffer::<_, 3>::new();
    assert_eq!(buf.pop_first(), None);
    buf.extend(&[0, 1]);
    assert_eq!(buf.pop_first(), Some(0));
    assert_eq!(buf.pop_first(), Some(1));
    assert_eq!(buf.pop_first(), None);
}

#[test]
fn pop_push_evicts_the_first_item_when_full() {
    let mut buf = RingBuffer::<_, 3>::new();
    assert_eq!(buf.pop_push(0), None);
    assert_eq!(buf.to_vec(), [0]);
    assert_eq!(buf.pop_push(1), None);
    assert_eq!(buf.to_vec(), [0, 1]);
    assert_eq!(buf.pop_push(2), None);
    assert_eq!(buf.to_vec(), [0, 1, 2]);
    assert_eq!(buf.pop_push(3), Some(0));
    assert_eq!(buf.to_vec(), [1, 2, 3]);
    assert_eq!(buf.pop_push(4), Some(1));
    assert_eq!(buf.to_vec(), [2, 3, 4]);
}

#[test]
fn try_push_with_calls_the_closure_only_with_room() {
    let mut buf = RingBuffer::<_, 3>::from([0, 1]);
    let mut call_count = 0;
    assert!(buf
        .try_push_with(|| {
            call_count += 1;
            2
        })
        .is_ok());
    assert_eq!(call_count, 1);
    assert_eq!(buf.to_vec(), [0, 1, 2]);
    assert!(buf
        .try_push_with(|| {
            call_count += 1;
            3
        })
        .is_err());
    assert_eq!(call_count, 1);
    assert_eq!(buf.to_vec(), [0, 1, 2]);
}

#[test]
fn try_push_fails_when_full() {
    let mut buf = RingBuffer::<_, 3>::from([1, 2]);
    assert_eq!(buf.try_push(3), Ok(()));
    assert_eq!(buf.to_vec(), [1, 2, 3]);
    let err = buf.try_push(4).unwrap_err();
    assert_eq!(err.to_string(), "BufferFullError");
    assert_eq!(err.message(), "ring buffer is full");
    assert_eq!(buf.to_vec(), [1, 2, 3]);
}

#[test]
fn push_and_push_unchecked_append() {
    let mut buf = RingBuffer::<_, 3>::new();
    buf.push(0);
    buf.push_unchecked(1);
    assert_eq!(buf.to_vec(), [0, 1]);
}

#[test]
fn as_slice_only_when_contiguous() {
    let mut buf = RingBuffer::<_, 3>::from([0, 1]);
    assert_eq!(buf.as_slice(), Some(&[0, 1][..]));
    buf.push(2);
    assert_eq!(buf.as_slice(), Some(&[0, 1, 2][..]));
    buf.pop_first();
    assert_eq!(buf.as_slice(), Some(&[1, 2][..]));
    buf.push(3);
    assert_eq!(buf.as_slice(), None);
    buf.extend(&[4, 5]);
    assert_eq!(buf.as_slice(), Some(&[3, 4, 5][..]));
    assert_eq!(buf.as_slice_unchecked(), &[3, 4, 5][..]);
}

#[test]
fn as_slice_mut_writes_through() {
    let mut buf = RingBuffer::<_, 3>::from([0, 1]);
    buf.as_slice_mut().unwrap().copy_from_slice(&[2, 3]);
    assert_eq!(buf.to_vec(), [2, 3]);
    buf.extend(&[4, 5]);
    assert_eq!(buf.as_slice_mut(), None);
    buf.extend(&[6, 7]);
    buf.as_slice_mut().unwrap().copy_from_slice(&[8, 9, 10]);
    assert_eq!(buf.to_vec(), [8, 9, 10]);
    buf.as_slice_unchecked_mut()[0] = 11;
    assert_eq!(buf.to_vec(), [11, 9, 10]);
}

#[test]
fn front_slice_follows_the_first_slot() {
    let mut buf = RingBuffer::<_, 3>::from([0, 1, 2]);
    assert_eq!(buf.front_slice(), &[0, 1, 2][..]);
    assert_eq!(buf.pop_first(), Some(0));
    assert_eq!(buf.front_slice(), &[1, 2][..]);
    buf.push(3);
    assert_eq!(buf.front_slice(), &[1, 2][..]);
    buf.pop_push(4);
    assert_eq!(buf.front_slice(), &[2][..]);
}

#[test]
fn back_slice_holds_the_wrapped_items() {
    let mut buf = RingBuffer::<_, 3>::from([0, 1, 2]);
    assert_eq!(buf.back_slice(), &[][..]);
    assert_eq!(buf.pop_push(3), Some(0));
    assert_eq!(buf.back_slice(), &[3][..]);
}

#[test]
fn split_mut_slices_cover_all_items() {
    let mut buf = RingBuffer::<_, 3>::new();
    let (front, back) = buf.split_mut_slices();
    assert_eq!(front, &[][..]);
    assert_eq!(back, &[][..]);
    buf.extend(&[0, 1, 2]);
    let (front, back) = buf.split_mut_slices();
    assert_eq!(front, &[0, 1, 2][..]);
    assert_eq!(back, &[][..]);
    buf.pop_push(3);
    let (front, back) = buf.split_mut_slices();
    front.copy_from_slice(&[4, 5]);
    back.copy_from_slice(&[6]);
    assert_eq!(buf.to_vec(), [4, 5, 6]);
    buf.pop_push(7);
    let (front, back) = buf.split_mut_slices();
    front.copy_from_slice(&[8]);
    back.copy_from_slice(&[9, 10]);
    assert_eq!(buf.to_vec(), [8, 9, 10]);
    buf.front_slice_mut()[0] = 11;
    buf.back_slice_mut()[1] = 12;
    assert_eq!(buf.to_vec(), [11, 9, 12]);
}

#[test]
fn to_array_only_when_full() {
    assert_eq!(RingBuffer::<_, 3>::from([0, 1, 2]).to_array(), Some([0, 1, 2]));
    assert_eq!(RingBuffer::<_, 3>::from([0, 1]).to_array(), None);
    let mut buf = RingBuffer::<_, 3>::from([0, 1, 2]);
    buf.pop_push(3);
    assert_eq!(buf.to_array(), Some([1, 2, 3]));
}

#[test]
fn from_array_holds_its_items() {
    assert_eq!(forward(RingBuffer::<_, 3>::from([0, 1, 2]).iter()), [0, 1, 2]);
    assert_eq!(forward(RingBuffer::<_, 3>::from([0, 1]).iter()), [0, 1]);
}

#[test]
fn extend_keeps_the_last_items() {
    let mut buf = RingBuffer::<_, 3>::new();
    buf.extend(&[0, 1]);
    assert_eq!(buf.to_vec(), [0, 1]);
    buf.extend(&[2, 3]);
    assert_eq!(buf.to_vec(), [1, 2, 3]);
    buf.extend(&[4, 5, 6, 7, 8]);
    assert_eq!(buf.to_vec(), [6, 7, 8]);
}

#[test]
fn from_iter_holds_its_items() {
    assert_eq!(RingBuffer::<_, 3>::from_iter(&[0, 1]).to_vec(), &[0, 1]);
    assert_eq!(RingBuffer::<_, 3>::from_iter(&[0, 1, 2]).to_vec(), &[0, 1, 2]);
}

#[test]
fn clear_and_default_are_empty() {
    let mut buf = RingBuffer::<_, 3>::from([0, 1, 2]);
    buf.clear();
    assert!(buf.is_empty());
    assert_eq!(buf.pos().at(), 0);
    let empty: RingBuffer<i32, 3> = Default::default();
    assert_eq!(empty.to_vec(), []);
}

#[test]
fn iterators_report_their_length() {
    let buf = RingBuffer::<_, 4>::from([5, 6, 7]);
    let iter = buf.iter();
    assert_eq!(iter.size_hint(), (3, Some(3)));
    assert_eq!(iter.count(), 3);
    let mut buf = buf;
    let mut iter = buf.iter_mut();
    assert_eq!(iter.len(), 3);
    assert_eq!(iter.size_hint(), (3, Some(3)));
    assert_eq!(iter.next_back().map(|x| *x), Some(7));
    assert_eq!(iter.advance_by(1), Ok(()));
    assert_eq!(iter.advance_back_by(2), Err(1));
    assert!(iter.next().is_none());
    assert_eq!(iter.count(), 0);
}

#[test]
fn iter_mut_from_the_back() {
    let mut buf = RingBuffer::<_, 3>::from([1, 2, 3]);
    buf.pop_push(4);
    let mut iter = buf.iter_mut();
    *iter.next_back().unwrap() *= 10;
    assert_eq!(iter.advance_by(5), Err(3));
    assert!(iter.next_back().is_none());
    assert_eq!(buf.to_vec(), [2, 3, 40]);
}
