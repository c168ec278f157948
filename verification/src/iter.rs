//! Iterators over the items in a ring buffer.
use vstd::prelude::*;

use crate::pos::Pos;
use crate::RingBuffer;

verus! {

/// An iterator over references to the items in a ring buffer.
#[derive(Copy)]
pub struct Iter<'buf, A: Copy, const CAP: usize> {
    buf: &'buf [A],
    pos: Pos<CAP>,
}

impl<'buf, A: Copy, const CAP: usize> View for Iter<'buf, A, CAP> {
    type V = Seq<A>;

    /// The items not yet yielded, first to last.
    closed spec fn view(&self) -> Seq<A> {
        self.pos.items_in(self.buf@)
    }
}

impl<'buf, A: Copy, const CAP: usize> Clone for Iter<'buf, A, CAP> {
    /// Copies the iterator: the copy yields the same items.
    fn clone(&self) -> (r: Self)
        ensures
            r@ == self@,
    {
        proof {
            use_type_invariant(self);
        }
        Self { buf: self.buf, pos: self.pos }
    }
}

impl<'buf, A: Copy, const CAP: usize> Iter<'buf, A, CAP> {
    /// The items left lie in the slots.
    #[verifier::type_invariant]
    spec fn wf(&self) -> bool {
        self.pos.covered_by(self.buf@.len())
    }

    pub(crate) fn new(buf: &'buf [A], pos: Pos<CAP>) -> (r: Self)
        requires
            pos.covered_by(buf@.len()),
        ensures
            r@ == pos.items_in(buf@),
    {
        Self { buf, pos }
    }

    /// Returns a reference to the item left at `index`, which must be in bounds.
    fn get_unchecked(&self, index: usize) -> (r: &'buf A)
        requires
            index < self@.len(),
        ensures
            *r == self@[index as int],
    {
        proof {
            use_type_invariant(self);
            use_type_invariant(&self.pos);
            self.pos.lemma_covered(self.buf@.len());
        }
        let slot = self.pos.logical_index(index);
        &self.buf[slot]
    }

    /// Yields the next item from the front, or `None` if none is left.
    pub fn next(&mut self) -> (r: Option<&'buf A>)
        ensures
            old(self)@.len() == 0 ==> r is None && final(self)@ == old(self)@,
            old(self)@.len() > 0 ==> r == Some(&old(self)@[0]) && final(self)@ == old(
                self,
            )@.drop_first(),
    {
        proof {
            use_type_invariant(&*self);
            use_type_invariant(&self.pos);
        }
        if self.pos.len() == 0 {
            return None;
        }
        let item = self.get_unchecked(0);
        let mut pos = self.pos;
        pos.set_len(self.pos.len() - 1);
        pos.advance(1);
        proof {
            let old_pos = self.pos;
            use_type_invariant(&pos);
            old_pos.lemma_slot(1);
            assert forall|i: int| 0 <= i < pos.spec_len() implies #[trigger] pos.slot(i) == old_pos.slot(i + 1) by {
                old_pos.lemma_slot(i + 1);
                pos.lemma_slot(i);
            }
        }
        self.pos = pos;
        assert(self@ =~= old(self)@.drop_first());
        Some(item)
    }

    /// Yields the next item from the back, or `None` if none is left.
    pub fn next_back(&mut self) -> (r: Option<&'buf A>)
        ensures
            old(self)@.len() == 0 ==> r is None && final(self)@ == old(self)@,
            old(self)@.len() > 0 ==> r == Some(&old(self)@.last()) && final(self)@ == old(
                self,
            )@.drop_last(),
    {
        proof {
            use_type_invariant(&*self);
            use_type_invariant(&self.pos);
        }
        if self.pos.len() == 0 {
            return None;
        }
        let new_len = self.pos.len() - 1;
        let item = self.get_unchecked(new_len);
        let mut pos = self.pos;
        pos.set_len(new_len);
        self.pos = pos;
        assert(self@ =~= old(self)@.drop_last());
        Some(item)
    }

    /// Returns the number of items left, as both bounds.
    pub fn size_hint(&self) -> (r: (usize, Option<usize>))
        ensures
            r.0 == self@.len(),
            r.1 == Some(self@.len() as usize),
    {
        (self.pos.len(), Some(self.pos.len()))
    }

    /// Returns the number of items left.
    pub fn count(self) -> (r: usize)
        ensures
            r == self@.len(),
    {
        self.pos.len()
    }

    /// Returns the number of items left.
    pub fn len(&self) -> (r: usize)
        ensures
            r == self@.len(),
    {
        self.pos.len()
    }

    /// Skips `n` items from the front. If fewer than `n` are left, skips them
    /// all and returns how many were missing.
    pub fn advance_by(&mut self, n: usize) -> (r: Result<(), usize>)
        requires
            CAP > 0 || n > 0,
        ensures
            n <= old(self)@.len() ==> r is Ok && final(self)@ == old(self)@.subrange(
                n as int,
                old(self)@.len() as int,
            ),
            n > old(self)@.len() ==> r == Err::<(), usize>((n - old(self)@.len()) as usize)
                && final(self)@ == Seq::<A>::empty(),
    {
        proof {
            use_type_invariant(&*self);
            use_type_invariant(&self.pos);
        }
        match self.pos.len().checked_sub(n) {
            Some(left) => {
                let mut pos = self.pos;
                pos.set_len(left);
                pos.advance(n);
                proof {
                    let old_pos = self.pos;
                    use_type_invariant(&pos);
                    old_pos.lemma_slot(n as int);
                    assert forall|i: int| 0 <= i < pos.spec_len() implies #[trigger] pos.slot(i)
                        == old_pos.slot(i + n) by {
                        old_pos.lemma_slot(i + n);
                        pos.lemma_slot(i);
                    }
                }
                self.pos = pos;
                assert(self@ =~= old(self)@.subrange(n as int, old(self)@.len() as int));
                Ok(())
            },
            None => {
                let left = n - self.pos.len();
                let mut pos = self.pos;
                pos.clear_len();
                self.pos = pos;
                assert(self@ =~= Seq::<A>::empty());
                Err(left)
            },
        }
    }

    /// Skips `n` items from the back. If fewer than `n` are left, skips them
    /// all and returns how many were missing.
    pub fn advance_back_by(&mut self, n: usize) -> (r: Result<(), usize>)
        ensures
            n <= old(self)@.len() ==> r is Ok && final(self)@ == old(self)@.subrange(
                0,
                old(self)@.len() - n,
            ),
            n > old(self)@.len() ==> r == Err::<(), usize>((n - old(self)@.len()) as usize)
                && final(self)@ == Seq::<A>::empty(),
    {
        proof {
            use_type_invariant(&*self);
            use_type_invariant(&self.pos);
        }
        match self.pos.len().checked_sub(n) {
            Some(left) => {
                let mut pos = self.pos;
                pos.set_len(left);
                self.pos = pos;
                assert(self@ =~= old(self)@.subrange(0, old(self)@.len() - n));
                Ok(())
            },
            None => {
                let left = n - self.pos.len();
                let mut pos = self.pos;
                pos.clear_len();
                self.pos = pos;
                assert(self@ =~= Seq::<A>::empty());
                Err(left)
            },
        }
    }
}

/// An iterator over mutable references to the items in a ring buffer.
///
/// Each item it hands out borrows the iterator, so one item is changed at a
/// time.
pub struct IterMut<'buf, A: Copy, const CAP: usize> {
    /// The buffer whose items are visited.
    pub buf: &'buf mut RingBuffer<A, CAP>,
    /// The index in the buffer of the next item from the front.
    pub front: usize,
    /// The index in the buffer just past the next item from the back.
    pub back: usize,
}

impl<'buf, A: Copy, const CAP: usize> View for IterMut<'buf, A, CAP> {
    type V = Seq<A>;

    /// The items not yet yielded, first to last.
    closed spec fn view(&self) -> Seq<A> {
        (*self.buf)@.subrange(self.front as int, self.back as int)
    }
}

impl<'buf, A: Copy, const CAP: usize> IterMut<'buf, A, CAP> {
    /// The items not yet yielded are those at `front..back` in the buffer.
    pub closed spec fn wf(&self) -> bool {
        &&& self.buf.wf()
        &&& self.front <= self.back <= (*self.buf)@.len()
    }

    pub(crate) fn new(buf: &'buf mut RingBuffer<A, CAP>) -> (r: Self)
        requires
            old(buf).wf(),
        ensures
            r.wf(),
            *r.buf == *old(buf),
            *final(r.buf) == *final(buf),
            r.front == 0,
            r.back == old(buf)@.len(),
            r@ == old(buf)@,
    {
        let back = buf.len();
        let r = Self { buf, front: 0, back };
        assert(r@ =~= old(buf)@);
        r
    }

    /// Yields the next item from the front, or `None` if none is left.
    pub fn next(&mut self) -> (r: Option<&mut A>)
        requires
            old(self).wf(),
        ensures
            final(self).wf(),
            final(self).buf.wf(),
            *final(final(self).buf) == *final(old(self).buf),
            final(self).back == old(self).back,
            old(self)@.len() == 0 ==> r is None && *final(self).buf == *old(self).buf
                && final(self).front == old(self).front,
            old(self)@.len() > 0 ==> r is Some && *r->0 == old(self)@[0] && (*final(self).buf)@
                == (*old(self).buf)@.update(old(self).front as int, *final(r->0))
                && final(self).buf.first_slot() == old(self).buf.first_slot()
                && final(self).front == old(self).front + 1 && final(self)@ == old(
                self,
            )@.drop_first(),
    {
        if self.front >= self.back {
            return None;
        }
        let i = self.front;
        self.front = i + 1;
        let ghost items = (*self.buf)@;
        let ghost back = self.back;
        assert forall|x: A| #[trigger] items.update(i as int, x).subrange(i + 1, back as int)
            =~= old(self)@.drop_first() by {}
        let r = self.buf.get_unchecked_mut(i);
        Some(r)
    }

    /// Yields the next item from the back, or `None` if none is left.
    pub fn next_back(&mut self) -> (r: Option<&mut A>)
        requires
            old(self).wf(),
        ensures
            final(self).wf(),
            final(self).buf.wf(),
            *final(final(self).buf) == *final(old(self).buf),
            final(self).front == old(self).front,
            old(self)@.len() == 0 ==> r is None && *final(self).buf == *old(self).buf
                && final(self).back == old(self).back,
            old(self)@.len() > 0 ==> r is Some && *r->0 == old(self)@.last() && (*final(self).buf)@
                == (*old(self).buf)@.update(old(self).back - 1, *final(r->0))
                && final(self).buf.first_slot() == old(self).buf.first_slot()
                && final(self).back == old(self).back - 1 && final(self)@ == old(self)@.drop_last(),
    {
        if self.front >= self.back {
            return None;
        }
        let i = self.back - 1;
        self.back = i;
        let ghost items = (*self.buf)@;
        let ghost front = self.front;
        assert forall|x: A| #[trigger] items.update(i as int, x).subrange(front as int, i as int)
            =~= old(self)@.drop_last() by {}
        let r = self.buf.get_unchecked_mut(i);
        Some(r)
    }

    /// Returns the number of items left.
    pub fn len(&self) -> (r: usize)
        requires
            self.wf(),
        ensures
            r == self@.len(),
    {
        self.back - self.front
    }

    /// Returns the number of items left, as both bounds.
    pub fn size_hint(&self) -> (r: (usize, Option<usize>))
        requires
            self.wf(),
        ensures
            r.0 == self@.len(),
            r.1 == Some(self@.len() as usize),
    {
        let n = self.len();
        (n, Some(n))
    }

    /// Returns the number of items left.
    pub fn count(self) -> (r: usize)
        requires
            self.wf(),
        ensures
            r == self@.len(),
    {
        self.len()
    }

    /// Skips `n` items from the front. If fewer than `n` are left, skips them
    /// all and returns how many were missing.
    pub fn advance_by(&mut self, n: usize) -> (r: Result<(), usize>)
        requires
            old(self).wf(),
            CAP > 0 || n > 0,
        ensures
            final(self).wf(),
            final(self).buf.wf(),
            final(self).buf == old(self).buf,
            n <= old(self)@.len() ==> r is Ok && final(self)@ == old(self)@.subrange(
                n as int,
                old(self)@.len() as int,
            ),
            n > old(self)@.len() ==> r == Err::<(), usize>((n - old(self)@.len()) as usize)
                && final(self)@ == Seq::<A>::empty(),
    {
        let len = self.back - self.front;
        match len.checked_sub(n) {
            Some(_) => {
                self.front = self.front + n;
                assert(self@ =~= old(self)@.subrange(n as int, old(self)@.len() as int));
                Ok(())
            },
            None => {
                self.front = self.back;
                assert(self@ =~= Seq::<A>::empty());
                Err(n - len)
            },
        }
    }

    /// Skips `n` items from the back. If fewer than `n` are left, skips them
    /// all and returns how many were missing.
    pub fn advance_back_by(&mut self, n: usize) -> (r: Result<(), usize>)
        requires
            old(self).wf(),
        ensures
            final(self).wf(),
            final(self).buf.wf(),
            final(self).buf == old(self).buf,
            n <= old(self)@.len() ==> r is Ok && final(self)@ == old(self)@.subrange(
                0,
                old(self)@.len() - n,
            ),
            n > old(self)@.len() ==> r == Err::<(), usize>((n - old(self)@.len()) as usize)
                && final(self)@ == Seq::<A>::empty(),
    {
        let len = self.back - self.front;
        match len.checked_sub(n) {
            Some(_) => {
                self.back = self.back - n;
                assert(self@ =~= old(self)@.subrange(0, old(self)@.len() - n));
                Ok(())
            },
            None => {
                self.back = self.front;
                assert(self@ =~= Seq::<A>::empty());
                Err(n - len)
            },
        }
    }
}

} // verus!
