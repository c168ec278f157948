use vstd::prelude::*;
use vstd::std_specs::cmp::{PartialEqSpec, PartialOrdSpec};

use core::cmp::Ordering;

pub mod entry;
pub mod error;
pub mod iter;
pub mod pos;

use crate::entry::VacantEntry;
use crate::error::BufferFullError;
use crate::iter::{Iter, IterMut};
use crate::pos::{lemma_mod_step, Pos};

verus! {

/// A ring buffer that holds up to `CAP` items of type `A`.
///
/// The slots are filled in order the first time round; from then on items are
/// written over older ones, in a circle.
pub struct RingBuffer<A: Copy, const CAP: usize> {
    buf: Vec<A>,
    pos: Pos<CAP>,
}

impl<A: Copy, const CAP: usize> View for RingBuffer<A, CAP> {
    type V = Seq<A>;

    /// The items, first to last.
    closed spec fn view(&self) -> Seq<A> {
        self.pos.items_in(self.buf@)
    }
}

impl<A: Copy, const CAP: usize> RingBuffer<A, CAP> {
    /// The slots filled so far are `0..buf.len()`; until all `CAP` slots have
    /// been filled, the live items end exactly at the last filled slot.
    pub closed spec fn wf(&self) -> bool {
        &&& self.pos.wf()
        &&& self.pos.fits(self.buf@.len())
    }

    /// The slot that holds the first item (the slot the next item goes to,
    /// when the buffer is empty).
    pub closed spec fn first_slot(&self) -> nat {
        self.pos.spec_at()
    }

    /// The items lie in one run of slots, without wrapping past the end.
    pub open spec fn spec_contiguous(&self) -> bool {
        self.first_slot() + self@.len() <= CAP
    }

    /// The number of items from the first slot up to the end of the slots.
    pub open spec fn spec_front_len(&self) -> nat {
        if self.spec_contiguous() {
            self@.len()
        } else {
            (CAP - self.first_slot()) as nat
        }
    }

    /// The first slot once `n` items have been taken from the front.
    pub open spec fn first_slot_after(&self, n: int) -> nat {
        if CAP == 0 {
            self.first_slot()
        } else {
            ((self.first_slot() + n) % (CAP as int)) as nat
        }
    }

    /// The bounds that every ring buffer keeps.
    pub open spec fn bounded(&self) -> bool {
        &&& self@.len() <= CAP
        &&& (self.first_slot() < CAP || (CAP == 0 && self.first_slot() == 0))
    }

    /// A ring buffer never holds more than `CAP` items, and its first slot is
    /// one of its `CAP` slots (slot 0 when there are none).
    pub proof fn lemma_bounded(&self)
        requires
            self.wf(),
        ensures
            self.bounded(),
    {
        self.lemma_slots_filled();
    }

    /// A buffer is full exactly when it has no room left, for every `CAP`
    /// (with `CAP == 0`, an empty buffer is full and has no room); and it has
    /// room exactly when the number of free places is positive.
    pub proof fn lemma_full_iff_no_room(&self)
        requires
            self.wf(),
        ensures
            (self@.len() == CAP) <==> !(self@.len() < CAP),
            (self@.len() < CAP) <==> (CAP - self@.len() > 0),
    {
        self.lemma_bounded();
    }

    /// The front part followed by the back part is all the items, first to
    /// last; the back part is empty exactly when the items lie in one run of
    /// slots, and then the front part is all the items.
    pub proof fn lemma_front_back(&self)
        requires
            self.wf(),
        ensures
            self.spec_front_len() <= self@.len(),
            self@.subrange(0, self.spec_front_len() as int) + self@.subrange(
                self.spec_front_len() as int,
                self@.len() as int,
            ) == self@,
            (self.spec_front_len() == self@.len()) <==> self.spec_contiguous(),
    {
        self.lemma_bounded();
        assert(self@.subrange(0, self.spec_front_len() as int) + self@.subrange(
            self.spec_front_len() as int,
            self@.len() as int,
        ) =~= self@);
    }

    /// Every live item sits in a filled slot.
    proof fn lemma_slots_filled(&self)
        requires
            self.wf(),
        ensures
            self.bounded(),
            forall|i: int|
                0 <= i < self.pos.spec_len() ==> 0 <= #[trigger] self.pos.slot(i) < self.buf@.len(),
    {
        assert forall|i: int| 0 <= i < self.pos.spec_len() implies 0 <= #[trigger] self.pos.slot(
            i,
        ) < self.buf@.len() by {
            self.pos.lemma_slot(i);
        }
    }

    /// Creates a new empty ring buffer.
    pub fn new() -> (r: Self)
        ensures
            r.wf(),
            r@ == Seq::<A>::empty(),
            r.first_slot() == 0,
    {
        let r = Self { buf: Vec::new(), pos: Pos::zero() };
        assert(r@ =~= Seq::<A>::empty());
        r
    }

    /// Returns the number of items in the ring buffer.
    pub fn len(&self) -> (r: usize)
        requires
            self.wf(),
        ensures
            r == self@.len(),
            self.bounded(),
    {
        proof {
            self.lemma_slots_filled();
        }
        self.pos.len()
    }

    /// Returns where the items lie: how many there are and which slot holds
    /// the first of them.
    pub fn pos(&self) -> (r: Pos<CAP>)
        requires
            self.wf(),
        ensures
            r.spec_len() == self@.len(),
            r.spec_at() == self.first_slot(),
    {
        self.pos
    }

    /// Returns `true` if the ring buffer is empty.
    pub fn is_empty(&self) -> (r: bool)
        requires
            self.wf(),
        ensures
            r == (self@.len() == 0),
    {
        self.pos.is_empty()
    }

    /// Returns `true` if the ring buffer is full: it holds `CAP` items, so that
    /// with `CAP == 0` an empty buffer is full.
    pub fn is_full(&self) -> (r: bool)
        requires
            self.wf(),
        ensures
            r == (self@.len() == CAP),
    {
        self.pos.is_full()
    }

    /// Returns the number of items that can be added before the buffer is
    /// full: `CAP - self.len()`.
    pub fn remaining(&self) -> (r: usize)
        requires
            self.wf(),
        ensures
            r == CAP - self@.len(),
    {
        CAP - self.len()
    }

    /// Returns `true` if the ring buffer has room for at least one more item.
    pub fn has_remaining(&self) -> (r: bool)
        requires
            self.wf(),
        ensures
            r == (self@.len() < CAP),
    {
        self.remaining() > 0
    }

    /// Returns a reference to the item at `index`, which must be in bounds.
    pub fn get_unchecked(&self, index: usize) -> (r: &A)
        requires
            self.wf(),
            index < self@.len(),
        ensures
            *r == self@[index as int],
    {
        proof {
            self.lemma_slots_filled();
        }
        let slot = self.pos.logical_index(index);
        &self.buf[slot]
    }

    /// Returns a mutable reference to the item at `index`, which must be in bounds.
    pub fn get_unchecked_mut(&mut self, index: usize) -> (r: &mut A)
        requires
            old(self).wf(),
            index < old(self)@.len(),
        ensures
            final(self).wf(),
            *r == old(self)@[index as int],
            final(self)@ == old(self)@.update(index as int, *final(r)),
            final(self).first_slot() == old(self).first_slot(),
    {
        proof {
            self.lemma_slots_filled();
        }
        let slot = self.pos.logical_index(index);
        proof {
            assert forall|i: int| 0 <= i < self.pos.spec_len() && i != index implies #[trigger] self.pos.slot(i) != slot by {
                self.pos.lemma_slot(i);
                self.pos.lemma_slot(index as int);
            }
        }
        &mut self.buf[slot]
    }

    /// Returns a reference to the item at `index`, or `None` if `index` is out of bounds.
    pub fn get(&self, index: usize) -> (r: Option<&A>)
        requires
            self.wf(),
        ensures
            index < self@.len() ==> r == Some(&self@[index as int]),
            index >= self@.len() ==> r == None::<&A>,
    {
        if index >= self.len() {
            None
        } else {
            Some(self.get_unchecked(index))
        }
    }

    /// Returns a mutable reference to the item at `index`, or `None` if `index` is out of bounds.
    pub fn get_mut(&mut self, index: usize) -> (r: Option<&mut A>)
        requires
            old(self).wf(),
        ensures
            final(self).wf(),
            index < old(self)@.len() ==> r is Some && *r->0 == old(self)@[index as int]
                && final(self)@ == old(self)@.update(index as int, *final(r->0)),
            index >= old(self)@.len() ==> r is None && final(self)@ == old(self)@,
            final(self).first_slot() == old(self).first_slot(),
    {
        if index >= self.len() {
            None
        } else {
            Some(self.get_unchecked_mut(index))
        }
    }

    /// Removes the first item and returns it, or `None` if the buffer is empty.
    pub fn pop_first(&mut self) -> (r: Option<A>)
        requires
            old(self).wf(),
        ensures
            final(self).wf(),
            old(self)@.len() == 0 ==> r == None::<A> && final(self)@ == old(self)@
                && final(self).first_slot() == old(self).first_slot(),
            old(self)@.len() > 0 ==> r == Some(old(self)@[0]) && final(self)@ == old(
                self,
            )@.drop_first() && final(self).first_slot() == old(self).first_slot_after(1),
    {
        proof {
            self.lemma_slots_filled();
        }
        if self.is_empty() {
            return None;
        }
        let item = self.buf[self.pos.at()];
        let mut pos = self.pos;
        pos.advance(1);
        pos.set_len(self.pos.len() - 1);
        proof {
            let old_pos = self.pos;
            old_pos.lemma_slot(0);
            old_pos.lemma_slot(1);
            assert forall|i: int| 0 <= i < pos.spec_len() implies #[trigger] pos.slot(i) == old_pos.slot(i + 1) by {
                old_pos.lemma_slot(i + 1);
                pos.lemma_slot(i);
            }
        }
        self.pos = pos;
        assert(self@ =~= old(self)@.drop_first());
        Some(item)
    }

    /// If the buffer has room for one more item, returns a [`VacantEntry`]
    /// through which it can be added at the end.
    pub fn with_vacancy(&mut self) -> (r: Option<VacantEntry<'_, A, CAP>>)
        requires
            old(self).wf(),
        ensures
            old(self)@.len() < CAP ==> r is Some && r->0.buffer() == *old(self)
                && *final(r.unwrap().0) == *final(self),
            old(self)@.len() >= CAP ==> r is None && *final(self) == *old(self),
    {
        if self.has_remaining() {
            Some(VacantEntry::new_unchecked(self))
        } else {
            None
        }
    }

    /// Adds an item to the end, removing the first item if the buffer is full.
    /// Returns the removed item if the buffer was full, otherwise `None`.
    pub fn pop_push(&mut self, item: A) -> (r: Option<A>)
        requires
            old(self).wf(),
            CAP > 0,
        ensures
            final(self).wf(),
            old(self)@.len() == CAP ==> r == Some(old(self)@[0]) && final(self)@ == old(
                self,
            )@.drop_first().push(item) && final(self).first_slot() == old(self).first_slot_after(1),
            old(self)@.len() < CAP ==> r == None::<A> && final(self)@ == old(self)@.push(item)
                && final(self).first_slot() == old(self).first_slot(),
    {
        proof {
            self.lemma_slots_filled();
        }
        if self.is_full() {
            let at = self.pos.at();
            proof {
                self.pos.lemma_slot(0);
            }
            let first = self.buf[at];
            self.buf[at] = item;
            let mut pos = self.pos;
            pos.advance(1);
            proof {
                let old_pos = self.pos;
                old_pos.lemma_slot(1);
                assert forall|i: int| 0 <= i < CAP implies #[trigger] pos.slot(i) == old_pos.slot(i + 1) by {
                    old_pos.lemma_slot(i + 1);
                    pos.lemma_slot(i);
                }
                assert forall|i: int| 0 <= i < CAP - 1 implies #[trigger] old_pos.slot(i + 1) != at by {
                    old_pos.lemma_slot(i + 1);
                }
                old_pos.lemma_slot(CAP as int);
            }
            self.pos = pos;
            assert(self@ =~= old(self)@.drop_first().push(item));
            Some(first)
        } else {
            self.push_unchecked(item);
            None
        }
    }

    /// Tries to add an item, made by calling `f`, to the end of the buffer.
    /// `f` is called only if the buffer has room for the item.
    pub fn try_push_with<F: FnOnce() -> A>(&mut self, f: F) -> (r: Result<(), BufferFullError>)
        requires
            old(self).wf(),
            old(self)@.len() < CAP ==> f.requires(()),
        ensures
            final(self).wf(),
            r is Ok <==> old(self)@.len() < CAP,
            r is Ok ==> final(self)@.len() == old(self)@.len() + 1 && final(self)@.drop_last()
                == old(self)@ && f.ensures((), final(self)@.last()),
            r is Err ==> final(self)@ == old(self)@,
            final(self).first_slot() == old(self).first_slot(),
    {
        match self.with_vacancy() {
            Some(mut entry) => {
                let item = f();
                entry.write(item);
                Ok(())
            },
            None => Err(BufferFullError::new()),
        }
    }

    /// Adds an item to the end, assuming the buffer has room for it.
    pub fn push_unchecked(&mut self, item: A)
        requires
            old(self).wf(),
            old(self)@.len() < CAP,
        ensures
            final(self).wf(),
            final(self)@ == old(self)@.push(item),
            final(self).first_slot() == old(self).first_slot(),
    {
        proof {
            self.lemma_slots_filled();
        }
        let len = self.len();
        let slot = self.pos.logical_index(len);
        proof {
            self.pos.lemma_slot(len as int);
        }
        let ghost old_pos = self.pos;
        let mut pos = self.pos;
        pos.set_len(len + 1);
        proof {
            assert forall|i: int| 0 <= i < len implies #[trigger] pos.slot(i) != slot by {
                pos.lemma_slot(i);
            }
        }
        if slot < self.buf.len() {
            self.buf[slot] = item;
            self.pos = pos;
        } else {
            self.buf.push(item);
            self.pos = pos;
        }
        assert(self@ =~= old(self)@.push(item));
    }

    /// Tries to add an item to the end of the buffer, if it has room for it.
    pub fn try_push(&mut self, item: A) -> (r: Result<(), BufferFullError>)
        requires
            old(self).wf(),
        ensures
            final(self).wf(),
            r is Ok <==> old(self)@.len() < CAP,
            r is Ok ==> final(self)@ == old(self)@.push(item),
            r is Err ==> final(self)@ == old(self)@,
            final(self).first_slot() == old(self).first_slot(),
    {
        let r = self.try_push_with(move || -> (v: A)
            ensures
                v == item,
            { item });
        proof {
            if r is Ok {
                assert(final(self)@ =~= old(self)@.push(item));
            }
        }
        r
    }

    /// Adds an item to the end of the buffer, which must have room for it.
    pub fn push(&mut self, item: A)
        requires
            old(self).wf(),
            old(self)@.len() < CAP,
        ensures
            final(self).wf(),
            final(self)@ == old(self)@.push(item),
            final(self).first_slot() == old(self).first_slot(),
    {
        self.try_push(item).unwrap()
    }

    /// The items in slot order: the front run starts at the first slot, the
    /// back run (empty unless the items wrap) starts at slot 0.
    proof fn lemma_runs(&self)
        requires
            self.wf(),
        ensures
            self.bounded(),
            self.first_slot() + self.spec_front_len() <= self.buf@.len(),
            self@.len() - self.spec_front_len() <= self.first_slot(),
            self@ =~= self.buf@.subrange(
                self.first_slot() as int,
                (self.first_slot() + self.spec_front_len()) as int,
            ) + self.buf@.subrange(0, self@.len() - self.spec_front_len()),
    {
        self.lemma_slots_filled();
        let fl = self.spec_front_len() as int;
        assert forall|i: int| 0 <= i < self@.len() implies #[trigger] self.pos.slot(i) == (if i < fl {
            self.first_slot() + i
        } else {
            i - fl
        }) by {
            self.pos.lemma_slot(i);
        }
    }

    /// Returns a slice of the items, which must lie in one run of slots.
    pub fn as_slice_unchecked(&self) -> (r: &[A])
        requires
            self.wf(),
            self.spec_contiguous(),
        ensures
            r@ == self@,
    {
        proof {
            self.lemma_runs();
        }
        let at = self.pos.at();
        let len = self.pos.len();
        vstd::slice::slice_subrange(self.buf.as_slice(), at, at + len)
    }

    /// Returns a mutable slice of the items, which must lie in one run of slots.
    pub fn as_slice_unchecked_mut(&mut self) -> (r: &mut [A])
        requires
            old(self).wf(),
            old(self).spec_contiguous(),
        ensures
            r@ == old(self)@,
            final(r)@.len() == r@.len() ==> final(self).wf() && final(self)@ == final(r)@,
            final(self).first_slot() == old(self).first_slot(),
    {
        proof {
            self.lemma_runs();
        }
        let at = self.pos.at();
        let len = self.pos.len();
        let ghost pos = self.pos;
        let slots = self.buf.as_mut_slice();
        let (head, rest) = slots.split_at_mut(at);
        let (items, tail) = rest.split_at_mut(len);
        proof {
            assert(has_resolved(head));
            assert(has_resolved(tail));
            assert(final(head)@ == head@);
            assert(final(tail)@ == tail@);
            assert forall|m: Seq<A>| m.len() == len implies #[trigger] pos.items_in(
                head@ + (m + tail@),
            ) == m && pos.fits((head@ + (m + tail@)).len()) by {
                assert forall|i: int| 0 <= i < len implies #[trigger] pos.slot(i) == at + i by {
                    pos.lemma_slot(i);
                }
                assert(pos.items_in(head@ + (m + tail@)) =~= m);
            }
        }
        items
    }

    /// Returns a slice of the items if they lie in one run of slots, otherwise `None`.
    pub fn as_slice(&self) -> (r: Option<&[A]>)
        requires
            self.wf(),
        ensures
            self.spec_contiguous() ==> r is Some && r->0@ == self@,
            !self.spec_contiguous() ==> r is None,
    {
        if self.pos.is_contiguous() {
            Some(self.as_slice_unchecked())
        } else {
            None
        }
    }

    /// Returns a mutable slice of the items if they lie in one run of slots, otherwise `None`.
    pub fn as_slice_mut(&mut self) -> (r: Option<&mut [A]>)
        requires
            old(self).wf(),
        ensures
            final(self).first_slot() == old(self).first_slot(),
            old(self).spec_contiguous() ==> r is Some && r->0@ == old(self)@ && (final(r->0)@.len()
                == r->0@.len() ==> final(self).wf() && final(self)@ == final(r->0)@),
            !old(self).spec_contiguous() ==> r is None && final(self).wf() && final(self)@ == old(
                self,
            )@,
    {
        if self.pos.is_contiguous() {
            Some(self.as_slice_unchecked_mut())
        } else {
            None
        }
    }

    /// Returns the front part of the items: those from the first slot up to the
    /// end of the slots. It holds all the items unless they wrap around.
    pub fn front_slice(&self) -> (r: &[A])
        requires
            self.wf(),
        ensures
            r@ == self@.subrange(0, self.spec_front_len() as int),
    {
        proof {
            self.lemma_runs();
        }
        let at = self.pos.at();
        let len = self.pos.front_len();
        vstd::slice::slice_subrange(self.buf.as_slice(), at, at + len)
    }

    /// Returns the back part of the items: those that wrapped around to the
    /// start of the slots. It is empty unless the items wrap around.
    pub fn back_slice(&self) -> (r: &[A])
        requires
            self.wf(),
        ensures
            r@ == self@.subrange(self.spec_front_len() as int, self@.len() as int),
    {
        proof {
            self.lemma_runs();
        }
        let len = self.pos.back_len();
        vstd::slice::slice_subrange(self.buf.as_slice(), 0, len)
    }

    /// Splits the items into the mutable front part and the mutable back part
    /// (see [`front_slice`](Self::front_slice) and [`back_slice`](Self::back_slice)).
    pub fn split_mut_slices(&mut self) -> (r: (&mut [A], &mut [A]))
        requires
            old(self).wf(),
        ensures
            r.0@ == old(self)@.subrange(0, old(self).spec_front_len() as int),
            r.1@ == old(self)@.subrange(old(self).spec_front_len() as int, old(self)@.len() as int),
            final(r.0)@.len() == r.0@.len() && final(r.1)@.len() == r.1@.len() ==> final(self).wf()
                && final(self)@ == final(r.0)@ + final(r.1)@,
            final(self).first_slot() == old(self).first_slot(),
    {
        proof {
            self.lemma_runs();
        }
        let front_len = self.pos.front_len();
        let back_len = self.pos.back_len();
        let at = self.pos.at();
        let ghost pos = self.pos;
        let slots = self.buf.as_mut_slice();
        let (back_run, front_run) = slots.split_at_mut(at);
        let (front, front_rest) = front_run.split_at_mut(front_len);
        let (back, back_rest) = back_run.split_at_mut(back_len);
        proof {
            assert(has_resolved(front_rest));
            assert(has_resolved(back_rest));
            assert forall|m1: Seq<A>, m2: Seq<A>|
                m1.len() == front_len && m2.len() == back_len implies #[trigger] pos.items_in(
                (m2 + back_rest@) + (m1 + front_rest@),
            ) == m1 + m2 && pos.fits(((m2 + back_rest@) + (m1 + front_rest@)).len()) by {
                assert forall|i: int| 0 <= i < pos.spec_len() implies #[trigger] pos.slot(i) == (if i
                    < front_len {
                    at + i
                } else {
                    i - front_len
                }) by {
                    pos.lemma_slot(i);
                }
                assert(pos.items_in((m2 + back_rest@) + (m1 + front_rest@)) =~= m1 + m2);
            }
        }
        (front, back)
    }

    /// Returns the mutable front part of the items (see [`front_slice`](Self::front_slice)).
    pub fn front_slice_mut(&mut self) -> (r: &mut [A])
        requires
            old(self).wf(),
        ensures
            r@ == old(self)@.subrange(0, old(self).spec_front_len() as int),
            final(r)@.len() == r@.len() ==> final(self).wf() && final(self)@ == final(r)@ + old(
                self,
            )@.subrange(old(self).spec_front_len() as int, old(self)@.len() as int),
            final(self).first_slot() == old(self).first_slot(),
    {
        self.split_mut_slices().0
    }

    /// Returns the mutable back part of the items (see [`back_slice`](Self::back_slice)).
    pub fn back_slice_mut(&mut self) -> (r: &mut [A])
        requires
            old(self).wf(),
        ensures
            r@ == old(self)@.subrange(old(self).spec_front_len() as int, old(self)@.len() as int),
            final(r)@.len() == r@.len() ==> final(self).wf() && final(self)@ == old(self)@.subrange(
                0,
                old(self).spec_front_len() as int,
            ) + final(r)@,
            final(self).first_slot() == old(self).first_slot(),
    {
        self.split_mut_slices().1
    }

    /// Copies the items, first to last, into the first slots of `dst`, which
    /// must have room for them; the slots after those are left as they were.
    fn copy_into(&self, dst: &mut Vec<A>)
        requires
            self.wf(),
            old(dst)@.len() >= self@.len(),
        ensures
            final(dst)@.len() == old(dst)@.len(),
            final(dst)@.subrange(0, self@.len() as int) == self@,
            final(dst)@.subrange(self@.len() as int, old(dst)@.len() as int) == old(dst)@.subrange(
                self@.len() as int,
                old(dst)@.len() as int,
            ),
    {
        proof {
            self.lemma_runs();
        }
        let front = self.front_slice();
        let back = self.back_slice();
        let ghost items = front@ + back@;
        assert(items =~= self@);
        let mut i: usize = 0;
        while i < front.len()
            invariant
                i <= front@.len(),
                items == front@ + back@,
                items.len() <= old(dst)@.len(),
                dst@.len() == old(dst)@.len(),
                forall|k: int| 0 <= k < i ==> #[trigger] dst@[k] == items[k],
                forall|k: int| items.len() <= k < dst@.len() ==> #[trigger] dst@[k] == old(dst)@[k],
            decreases front@.len() - i,
        {
            dst[i] = front[i];
            i = i + 1;
        }
        let dst_len = dst.len();
        let mut j: usize = 0;
        while j < back.len()
            invariant
                j <= back@.len(),
                i == front@.len(),
                dst_len == dst@.len(),
                items == front@ + back@,
                items.len() <= old(dst)@.len(),
                dst@.len() == old(dst)@.len(),
                forall|k: int| 0 <= k < i + j ==> #[trigger] dst@[k] == items[k],
                forall|k: int| items.len() <= k < dst@.len() ==> #[trigger] dst@[k] == old(dst)@[k],
            decreases back@.len() - j,
        {
            assert(i + j < items.len());
            dst[i + j] = back[j];
            j = j + 1;
        }
        assert(dst@.subrange(0, self@.len() as int) =~= self@);
        assert(dst@.subrange(self@.len() as int, old(dst)@.len() as int) =~= old(dst)@.subrange(
            self@.len() as int,
            old(dst)@.len() as int,
        ));
    }

    /// Copies the items, first to last, into an array, if the buffer is full.
    /// Otherwise, returns `None`.
    pub fn to_array(&self) -> (r: Option<[A; CAP]>)
        requires
            self.wf(),
        ensures
            r is Some <==> self@.len() == CAP,
            r is Some ==> r->0@ == self@,
    {
        if !self.is_full() {
            return None;
        }
        match vec_into_array(self.to_vec()) {
            Ok(arr) => Some(arr),
            Err(_) => None,
        }
    }

    /// Copies the items, first to last, into a `Vec`.
    pub fn to_vec(&self) -> (r: Vec<A>)
        requires
            self.wf(),
        ensures
            r@ == self@,
    {
        let len = self.len();
        let mut v: Vec<A> = Vec::new();
        if len > 0 {
            // Every slot is written over by `copy_into`; the first item only
            // gives the slots a value to start from.
            let first = *self.get_unchecked(0);
            while v.len() < len
                invariant
                    v@.len() <= len,
                decreases len - v@.len(),
            {
                v.push(first);
            }
        }
        self.copy_into(&mut v);
        assert(v@ =~= v@.subrange(0, self@.len() as int));
        v
    }

    /// Creates a ring buffer holding the items of `arr`, first to last.
    pub fn from<const N: usize>(arr: [A; N]) -> (r: Self)
        requires
            N <= CAP,
        ensures
            r.wf(),
            r@ == arr@,
            r.first_slot() == 0,
    {
        let mut buf: Vec<A> = Vec::new();
        let mut i: usize = 0;
        while i < N
            invariant
                i <= N,
                buf@ == arr@.subrange(0, i as int),
            decreases N - i,
        {
            buf.push(arr[i]);
            i = i + 1;
            assert(buf@ =~= arr@.subrange(0, i as int));
        }
        let r = Self { buf, pos: Pos::new_unchecked(N, 0) };
        proof {
            assert forall|k: int| 0 <= k < N implies #[trigger] r.pos.slot(k) == k by {
                r.pos.lemma_slot(k);
            }
            assert(r@ =~= arr@);
        }
        r
    }

    /// Creates a ring buffer holding `items`, first to last; there must be
    /// room for all of them.
    pub fn from_iter(items: &[A]) -> (r: Self)
        requires
            items@.len() <= CAP,
        ensures
            r.wf(),
            r@ == items@,
            r.first_slot() == 0,
    {
        let mut r = Self::new();
        let mut i: usize = 0;
        while i < items.len()
            invariant
                i <= items@.len(),
                items@.len() <= CAP,
                r.wf(),
                r@ == items@.subrange(0, i as int),
                r.first_slot() == 0,
            decreases items@.len() - i,
        {
            r.push(items[i]);
            i = i + 1;
            assert(r@ =~= items@.subrange(0, i as int));
        }
        assert(r@ =~= items@);
        r
    }

    /// Adds `items` to the end, first to last, removing items from the front
    /// as needed to make room: the buffer ends up holding the last `CAP` items
    /// of its old contents followed by `items`. `CAP` must be positive.
    pub fn extend(&mut self, items: &[A])
        requires
            old(self).wf(),
            CAP > 0,
        ensures
            final(self).wf(),
            final(self)@ == last_n(old(self)@ + items@, CAP as nat),
            final(self).first_slot() == old(self).first_slot_after(
                excess(old(self)@.len() + items@.len(), CAP as nat) as int,
            ),
    {
        let mut i: usize = 0;
        proof {
            old(self).lemma_bounded();
            if CAP > 0 {
                vstd::arithmetic::div_mod::lemma_small_mod(old(self).first_slot(), CAP as nat);
            }
        }
        proof {
            assert(old(self)@ + items@.subrange(0, 0) =~= old(self)@);
            lemma_last_n_short(old(self)@, CAP as nat);
        }
        while i < items.len()
            invariant
                i <= items@.len(),
                CAP > 0,
                self.wf(),
                self@ == last_n(old(self)@ + items@.subrange(0, i as int), CAP as nat),
                self.first_slot() == old(self).first_slot_after(
                    excess((old(self)@.len() + i) as nat, CAP as nat) as int,
                ),
            decreases items@.len() - i,
        {
            let ghost before = old(self)@ + items@.subrange(0, i as int);
            self.pop_push(items[i]);
            proof {
                lemma_mod_step(
                    (old(self).first_slot() + excess((old(self)@.len() + i) as nat, CAP as nat)) as int,
                    CAP as int,
                );
                lemma_last_n_push(before, items@[i as int], CAP as nat);
                assert(before.push(items@[i as int]) =~= old(self)@ + items@.subrange(0, i + 1));
            }
            i = i + 1;
        }
        assert(old(self)@ + items@.subrange(0, i as int) =~= old(self)@ + items@);
    }

    /// Returns an iterator over the items, first to last.
    pub fn iter(&self) -> (r: Iter<'_, A, CAP>)
        requires
            self.wf(),
        ensures
            r@ == self@,
    {
        Iter::new(self.buf.as_slice(), self.pos)
    }

    /// Returns an iterator over mutable references to the items, first to last.
    pub fn iter_mut(&mut self) -> (r: IterMut<'_, A, CAP>)
        requires
            old(self).wf(),
        ensures
            r.wf(),
            *r.buf == *old(self),
            *final(r.buf) == *final(self),
            r.front == 0,
            r.back == old(self)@.len(),
            r@ == old(self)@,
    {
        IterMut::new(self)
    }

    /// Removes all items from the ring buffer.
    pub fn clear(&mut self)
        requires
            old(self).wf(),
        ensures
            final(self).wf(),
            final(self)@ == Seq::<A>::empty(),
            final(self).first_slot() == 0,
    {
        *self = Self::new();
    }
}

impl<A: Copy, const CAP: usize> Default for RingBuffer<A, CAP> {
    /// Creates a new empty ring buffer.
    fn default() -> (r: Self)
        ensures
            r.wf(),
            r@ == Seq::<A>::empty(),
            r.first_slot() == 0,
    {
        Self::new()
    }
}

impl<A: Copy, const CAP: usize> Clone for RingBuffer<A, CAP> {
    /// Copies the ring buffer, slot for slot.
    fn clone(&self) -> (r: Self)
        ensures
            r@ == self@,
            r.first_slot() == self.first_slot(),
            self.wf() ==> r.wf(),
    {
        let mut buf: Vec<A> = Vec::new();
        let mut i: usize = 0;
        while i < self.buf.len()
            invariant
                i <= self.buf@.len(),
                buf@ == self.buf@.subrange(0, i as int),
            decreases self.buf@.len() - i,
        {
            buf.push(self.buf[i]);
            i = i + 1;
            assert(buf@ =~= self.buf@.subrange(0, i as int));
        }
        assert(buf@ =~= self.buf@);
        Self { buf, pos: self.pos }
    }
}

impl<A: Copy + PartialEq, const CAP: usize> RingBuffer<A, CAP> {
    /// The two buffers hold equally many items, each of which sits in a filled
    /// slot and equals, by `A`'s `==`, the item at the same place in the other.
    pub closed spec fn items_eq(&self, other: &Self) -> bool {
        &&& self.pos.spec_len() == other.pos.spec_len()
        &&& forall|i: int|
            0 <= i < self.pos.spec_len() ==> {
                &&& 0 <= #[trigger] self.pos.slot(i) < self.buf@.len()
                &&& 0 <= other.pos.slot(i) < other.buf@.len()
                &&& self.buf@[self.pos.slot(i)].eq_spec(&other.buf@[other.pos.slot(i)])
            }
    }

    /// For valid buffers, `==` compares the items one by one, first to last.
    pub proof fn lemma_items_eq(&self, other: &Self)
        requires
            self.wf(),
            other.wf(),
        ensures
            self.items_eq(other) <==> (self@.len() == other@.len() && forall|i: int|
                0 <= i < self@.len() ==> #[trigger] self@[i].eq_spec(&other@[i])),
    {
        self.lemma_slots_filled();
        other.lemma_slots_filled();
        assert forall|i: int| 0 <= i < self@.len() && i < other@.len() implies #[trigger] self@[i] == self.buf@[self.pos.slot(
            i,
        )] && other@[i] == other.buf@[other.pos.slot(i)] by {}
        if self@.len() == other@.len() && forall|i: int|
            0 <= i < self@.len() ==> #[trigger] self@[i].eq_spec(&other@[i]) {
            assert forall|i: int| 0 <= i < self.pos.spec_len() implies {
                &&& 0 <= #[trigger] self.pos.slot(i) < self.buf@.len()
                &&& 0 <= other.pos.slot(i) < other.buf@.len()
                &&& self.buf@[self.pos.slot(i)].eq_spec(&other.buf@[other.pos.slot(i)])
            } by {
                assert(self@[i].eq_spec(&other@[i]));
            }
        }
    }
}

impl<A: Copy + PartialEq, const CAP: usize> PartialEq for RingBuffer<A, CAP> {
    /// Compares the items one by one, first to last.
    fn eq(&self, other: &Self) -> (r: bool) {
        proof {
            use_type_invariant(&self.pos);
            use_type_invariant(&other.pos);
        }
        let len = self.pos.len();
        if len != other.pos.len() {
            return false;
        }
        let mut i: usize = 0;
        while i < len
            invariant
                i <= len,
                len == self.pos.spec_len(),
                len == other.pos.spec_len(),
                self.pos.wf(),
                other.pos.wf(),
                forall|k: int|
                    0 <= k < i ==> {
                        &&& 0 <= #[trigger] self.pos.slot(k) < self.buf@.len()
                        &&& 0 <= other.pos.slot(k) < other.buf@.len()
                        &&& A::obeys_eq_spec() ==> self.buf@[self.pos.slot(k)].eq_spec(
                            &other.buf@[other.pos.slot(k)],
                        )
                    },
            decreases len - i,
        {
            let a = self.pos.logical_index(i);
            let b = other.pos.logical_index(i);
            if a >= self.buf.len() || b >= other.buf.len() {
                return false;
            }
            if !self.buf[a].eq(&other.buf[b]) {
                return false;
            }
            i = i + 1;
        }
        true
    }
}

impl<A: Copy + PartialEq, const CAP: usize> vstd::std_specs::cmp::PartialEqSpecImpl for RingBuffer<A, CAP> {
    open spec fn obeys_eq_spec() -> bool {
        A::obeys_eq_spec()
    }

    open spec fn eq_spec(&self, other: &Self) -> bool {
        self.items_eq(other)
    }
}

impl<A: Copy, const CAP: usize> RingBuffer<A, CAP> {
    /// The filled slots hold every live item (true of every valid buffer).
    pub closed spec fn slots_cover_items(&self) -> bool {
        self.pos.wf() && self.pos.covered_by(self.buf@.len())
    }

    /// Checks that the filled slots hold every live item.
    fn check_slots(&self) -> (r: bool)
        ensures
            r == self.slots_cover_items(),
    {
        proof {
            use_type_invariant(&self.pos);
        }
        let filled = self.buf.len();
        filled <= CAP && (filled == CAP || (self.pos.at() <= filled && self.pos.len() <= filled
            - self.pos.at()))
    }

    /// When the filled slots hold every live item, item `i` sits in slot
    /// `slot(i)`.
    proof fn lemma_covered_items(&self)
        requires
            self.slots_cover_items(),
        ensures
            self@.len() == self.pos.spec_len(),
            forall|i: int|
                0 <= i < self.pos.spec_len() ==> 0 <= #[trigger] self.pos.slot(i) < self.buf@.len()
                    && self@[i] == self.buf@[self.pos.slot(i)],
    {
        self.pos.lemma_covered(self.buf@.len());
    }

    /// The items from index `i` on.
    spec fn items_from(&self, i: usize) -> Seq<A> {
        self@.skip(i as int)
    }

    /// The item at `index`, read from its slot when that slot is filled.
    fn item_at(&self, index: usize) -> (r: &A)
        requires
            self.slots_cover_items(),
            index < self@.len(),
        ensures
            *r == self@[index as int],
            self.items_from(index)[0] == *r,
            self.items_from(index).len() > 0,
            self.items_from(index).drop_first() == self.items_from((index + 1) as usize),
    {
        proof {
            use_type_invariant(&self.pos);
            self.lemma_covered_items();
            assert(self.items_from(index).drop_first() =~= self.items_from((index + 1) as usize));
        }
        let slot = self.pos.logical_index(index);
        &self.buf[slot]
    }

    /// The items from the end on: none.
    proof fn lemma_items_from_end(&self, i: usize)
        requires
            i == self@.len(),
        ensures
            self.items_from(i) == Seq::<A>::empty(),
    {
        assert(self.items_from(i) =~= Seq::<A>::empty());
    }

    /// The items from the start on: all of them.
    proof fn lemma_items_from_start(&self)
        ensures
            self.items_from(0) == self@,
    {
        assert(self.items_from(0) =~= self@);
    }
}

/// Compares two sequences lexicographically by `A`'s `partial_cmp`: the first
/// pair of items that do not compare equal decides; otherwise the shorter
/// sequence is less.
pub open spec fn lex_partial_cmp<A: PartialOrd>(a: Seq<A>, b: Seq<A>) -> Option<Ordering>
    decreases a.len(),
{
    if a.len() == 0 {
        if b.len() == 0 {
            Some(Ordering::Equal)
        } else {
            Some(Ordering::Less)
        }
    } else if b.len() == 0 {
        Some(Ordering::Greater)
    } else {
        match a[0].partial_cmp_spec(&b[0]) {
            Some(Ordering::Equal) => lex_partial_cmp(a.drop_first(), b.drop_first()),
            other => other,
        }
    }
}

/// The length of the shorter of two sequences.
spec fn shorter_len<A>(a: Seq<A>, b: Seq<A>) -> int {
    if a.len() < b.len() {
        a.len() as int
    } else {
        b.len() as int
    }
}

/// Items that compare equal, place by place, over a common first stretch
/// leave the comparison to what follows that stretch.
proof fn lemma_lex_equal_prefix<A: PartialOrd>(a: Seq<A>, b: Seq<A>, k: int)
    requires
        0 <= k <= a.len(),
        k <= b.len(),
        forall|i: int| 0 <= i < k ==> #[trigger] a[i].partial_cmp_spec(&b[i]) == Some(Ordering::Equal),
    ensures
        lex_partial_cmp(a, b) == lex_partial_cmp(a.skip(k), b.skip(k)),
    decreases k,
{
    if k == 0 {
        assert(a.skip(0) =~= a);
        assert(b.skip(0) =~= b);
    } else {
        assert(a[0].partial_cmp_spec(&b[0]) == Some(Ordering::Equal));
        assert forall|i: int| 0 <= i < k - 1 implies #[trigger] a.drop_first()[i].partial_cmp_spec(
            &b.drop_first()[i],
        ) == Some(Ordering::Equal) by {
            assert(a[i + 1].partial_cmp_spec(&b[i + 1]) == Some(Ordering::Equal));
        }
        lemma_lex_equal_prefix(a.drop_first(), b.drop_first(), k - 1);
        assert(a.drop_first().skip(k - 1) =~= a.skip(k));
        assert(b.drop_first().skip(k - 1) =~= b.skip(k));
    }
}

impl<A: Copy + PartialOrd, const CAP: usize> PartialOrd for RingBuffer<A, CAP> {
    /// Compares the items lexicographically, first to last.
    fn partial_cmp(&self, other: &Self) -> (r: Option<Ordering>) {
        if !self.check_slots() || !other.check_slots() {
            return None;
        }
        let len_a = self.pos.len();
        let len_b = other.pos.len();
        let n = if len_a < len_b {
            len_a
        } else {
            len_b
        };
        proof {
            self.lemma_covered_items();
            other.lemma_covered_items();
            self.lemma_items_from_start();
            other.lemma_items_from_start();
        }
        let mut i: usize = 0;
        while i < n
            invariant
                i <= n,
                n <= len_a,
                n <= len_b,
                len_a == self@.len(),
                len_b == other@.len(),
                n == len_a || n == len_b,
                self.slots_cover_items(),
                other.slots_cover_items(),
                A::obeys_partial_cmp_spec() ==> lex_partial_cmp(self@, other@) == lex_partial_cmp(
                    self.items_from(i),
                    other.items_from(i),
                ),
            decreases n - i,
        {
            let x = self.item_at(i);
            let y = other.item_at(i);
            let c = x.partial_cmp(y);
            match c {
                Some(Ordering::Equal) => {},
                _ => {
                    return c;
                },
            }
            i = i + 1;
        }
        proof {
            if i == len_a {
                self.lemma_items_from_end(i);
            }
            if i == len_b {
                other.lemma_items_from_end(i);
            }
        }
        if len_a < len_b {
            Some(Ordering::Less)
        } else if len_a > len_b {
            Some(Ordering::Greater)
        } else {
            Some(Ordering::Equal)
        }
    }
}

impl<A: Copy + PartialEq, const CAP: usize> RingBuffer<A, CAP> {
    /// The slots hold the buffer's items, and they equal `items` one by one,
    /// by `A`'s `==`.
    pub closed spec fn items_eq_seq(&self, items: Seq<A>) -> bool {
        &&& self.slots_cover_items()
        &&& self@.len() == items.len()
        &&& forall|i: int| 0 <= i < items.len() ==> #[trigger] self@[i].eq_spec(&items[i])
    }

    /// For a valid buffer, comparing with a sequence of items compares the
    /// items one by one, first to last.
    pub proof fn lemma_items_eq_seq(&self, items: Seq<A>)
        requires
            self.wf(),
        ensures
            self.items_eq_seq(items) <==> (self@.len() == items.len() && forall|i: int|
                0 <= i < items.len() ==> #[trigger] self@[i].eq_spec(&items[i])),
    {
    }

    /// Compares the items with `other`, one by one, first to last.
    fn eq_items(&self, other: &[A]) -> (r: bool)
        ensures
            A::obeys_eq_spec() ==> r == self.items_eq_seq(other@),
    {
        if !self.check_slots() {
            return false;
        }
        proof {
            self.lemma_covered_items();
        }
        let len = self.pos.len();
        if len != other.len() {
            return false;
        }
        let mut i: usize = 0;
        while i < len
            invariant
                i <= len,
                len == self@.len(),
                len == other@.len(),
                self.slots_cover_items(),
                A::obeys_eq_spec() ==> forall|k: int|
                    0 <= k < i ==> #[trigger] self@[k].eq_spec(&other@[k]),
            decreases len - i,
        {
            let x = self.item_at(i);
            if !x.eq(&other[i]) {
                return false;
            }
            i = i + 1;
        }
        true
    }
}

impl<A: Copy + PartialEq, const CAP: usize> PartialEq<[A]> for RingBuffer<A, CAP> {
    /// Compares the items with the slice's, one by one, first to last.
    fn eq(&self, other: &[A]) -> (r: bool) {
        self.eq_items(other)
    }
}

impl<A: Copy + PartialEq, const CAP: usize> vstd::std_specs::cmp::PartialEqSpecImpl<[A]> for RingBuffer<A, CAP> {
    open spec fn obeys_eq_spec() -> bool {
        A::obeys_eq_spec()
    }

    open spec fn eq_spec(&self, other: &[A]) -> bool {
        self.items_eq_seq(other@)
    }
}

impl<'a, A: Copy + PartialEq, const CAP: usize> PartialEq<&'a [A]> for RingBuffer<A, CAP> {
    /// Compares the items with the slice's, one by one, first to last.
    fn eq(&self, other: &&'a [A]) -> (r: bool) {
        self.eq_items(*other)
    }
}

impl<'a, A: Copy + PartialEq, const CAP: usize> vstd::std_specs::cmp::PartialEqSpecImpl<&'a [A]> for RingBuffer<A, CAP> {
    open spec fn obeys_eq_spec() -> bool {
        A::obeys_eq_spec()
    }

    open spec fn eq_spec(&self, other: &&'a [A]) -> bool {
        self.items_eq_seq(other@)
    }
}

impl<A: Copy + PartialEq, const CAP: usize, const N: usize> PartialEq<[A; N]> for RingBuffer<A, CAP> {
    /// Compares the items with the array's, one by one, first to last.
    fn eq(&self, other: &[A; N]) -> (r: bool) {
        self.eq_items(other.as_slice())
    }
}

impl<A: Copy + PartialEq, const CAP: usize, const N: usize> vstd::std_specs::cmp::PartialEqSpecImpl<[A; N]> for RingBuffer<A, CAP> {
    open spec fn obeys_eq_spec() -> bool {
        A::obeys_eq_spec()
    }

    open spec fn eq_spec(&self, other: &[A; N]) -> bool {
        self.items_eq_seq(other@)
    }
}

impl<A: Copy + PartialEq, const CAP: usize> PartialEq<Vec<A>> for RingBuffer<A, CAP> {
    /// Compares the items with the vector's, one by one, first to last.
    fn eq(&self, other: &Vec<A>) -> (r: bool) {
        self.eq_items(other.as_slice())
    }
}

impl<A: Copy + PartialEq, const CAP: usize> vstd::std_specs::cmp::PartialEqSpecImpl<Vec<A>> for RingBuffer<A, CAP> {
    open spec fn obeys_eq_spec() -> bool {
        A::obeys_eq_spec()
    }

    open spec fn eq_spec(&self, other: &Vec<A>) -> bool {
        self.items_eq_seq(other@)
    }
}

impl<A: Copy + PartialEq, const CAP: usize> RingBuffer<A, CAP> {
    /// `==` between two valid buffers holds exactly when they hold equally
    /// many items and the items at each place are equal by `A`'s `==`,
    /// whatever slots the items lie in.
    pub proof fn lemma_eq_buffers(&self, other: &Self)
        requires
            self.wf(),
            other.wf(),
        ensures
            self.eq_spec(other) <==> (self@.len() == other@.len() && forall|i: int|
                0 <= i < self@.len() ==> #[trigger] self@[i].eq_spec(&other@[i])),
    {
        self.lemma_items_eq(other);
    }

    /// `==` between a valid buffer and a slice holds exactly when they hold
    /// equally many items and the items at each place are equal by `A`'s `==`.
    pub proof fn lemma_eq_slice(&self, other: &[A])
        requires
            self.wf(),
        ensures
            self.eq_spec(other) <==> (self@.len() == other@.len() && forall|i: int|
                0 <= i < other@.len() ==> #[trigger] self@[i].eq_spec(&other@[i])),
    {
        self.lemma_items_eq_seq(other@);
    }

    /// `==` between a valid buffer and a slice reference holds exactly when
    /// they hold equally many items and the items at each place are equal by
    /// `A`'s `==`.
    pub proof fn lemma_eq_slice_ref(&self, other: &&[A])
        requires
            self.wf(),
        ensures
            self.eq_spec(other) <==> (self@.len() == other@.len() && forall|i: int|
                0 <= i < other@.len() ==> #[trigger] self@[i].eq_spec(&other@[i])),
    {
        self.lemma_items_eq_seq(other@);
    }

    /// `==` between a valid buffer and an array holds exactly when they hold
    /// equally many items and the items at each place are equal by `A`'s `==`.
    pub proof fn lemma_eq_array<const N: usize>(&self, other: &[A; N])
        requires
            self.wf(),
        ensures
            self.eq_spec(other) <==> (self@.len() == other@.len() && forall|i: int|
                0 <= i < other@.len() ==> #[trigger] self@[i].eq_spec(&other@[i])),
    {
        self.lemma_items_eq_seq(other@);
    }

    /// `==` between a valid buffer and a vector holds exactly when they hold
    /// equally many items and the items at each place are equal by `A`'s `==`.
    pub proof fn lemma_eq_vec(&self, other: &Vec<A>)
        requires
            self.wf(),
        ensures
            self.eq_spec(other) <==> (self@.len() == other@.len() && forall|i: int|
                0 <= i < other@.len() ==> #[trigger] self@[i].eq_spec(&other@[i])),
    {
        self.lemma_items_eq_seq(other@);
    }
}

impl<A: Copy + Eq, const CAP: usize> Eq for RingBuffer<A, CAP> {

}

impl<A: Copy + PartialOrd, const CAP: usize> RingBuffer<A, CAP> {
    /// For valid buffers, `partial_cmp` compares the items lexicographically,
    /// whatever slots they lie in.
    pub proof fn lemma_partial_cmp_items(&self, other: &Self)
        requires
            self.wf(),
            other.wf(),
        ensures
            self.partial_cmp_spec(other) == lex_partial_cmp(self@, other@),
    {
    }

    /// The first place where the items do not compare equal decides the
    /// comparison of two valid buffers: it gives what that pair of items gives
    /// (`Less`, `Greater`, or `None` when they cannot be compared).
    pub proof fn lemma_partial_cmp_first_difference(&self, other: &Self, k: int)
        requires
            self.wf(),
            other.wf(),
            0 <= k < self@.len(),
            k < other@.len(),
            forall|i: int| 0 <= i < k ==> #[trigger] self@[i].partial_cmp_spec(&other@[i]) == Some(Ordering::Equal),
            self@[k].partial_cmp_spec(&other@[k]) != Some(Ordering::Equal),
        ensures
            self.partial_cmp_spec(other) == self@[k].partial_cmp_spec(&other@[k]),
    {
        lemma_lex_equal_prefix(self@, other@, k);
        assert(self@.skip(k)[0] == self@[k]);
        assert(other@.skip(k)[0] == other@[k]);
    }

    /// When one buffer's items equal the other's, place by place, as far as
    /// the shorter one goes, the shorter buffer is less, and buffers of the
    /// same length are equal.
    pub proof fn lemma_partial_cmp_common_prefix(&self, other: &Self)
        requires
            self.wf(),
            other.wf(),
            forall|i: int|
                0 <= i < self@.len() && i < other@.len() ==> #[trigger] self@[i].partial_cmp_spec(&other@[i])
                    == Some(Ordering::Equal),
        ensures
            self@.len() < other@.len() ==> self.partial_cmp_spec(other) == Some(Ordering::Less),
            self@.len() > other@.len() ==> self.partial_cmp_spec(other) == Some(Ordering::Greater),
            self@.len() == other@.len() ==> self.partial_cmp_spec(other) == Some(Ordering::Equal),
    {
        let k = shorter_len(self@, other@);
        lemma_lex_equal_prefix(self@, other@, k);
    }

    /// When the first items of two valid buffers compare equal, the buffers
    /// compare as the buffers without their first items do.
    pub proof fn lemma_partial_cmp_rest(&self, other: &Self, rest: &Self, other_rest: &Self)
        requires
            self.wf(),
            other.wf(),
            rest.wf(),
            other_rest.wf(),
            self@.len() > 0,
            other@.len() > 0,
            self@[0].partial_cmp_spec(&other@[0]) == Some(Ordering::Equal),
            rest@ == self@.drop_first(),
            other_rest@ == other@.drop_first(),
        ensures
            self.partial_cmp_spec(other) == rest.partial_cmp_spec(other_rest),
    {
    }
}

impl<A: Copy + PartialOrd, const CAP: usize> vstd::std_specs::cmp::PartialOrdSpecImpl for RingBuffer<A, CAP> {
    open spec fn obeys_partial_cmp_spec() -> bool {
        A::obeys_partial_cmp_spec()
    }

    open spec fn partial_cmp_spec(&self, other: &Self) -> Option<Ordering> {
        if self.slots_cover_items() && other.slots_cover_items() {
            lex_partial_cmp(self@, other@)
        } else {
            None
        }
    }
}

/// The last `n` items of `s` (all of `s` if it has no more than `n`).
pub open spec fn last_n<T>(s: Seq<T>, n: nat) -> Seq<T> {
    if s.len() <= n {
        s
    } else {
        s.subrange(s.len() - n, s.len() as int)
    }
}

/// How far `total` exceeds `bound` (zero if it does not).
pub open spec fn excess(total: nat, bound: nat) -> nat {
    if total > bound {
        (total - bound) as nat
    } else {
        0
    }
}

/// A sequence no longer than the bound keeps all its items.
pub proof fn lemma_last_n_short<T>(s: Seq<T>, n: nat)
    requires
        s.len() <= n,
    ensures
        last_n(s, n) == s,
{
}

/// Keeping the last `n` items of a sequence grown by one item is keeping the
/// last `n` of the sequence before, dropping the first of them when they
/// already number `n`, and adding the new item.
pub proof fn lemma_last_n_push<T>(s: Seq<T>, x: T, n: nat)
    requires
        n > 0,
    ensures
        last_n(s.push(x), n) == (if last_n(s, n).len() == n {
            last_n(s, n).drop_first().push(x)
        } else {
            last_n(s, n).push(x)
        }),
{
    if s.len() < n {
    } else {
        assert(last_n(s.push(x), n) =~= last_n(s, n).drop_first().push(x));
    }
}

/// Extending with `a` and then with `b` is extending with `a` followed by
/// `b`: keeping the last `n` items twice over keeps the same items as once.
pub proof fn lemma_last_n_concat<T>(s: Seq<T>, a: Seq<T>, b: Seq<T>, n: nat)
    ensures
        last_n(last_n(s + a, n) + b, n) == last_n(s + a + b, n),
{
    let t = s + a;
    let k = last_n(t, n);
    if t.len() <= n {
        assert(k == t);
    } else {
        let whole = t + b;
        let part = k + b;
        assert(part =~= whole.subrange(t.len() - n, whole.len() as int));
        if part.len() <= n {
            assert(last_n(whole, n) =~= part);
        } else {
            assert(last_n(part, n) =~= last_n(whole, n));
        }
    }
}

/// Extending with at least `n` items leaves only the last `n` of them,
/// whatever the buffer held before.
pub proof fn lemma_last_n_overwrites<T>(s: Seq<T>, a: Seq<T>, n: nat)
    requires
        a.len() >= n,
    ensures
        last_n(s + a, n) == last_n(a, n),
{
    if a.len() == n {
        assert(last_n(s + a, n) =~= a);
    } else {
        assert(last_n(s + a, n) =~= last_n(a, n));
    }
}

/// Items leave a ring buffer in the order they came in: adding an item at the
/// back changes neither the first item nor what follows it, but for the new
/// item at the end.
pub proof fn lemma_fifo<T>(s: Seq<T>, x: T)
    requires
        s.len() > 0,
    ensures
        s.push(x)[0] == s[0],
        s.push(x).drop_first() == s.drop_first().push(x),
{
    assert(s.push(x).drop_first() =~= s.drop_first().push(x));
}

/// `<[A; N]>::try_from(Vec<A>)`, std's conversion of a vector into an array.
/// As its documentation says, it succeeds exactly when the vector holds `N`
/// items, and the array then holds them in order; on failure it hands the
/// vector back unchanged.
#[verifier::external_body]
fn vec_into_array<A, const N: usize>(v: Vec<A>) -> (r: Result<[A; N], Vec<A>>)
    ensures
        r is Ok <==> v@.len() == N,
        r is Ok ==> r->Ok_0@ == v@,
        r is Err ==> r->Err_0@ == v@,
{
    <[A; N]>::try_from(v)
}

} // verus!
