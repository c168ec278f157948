use vstd::prelude::*;

use crate::RingBuffer;

verus! {

/// Room for one more item at the end of a ring buffer, handed out by
/// [`RingBuffer::with_vacancy`].
pub struct VacantEntry<'buf, A: Copy, const CAP: usize>(pub &'buf mut RingBuffer<A, CAP>);

impl<'buf, A: Copy, const CAP: usize> VacantEntry<'buf, A, CAP> {
    /// The buffer as it stands now.
    pub open spec fn buffer(&self) -> RingBuffer<A, CAP> {
        *self.0
    }

    pub(crate) fn new_unchecked(buf: &'buf mut RingBuffer<A, CAP>) -> (r: Self)
        requires
            old(buf).wf(),
            old(buf)@.len() < CAP,
        ensures
            r.buffer() == *old(buf),
            *final(r.0) == *final(buf),
    {
        Self(buf)
    }
}

impl<A: Copy, const CAP: usize> VacantEntry<'_, A, CAP> {
    /// Writes `item` at the end of the buffer, which must still have room for it.
    pub fn write(&mut self, item: A)
        requires
            old(self).buffer().wf(),
            old(self).buffer()@.len() < CAP,
        ensures
            final(self).buffer().wf(),
            final(self).buffer()@ == old(self).buffer()@.push(item),
            final(self).buffer().first_slot() == old(self).buffer().first_slot(),
            *final(final(self).0) == *final(old(self).0),
    {
        self.0.push_unchecked(item);
    }
}

} // verus!
