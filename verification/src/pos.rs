use vstd::prelude::*;

verus! {

/// Proof that a value below twice the modulus wraps at most once.
pub proof fn lemma_wrap_once(x: int, m: int)
    requires
        0 < m,
        0 <= x < 2 * m,
    ensures
        x % m == (if x < m { x } else { x - m }),
{
    if x < m {
        vstd::arithmetic::div_mod::lemma_small_mod(x as nat, m as nat);
    } else {
        vstd::arithmetic::div_mod::lemma_small_mod((x - m) as nat, m as nat);
        vstd::arithmetic::div_mod::lemma_mod_add_multiples_vanish(x - m, m);
    }
}

/// Stepping one further from a remainder steps one further from the number.
pub proof fn lemma_mod_step(x: int, m: int)
    requires
        0 < m,
    ensures
        ((x % m) + 1) % m == (x + 1) % m,
{
    vstd::arithmetic::div_mod::lemma_add_mod_noop_right(1, x, m);
}

/// Where the live items of a ring buffer with room for `CAP` items lie:
/// `len` items, the first of them in physical slot `at`, wrapping around
/// to slot 0 past the end.
#[derive(Debug, Clone, Copy)]
pub struct Pos<const CAP: usize> {
    len: usize,
    at: usize,
}

impl<const CAP: usize> Pos<CAP> {
    /// The number of live items.
    pub closed spec fn spec_len(&self) -> nat {
        self.len as nat
    }

    /// The physical slot of the first live item.
    pub closed spec fn spec_at(&self) -> nat {
        self.at as nat
    }

    /// `len <= CAP`, and `at < CAP` (or `CAP == 0` and `at == 0`).
    #[verifier::type_invariant]
    pub open spec fn wf(&self) -> bool {
        &&& self.spec_len() <= CAP
        &&& (self.spec_at() < CAP || (CAP == 0 && self.spec_at() == 0))
    }

    /// The live items do not wrap past the end of the buffer.
    pub open spec fn spec_contiguous(&self) -> bool {
        self.spec_at() + self.spec_len() <= CAP
    }

    /// The number of live items that wrapped around to the start of the buffer.
    pub open spec fn spec_back_len(&self) -> nat {
        if self.spec_contiguous() {
            0
        } else {
            (self.spec_at() + self.spec_len() - CAP) as nat
        }
    }

    /// The number of live items from slot `at` up to the end of the buffer.
    pub open spec fn spec_front_len(&self) -> nat {
        (self.spec_len() - self.spec_back_len()) as nat
    }

    /// The physical slot that holds the item at logical `index`.
    pub open spec fn slot(&self, index: int) -> int {
        (self.spec_at() + index) % (CAP as int)
    }

    /// The live items, read from `slots` (the physical storage).
    pub open spec fn items_in<A>(&self, slots: Seq<A>) -> Seq<A> {
        Seq::new(self.spec_len(), |i: int| slots[self.slot(i)])
    }

    /// `filled` slots (`0..filled`) hold the live items: either all `CAP` slots
    /// are filled, or the live items end exactly at the last filled one.
    pub open spec fn fits(&self, filled: nat) -> bool {
        &&& filled <= CAP
        &&& (filled == CAP || self.spec_at() + self.spec_len() == filled)
    }

    /// The live items lie within the first `filled` slots: either all `CAP`
    /// slots are filled, or the live items end at or before the last filled one.
    pub open spec fn covered_by(&self, filled: nat) -> bool {
        &&& filled <= CAP
        &&& (filled == CAP || self.spec_at() + self.spec_len() <= filled)
    }

    /// Every live item lies in one of the slots that cover them.
    pub proof fn lemma_covered(&self, filled: nat)
        requires
            self.wf(),
            self.covered_by(filled),
        ensures
            forall|i: int|
                0 <= i < self.spec_len() ==> 0 <= #[trigger] self.slot(i) < filled,
    {
        assert forall|i: int| 0 <= i < self.spec_len() implies 0 <= #[trigger] self.slot(i) < filled by {
            self.lemma_slot(i);
        }
    }

    /// The slot of logical `index`, written without `%`.
    pub proof fn lemma_slot(&self, index: int)
        requires
            self.wf(),
            CAP > 0,
            0 <= index <= CAP,
        ensures
            self.slot(index) == (if self.spec_at() + index < CAP {
                self.spec_at() + index
            } else {
                self.spec_at() + index - CAP
            }),
            0 <= self.slot(index) < CAP,
    {
        lemma_wrap_once(self.spec_at() + index, CAP as int);
    }

    /// Creates a position with the given length and first slot.
    pub fn new_unchecked(len: usize, at: usize) -> (r: Self)
        requires
            len <= CAP,
            at < CAP || (CAP == 0 && at == 0),
        ensures
            r.wf(),
            r.spec_len() == len,
            r.spec_at() == at,
    {
        Self { len, at }
    }

    /// The position of an empty buffer.
    pub fn zero() -> (r: Self)
        ensures
            r.wf(),
            r.spec_len() == 0,
            r.spec_at() == 0,
    {
        Self { len: 0, at: 0 }
    }

    /// The number of live items.
    pub fn len(&self) -> (r: usize)
        ensures
            r == self.spec_len(),
    {
        self.len
    }

    /// Sets the number of live items, keeping the first slot.
    pub fn set_len(&mut self, len: usize)
        requires
            len <= CAP,
        ensures
            final(self).spec_len() == len,
            final(self).spec_at() == old(self).spec_at(),
    {
        proof {
            use_type_invariant(&*self);
        }
        self.len = len;
    }

    /// Sets the number of live items to zero, keeping the first slot.
    pub fn clear_len(&mut self)
        ensures
            final(self).spec_len() == 0,
            final(self).spec_at() == old(self).spec_at(),
    {
        self.set_len(0);
    }

    /// The slot of the first live item.
    pub fn at(&self) -> (r: usize)
        ensures
            r == self.spec_at(),
    {
        self.at
    }

    /// There are no live items.
    pub fn is_empty(&self) -> (r: bool)
        ensures
            r == (self.spec_len() == 0),
    {
        self.len == 0
    }

    /// All `CAP` slots hold live items.
    pub fn is_full(&self) -> (r: bool)
        ensures
            r == (self.spec_len() == CAP),
    {
        self.len == CAP
    }

    /// The live items do not wrap past the end of the buffer.
    pub fn is_contiguous(&self) -> (r: bool)
        ensures
            r == self.spec_contiguous(),
    {
        proof {
            use_type_invariant(self);
        }
        self.len <= CAP - self.at
    }

    /// The number of live items from slot `at` up to the end of the buffer
    /// (all of them unless they wrap around).
    pub fn front_len(&self) -> (r: usize)
        ensures
            r == self.spec_front_len(),
    {
        proof {
            use_type_invariant(self);
        }
        self.len - self.back_len()
    }

    /// The number of live items that wrapped around to slot 0 (none unless
    /// they reach past the end of the buffer).
    pub fn back_len(&self) -> (r: usize)
        ensures
            r == self.spec_back_len(),
    {
        proof {
            use_type_invariant(self);
        }
        if self.is_contiguous() {
            0
        } else {
            proof {
                lemma_wrap_once(self.at + self.len, CAP as int);
            }
            self.logical_index(self.len)
        }
    }

    /// The physical slot that holds the item at logical `index`.
    pub fn logical_index(&self, index: usize) -> (r: usize)
        requires
            CAP > 0,
        ensures
            r == self.slot(index as int),
            r < CAP,
    {
        proof {
            use_type_invariant(self);
        }
        let room = CAP - self.at;
        if index < room {
            proof {
                lemma_wrap_once(self.at + index, CAP as int);
            }
            self.at + index
        } else {
            let r = (index - room) % CAP;
            proof {
                vstd::arithmetic::div_mod::lemma_mod_add_multiples_vanish(index - room, CAP as int);
            }
            r
        }
    }

    /// Moves the first slot `n` items forward, keeping the length.
    pub fn advance(&mut self, n: usize)
        requires
            CAP > 0,
        ensures
            final(self).spec_at() == old(self).slot(n as int),
            final(self).spec_len() == old(self).spec_len(),
    {
        proof {
            use_type_invariant(&*self);
        }
        self.at = self.logical_index(n);
    }
}

} // verus!
