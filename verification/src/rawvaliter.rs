//! The cursor pair that moves elements out of a run of slots from either end.
//! It holds positions only: the buffer is handed to each step.

use crate::rawvec::RawVec;
use core::marker::PhantomData;
use vstd::prelude::*;

verus! {

/// What a step from the front of `s` yields, and what is left of `s`: the
/// first value and the rest, or nothing where `s` is empty.
pub open spec fn taken_front<T>(s: Seq<T>) -> (Option<T>, Seq<T>) {
    if s.len() == 0 {
        (None, s)
    } else {
        (Some(s.first()), s.drop_first())
    }
}

/// What a step from the back of `s` yields, and what is left of `s`: the last
/// value and the rest, or nothing where `s` is empty.
pub open spec fn taken_back<T>(s: Seq<T>) -> (Option<T>, Seq<T>) {
    if s.len() == 0 {
        (None, s)
    } else {
        (Some(s.last()), s.drop_last())
    }
}

/// Two positions in a buffer, `start <= end`. The slots from `start` up to
/// `end` are the ones not moved out yet; the cursor is exhausted when the two
/// meet.
pub struct RawValIter<T> {
    start: usize,
    end: usize,
    marker: PhantomData<T>,
}

impl<T> RawValIter<T> {
    /// The start is never past the end.
    #[verifier::type_invariant]
    closed spec fn inv(self) -> bool {
        self.start <= self.end
    }

    /// The position of the next slot from the front.
    pub closed spec fn spec_start(&self) -> int {
        self.start as int
    }

    /// The position just past the next slot from the back.
    pub closed spec fn spec_end(&self) -> int {
        self.end as int
    }

    /// The cursor lies within `slots` and every slot between its two
    /// positions holds an element.
    pub open spec fn wf(&self, slots: Seq<Option<T>>) -> bool {
        &&& 0 <= self.spec_start() <= self.spec_end() <= slots.len()
        &&& forall|i: int|
            self.spec_start() <= i < self.spec_end() ==> (#[trigger] slots[i]) is Some
    }

    /// The elements still to come, front first.
    pub open spec fn pending(&self, slots: Seq<Option<T>>) -> Seq<T> {
        Seq::new(
            (self.spec_end() - self.spec_start()) as nat,
            |i: int| slots[self.spec_start() + i].unwrap(),
        )
    }

    /// A cursor over the `n` slots from `base` on. With `n == 0` the end is
    /// the start itself, and nothing is added to `base`.
    pub fn new(base: usize, n: usize) -> (iter: Self)
        requires
            n > 0 ==> base + n <= usize::MAX,
        ensures
            iter.spec_start() == base,
            iter.spec_end() == base + n,
        opens_invariants none
        no_unwind
    {
        RawValIter {
            start: base,
            end: if n == 0 {
                base
            } else {
                base + n
            },
            marker: PhantomData,
        }
    }

    /// Moves out the element at the front and steps past it; `None` once the
    /// two positions have met. The slot it came from is vacant afterwards,
    /// and no other slot changes.
    pub fn next(&mut self, buf: &mut RawVec<T>) -> (item: Option<T>)
        requires
            old(self).wf(old(buf)@),
        ensures
            final(self).wf(final(buf)@),
            (item, final(self).pending(final(buf)@)) == taken_front(
                old(self).pending(old(buf)@),
            ),
            final(self).spec_end() == old(self).spec_end(),
            final(self).spec_start() == old(self).spec_start() + if item is Some {
                1int
            } else {
                0int
            },
            final(buf)@ == if item is Some {
                old(buf)@.update(old(self).spec_start(), None)
            } else {
                old(buf)@
            },
        opens_invariants none
        no_unwind
    {
        proof {
            use_type_invariant(&*self);
        }
        if self.start == self.end {
            None
        } else {
            let item = buf.take(self.start);
            self.start = self.start + 1;
            item
        }
    }

    /// Moves out the element at the back, stepping the end down first; `None`
    /// once the two positions have met. The slot it came from is vacant
    /// afterwards, and no other slot changes.
    pub fn next_back(&mut self, buf: &mut RawVec<T>) -> (item: Option<T>)
        requires
            old(self).wf(old(buf)@),
        ensures
            final(self).wf(final(buf)@),
            (item, final(self).pending(final(buf)@)) == taken_back(
                old(self).pending(old(buf)@),
            ),
            final(self).spec_start() == old(self).spec_start(),
            final(self).spec_end() == old(self).spec_end() - if item is Some {
                1int
            } else {
                0int
            },
            final(buf)@ == if item is Some {
                old(buf)@.update(old(self).spec_end() - 1, None)
            } else {
                old(buf)@
            },
        opens_invariants none
        no_unwind
    {
        proof {
            use_type_invariant(&*self);
        }
        if self.start == self.end {
            None
        } else {
            self.end = self.end - 1;
            buf.take(self.end)
        }
    }

    /// How many elements are still to come: exact, as lower and upper bound.
    pub fn size_hint(&self) -> (hint: (usize, Option<usize>))
        ensures
            hint.0 == self.spec_end() - self.spec_start(),
            hint.1 == Some(hint.0),
        opens_invariants none
        no_unwind
    {
        proof {
            use_type_invariant(self);
        }
        let len: usize = self.end - self.start;
        (len, Some(len))
    }
}

} // verus!
