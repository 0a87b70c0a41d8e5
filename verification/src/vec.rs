//! The array: a buffer and the number of its slots that are in use.

use crate::rawvaliter::{taken_back, taken_front, RawValIter};
use crate::rawvec::{fits, grown, lemma_fits_bounds_cap, RawVec};
use vstd::layout::size_of;
use vstd::prelude::*;

verus! {

/// The first `len` of `slots` exist and each holds an element.
pub open spec fn occupied<T>(slots: Seq<Option<T>>, len: int) -> bool {
    &&& 0 <= len <= slots.len()
    &&& forall|i: int| 0 <= i < len ==> (#[trigger] slots[i]) is Some
}

/// The elements that the first `len` of `slots` hold, in order.
pub open spec fn elements<T>(slots: Seq<Option<T>>, len: int) -> Seq<T> {
    Seq::new(len as nat, |i: int| slots[i].unwrap())
}

/// The capacity that makes room for one more element beside `len` elements in
/// `cap` slots: grown by one step when every slot is in use, else `cap`.
pub open spec fn cap_with_room(len: nat, cap: nat) -> nat {
    if len == cap {
        grown(cap)
    } else {
        cap
    }
}

/// A growable array. Its elements sit in the first `len` slots of its buffer;
/// what the slots past them hold is not part of the array.
pub struct Vec<T> {
    buf: RawVec<T>,
    len: usize,
}

impl<T> Vec<T> {
    /// The elements take space, and the first `len` slots of the buffer hold
    /// them.
    #[verifier::type_invariant]
    closed spec fn inv(self) -> bool {
        &&& size_of::<T>() != 0
        &&& occupied(self.buf@, self.len as int)
    }

    /// The elements, in order.
    pub closed spec fn view(&self) -> Seq<T> {
        elements(self.buf@, self.len as int)
    }

    /// The number of slots of the buffer.
    pub closed spec fn spec_cap(&self) -> nat {
        self.buf@.len()
    }

    /// Whether the array can take one more element: a slot is free, or the
    /// next growth step fits.
    pub open spec fn spec_can_push(&self) -> bool {
        self@.len() < self.spec_cap() || fits::<T>(grown(self.spec_cap()))
    }

    /// An empty array, without a single slot.
    pub fn new() -> (v: Self)
        requires
            size_of::<T>() != 0,
        ensures
            v@ == Seq::<T>::empty(),
            v.spec_cap() == 0,
    {
        Vec { buf: RawVec::new(), len: 0 }
    }

    /// The number of slots.
    pub fn cap(&self) -> (cap: usize)
        ensures
            cap == self.spec_cap(),
            self@.len() <= cap,
            size_of::<T>() != 0,
            fits::<T>(cap as nat),
    {
        proof {
            use_type_invariant(self);
        }
        self.buf.cap()
    }

    /// Whether the array can take one more element.
    pub fn can_push(&self) -> (ok: bool)
        ensures
            ok == self.spec_can_push(),
    {
        proof {
            use_type_invariant(self);
        }
        self.len < self.buf.cap() || self.buf.can_grow()
    }

    /// The number of elements.
    pub fn len(&self) -> (len: usize)
        ensures
            len == self@.len(),
        opens_invariants none
        no_unwind
    {
        self.len
    }

    /// Grows the buffer by one step. The elements stay as they are. The
    /// buffer is taken out of the array while it grows and put back after.
    fn grow(&mut self)
        requires
            fits::<T>(grown(old(self).spec_cap())),
        ensures
            final(self)@ == old(self)@,
            final(self).spec_cap() == grown(old(self).spec_cap()),
    {
        proof {
            use_type_invariant(&*self);
        }
        let len: usize = self.len;
        let mut buf: RawVec<T> = RawVec::new();
        self.len = 0;
        core::mem::swap(&mut self.buf, &mut buf);
        buf.grow();
        core::mem::swap(&mut self.buf, &mut buf);
        self.len = len;
    }

    /// Appends `elem`. The buffer grows first when every slot is in use.
    pub fn push(&mut self, elem: T)
        requires
            old(self).spec_can_push(),
        ensures
            final(self)@ == old(self)@.push(elem),
            final(self).spec_cap() == cap_with_room(old(self)@.len(), old(self).spec_cap()),
    {
        proof {
            use_type_invariant(&*self);
        }
        if self.len == self.buf.cap() {
            self.grow();
        }
        proof {
            use_type_invariant(&*self);
            lemma_fits_bounds_cap::<T>(self.spec_cap());
        }
        self.buf.write(self.len, elem);
        self.len = self.len + 1;
    }

    /// Takes the last element off; `None` when there is none.
    pub fn pop(&mut self) -> (elem: Option<T>)
        ensures
            (elem, final(self)@) == taken_back(old(self)@),
            final(self).spec_cap() == old(self).spec_cap(),
        opens_invariants none
        no_unwind
    {
        proof {
            use_type_invariant(&*self);
        }
        if self.len == 0 {
            None
        } else {
            self.len = self.len - 1;
            self.buf.take(self.len)
        }
    }

    /// Puts `elem` at `index`; the elements from there on move up by one. The
    /// buffer grows first when every slot is in use.
    pub fn insert(&mut self, index: usize, elem: T)
        requires
            index <= old(self)@.len(),
            old(self).spec_can_push(),
        ensures
            final(self)@ == old(self)@.insert(index as int, elem),
            final(self).spec_cap() == cap_with_room(old(self)@.len(), old(self).spec_cap()),
    {
        proof {
            use_type_invariant(&*self);
        }
        if self.buf.cap() == self.len {
            self.grow();
        }
        proof {
            use_type_invariant(&*self);
            lemma_fits_bounds_cap::<T>(self.spec_cap());
        }
        let len: usize = self.len;
        self.len = index;
        self.buf.copy(index, index + 1, len - index);
        self.buf.write(index, elem);
        self.len = len + 1;
    }

    /// Takes the element at `index` out; the elements after it move down by
    /// one.
    pub fn remove(&mut self, index: usize) -> (elem: T)
        requires
            index < old(self)@.len(),
        ensures
            elem == old(self)@[index as int],
            final(self)@ == old(self)@.remove(index as int),
            final(self).spec_cap() == old(self).spec_cap(),
    {
        proof {
            use_type_invariant(&*self);
        }
        let len: usize = self.len;
        self.len = index;
        let elem = self.buf.take(index);
        self.buf.copy(index + 1, index, len - index - 1);
        self.len = len - 1;
        elem.unwrap()
    }

    /// The element at `index`, to look at.
    pub fn get(&self, index: usize) -> (elem: &T)
        requires
            index < self@.len(),
        ensures
            *elem == self@[index as int],
    {
        proof {
            use_type_invariant(self);
        }
        self.buf.elem(index)
    }

    /// The element at `index`, to change in place. No other element changes.
    pub fn get_mut(&mut self, index: usize) -> (elem: &mut T)
        requires
            index < old(self)@.len(),
        ensures
            *elem == old(self)@[index as int],
            final(self)@ == old(self)@.update(index as int, *final(elem)),
            final(self).spec_cap() == old(self).spec_cap(),
    {
        proof {
            use_type_invariant(&*self);
        }
        self.buf.elem_mut(index)
    }

    /// Hands the buffer and every element over to a cursor that yields the
    /// elements by value, from either end.
    pub fn into_iter(self) -> (iter: IntoIter<T>)
        ensures
            iter@ == self@,
    {
        let mut this = self;
        proof {
            use_type_invariant(&this);
        }
        let len: usize = this.len;
        let mut buf: RawVec<T> = RawVec::new();
        this.len = 0;
        core::mem::swap(&mut this.buf, &mut buf);
        IntoIter { buf, iter: RawValIter::new(0, len) }
    }

    /// Empties the array at once and hands out a cursor that yields what it
    /// held, by value, from either end. The buffer stays with the array.
    pub fn drain(&mut self) -> (drain: Drain<'_, T>)
        ensures
            drain@ == old(self)@,
            drain.spec_cap() == old(self).spec_cap(),
            final(self)@ == Seq::<T>::empty(),
    {
        proof {
            use_type_invariant(&*self);
        }
        let len: usize = self.len;
        self.len = 0;
        Drain::over(&mut self.buf, len)
    }
}

impl<T> Drop for Vec<T> {
    /// Pops until nothing is left.
    fn drop(&mut self)
        ensures
            final(self)@ == Seq::<T>::empty(),
        opens_invariants none
        no_unwind
    {
        loop
            ensures
                self@.len() == 0,
            decreases self@.len(),
        {
            match self.pop() {
                Some(_) => {},
                None => {
                    break ;
                },
            }
        }
    }
}

/// The cursor that owns what an array held: its buffer, and the elements not
/// yielded yet.
pub struct IntoIter<T> {
    buf: RawVec<T>,
    iter: RawValIter<T>,
}

impl<T> IntoIter<T> {
    /// The cursor lies within the buffer, over slots that hold elements.
    #[verifier::type_invariant]
    closed spec fn inv(self) -> bool {
        self.iter.wf(self.buf@)
    }

    /// The elements still to come, front first.
    pub closed spec fn view(&self) -> Seq<T> {
        self.iter.pending(self.buf@)
    }

    /// The next element from the front; `None` when all have been yielded.
    pub fn next(&mut self) -> (item: Option<T>)
        ensures
            (item, final(self)@) == taken_front(old(self)@),
        opens_invariants none
        no_unwind
    {
        proof {
            use_type_invariant(&*self);
        }
        self.iter.next(&mut self.buf)
    }

    /// The next element from the back; `None` when all have been yielded.
    pub fn next_back(&mut self) -> (item: Option<T>)
        ensures
            (item, final(self)@) == taken_back(old(self)@),
        opens_invariants none
        no_unwind
    {
        proof {
            use_type_invariant(&*self);
        }
        self.iter.next_back(&mut self.buf)
    }

    /// How many elements are still to come: exact, as lower and upper bound.
    pub fn size_hint(&self) -> (hint: (usize, Option<usize>))
        ensures
            hint.0 == self@.len(),
            hint.1 == Some(hint.0),
    {
        proof {
            use_type_invariant(self);
        }
        self.iter.size_hint()
    }
}

impl<T> Drop for IntoIter<T> {
    /// Yields, and so destroys, what the caller left.
    fn drop(&mut self)
        ensures
            final(self)@ == Seq::<T>::empty(),
        opens_invariants none
        no_unwind
    {
        loop
            ensures
                self@.len() == 0,
            decreases self@.len(),
        {
            match self.next() {
                Some(_) => {},
                None => {
                    break ;
                },
            }
        }
    }
}

/// The cursor over what an array held when it was drained. The array is empty
/// from the start; its buffer is lent to the cursor until the cursor ends.
pub struct Drain<'a, T> {
    buf: &'a mut RawVec<T>,
    iter: RawValIter<T>,
}

impl<'a, T> Drain<'a, T> {
    /// The cursor lies within the buffer, over slots that hold elements.
    #[verifier::type_invariant]
    closed spec fn inv(self) -> bool {
        self.iter.wf(self.buf@)
    }

    /// The elements still to come, front first.
    pub closed spec fn view(&self) -> Seq<T> {
        self.iter.pending(self.buf@)
    }

    /// A cursor over the first `len` slots of `buf`.
    fn over(buf: &'a mut RawVec<T>, len: usize) -> (drain: Self)
        requires
            occupied(old(buf)@, len as int),
        ensures
            drain@ == elements(old(buf)@, len as int),
            drain.spec_cap() == old(buf)@.len(),
        opens_invariants none
        no_unwind
    {
        Drain { buf, iter: RawValIter::new(0, len) }
    }

    /// The number of slots of the buffer on loan.
    pub closed spec fn spec_cap(&self) -> nat {
        self.buf@.len()
    }

    /// The next element from the front; `None` when all have been yielded.
    pub fn next(&mut self) -> (item: Option<T>)
        ensures
            (item, final(self)@) == taken_front(old(self)@),
            final(self).spec_cap() == old(self).spec_cap(),
        opens_invariants none
        no_unwind
    {
        proof {
            use_type_invariant(&*self);
        }
        self.iter.next(self.buf)
    }

    /// The next element from the back; `None` when all have been yielded.
    pub fn next_back(&mut self) -> (item: Option<T>)
        ensures
            (item, final(self)@) == taken_back(old(self)@),
            final(self).spec_cap() == old(self).spec_cap(),
        opens_invariants none
        no_unwind
    {
        proof {
            use_type_invariant(&*self);
        }
        self.iter.next_back(self.buf)
    }

    /// How many elements are still to come: exact, as lower and upper bound.
    pub fn size_hint(&self) -> (hint: (usize, Option<usize>))
        ensures
            hint.0 == self@.len(),
            hint.1 == Some(hint.0),
    {
        proof {
            use_type_invariant(self);
        }
        self.iter.size_hint()
    }
}

impl<'a, T> Drop for Drain<'a, T> {
    /// Yields, and so destroys, what the caller left. The buffer goes back
    /// to the array with as many slots as it had.
    fn drop(&mut self)
        ensures
            final(self)@ == Seq::<T>::empty(),
            final(self).spec_cap() == old(self).spec_cap(),
        opens_invariants none
        no_unwind
    {
        loop
            invariant
                self.spec_cap() == old(self).spec_cap(),
            ensures
                self@.len() == 0,
            decreases self@.len(),
        {
            match self.next() {
                Some(_) => {},
                None => {
                    break ;
                },
            }
        }
    }
}

} // verus!
