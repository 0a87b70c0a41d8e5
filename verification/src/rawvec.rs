//! The buffer behind the array: a run of slots that knows its capacity and
//! nothing of how many slots are in use.

use vstd::layout::size_of;
use vstd::prelude::*;

verus! {

/// The capacity that a buffer of capacity `cap` has after one growth step:
/// the first step gives one slot, every later one doubles.
pub open spec fn grown(cap: nat) -> nat {
    if cap == 0 {
        1
    } else {
        2 * cap
    }
}

/// The capacity after `steps` growth steps from an empty buffer.
pub open spec fn grown_times(steps: nat) -> nat
    decreases steps,
{
    if steps == 0 {
        0
    } else {
        grown(grown_times((steps - 1) as nat))
    }
}

/// The bytes that `cap` elements of type `T` take.
pub open spec fn byte_size<T>(cap: nat) -> nat {
    cap * size_of::<T>()
}

/// Whether `cap` elements of type `T` stay within the largest size an object
/// may have.
pub open spec fn fits<T>(cap: nat) -> bool {
    byte_size::<T>(cap) <= isize::MAX
}

/// What `slots` holds after the `count` slots from `src` on have been moved
/// to the `count` slots from `dst` on: the destination holds what the source
/// held, the part of the source outside the destination is vacant, and every
/// other slot is as before. The two ranges may overlap.
pub open spec fn moved<T>(slots: Seq<Option<T>>, src: int, dst: int, count: int) -> Seq<Option<T>> {
    Seq::new(
        slots.len(),
        |i: int|
            if dst <= i < dst + count {
                slots[i - dst + src]
            } else if src <= i < src + count {
                None
            } else {
                slots[i]
            },
    )
}

/// `<Vec<_> as IndexMut<usize>>::index_mut`: for an index within the length it
/// hands out the element at that index, and the vector afterwards differs from
/// the one before only there. It neither unwinds on such an index nor opens an
/// invariant. The last is what a destructor needs to know of every call it
/// makes, and what vstd leaves open for this operation.
#[verifier::external_body]
fn index_mut<T>(slots: &mut Vec<Option<T>>, index: usize) -> (slot: &mut Option<T>)
    requires
        index < old(slots)@.len(),
    ensures
        *slot == old(slots)@[index as int],
        final(slots)@ == old(slots)@.update(index as int, *final(slot)),
    opens_invariants none
    no_unwind
{
    &mut slots[index]
}

/// A buffer of slots for elements of type `T`. A slot is vacant (`None`) or
/// holds one element. The buffer starts without slots and grows by doubling;
/// it never takes more bytes than an object may have. What its slots hold is
/// its owner's business: the buffer moves elements in and out and keeps no
/// count of them.
pub struct RawVec<T> {
    slots: Vec<Option<T>>,
}

impl<T> RawVec<T> {
    /// The elements take space, and the slots fit.
    #[verifier::type_invariant]
    closed spec fn inv(self) -> bool {
        &&& size_of::<T>() != 0
        &&& fits::<T>(self.slots@.len())
    }

    /// The slots, in order.
    pub closed spec fn view(&self) -> Seq<Option<T>> {
        self.slots@
    }

    /// A buffer without slots.
    pub fn new() -> (buf: Self)
        requires
            size_of::<T>() != 0,
        ensures
            buf@.len() == 0,
    {
        proof {
            lemma_nothing_fits::<T>();
        }
        RawVec { slots: Vec::new() }
    }

    /// The number of slots.
    pub fn cap(&self) -> (cap: usize)
        ensures
            cap == self@.len(),
            size_of::<T>() != 0,
            fits::<T>(cap as nat),
    {
        proof {
            use_type_invariant(self);
        }
        self.slots.len()
    }

    /// Whether the next growth step stays within the largest size an object
    /// may have.
    pub fn can_grow(&self) -> (ok: bool)
        ensures
            ok == fits::<T>(grown(self@.len())),
    {
        let cap = self.cap();
        proof {
            lemma_fits_bounds_cap::<T>(cap as nat);
        }
        let target: usize = if cap == 0 {
            1
        } else {
            2 * cap
        };
        match target.checked_mul(core::mem::size_of::<T>()) {
            Some(bytes) => bytes <= isize::MAX as usize,
            None => false,
        }
    }

    /// One growth step: to one slot from none, else to twice as many. The old
    /// slots keep what they hold; the new ones are vacant.
    pub fn grow(&mut self)
        requires
            fits::<T>(grown(old(self)@.len())),
        ensures
            final(self)@.len() == grown(old(self)@.len()),
            final(self)@ == old(self)@ + Seq::new(
                (grown(old(self)@.len()) - old(self)@.len()) as nat,
                |i: int| None::<T>,
            ),
    {
        proof {
            use_type_invariant(&*self);
        }
        let cap = self.slots.len();
        proof {
            lemma_fits_bounds_cap::<T>(cap as nat);
        }
        let target: usize = if cap == 0 {
            1
        } else {
            2 * cap
        };
        let ghost before = self.slots@;
        let mut slots: Vec<Option<T>> = Vec::new();
        proof {
            lemma_nothing_fits::<T>();
        }
        core::mem::swap(&mut self.slots, &mut slots);
        while slots.len() < target
            invariant
                before.len() <= slots@.len() <= target,
                slots@ == before + Seq::new(
                    (slots@.len() - before.len()) as nat,
                    |i: int| None::<T>,
                ),
            decreases target - slots@.len(),
        {
            slots.push(None);
        }
        core::mem::swap(&mut self.slots, &mut slots);
    }

    /// The element in the slot at `index`, to look at.
    pub fn elem(&self, index: usize) -> (elem: &T)
        requires
            index < self@.len(),
            self@[index as int] is Some,
        ensures
            *elem == self@[index as int].unwrap(),
    {
        match &self.slots[index] {
            Some(elem) => elem,
            None => vstd::pervasive::unreached(),
        }
    }

    /// The slot at `index`, to change in place. No other slot changes.
    fn slot_mut(&mut self, index: usize) -> (slot: &mut Option<T>)
        requires
            index < old(self)@.len(),
        ensures
            *slot == old(self)@[index as int],
            final(self)@ == old(self)@.update(index as int, *final(slot)),
        opens_invariants none
        no_unwind
    {
        proof {
            use_type_invariant(&*self);
        }
        index_mut(&mut self.slots, index)
    }

    /// The element in the slot at `index`, to change in place. The slot keeps
    /// holding an element, and no other slot changes.
    pub fn elem_mut(&mut self, index: usize) -> (elem: &mut T)
        requires
            index < old(self)@.len(),
            old(self)@[index as int] is Some,
        ensures
            *elem == old(self)@[index as int].unwrap(),
            final(self)@ == old(self)@.update(index as int, Some(*final(elem))),
        opens_invariants none
        no_unwind
    {
        match self.slot_mut(index) {
            Some(elem) => elem,
            None => vstd::pervasive::unreached(),
        }
    }

    /// Moves out what the slot at `index` holds and leaves the slot vacant.
    pub fn take(&mut self, index: usize) -> (value: Option<T>)
        requires
            index < old(self)@.len(),
        ensures
            value == old(self)@[index as int],
            final(self)@ == old(self)@.update(index as int, None),
        opens_invariants none
        no_unwind
    {
        let mut value: Option<T> = None;
        core::mem::swap(self.slot_mut(index), &mut value);
        value
    }

    /// Puts `value` into the slot at `index`, in place of what the slot held.
    pub fn write(&mut self, index: usize, value: T)
        requires
            index < old(self)@.len(),
        ensures
            final(self)@ == old(self)@.update(index as int, Some(value)),
        opens_invariants none
        no_unwind
    {
        *self.slot_mut(index) = Some(value);
    }

    /// Moves what the `count` slots from `src` on hold to the `count` slots
    /// from `dst` on, in place of what those held. The ranges may overlap:
    /// the slots are moved last first where the destination lies above the
    /// source and first first where it lies below, so that none is
    /// overwritten before it has been moved.
    pub fn copy(&mut self, src: usize, dst: usize, count: usize)
        requires
            src + count <= old(self)@.len(),
            dst + count <= old(self)@.len(),
        ensures
            final(self)@ == moved(old(self)@, src as int, dst as int, count as int),
        opens_invariants none
        no_unwind
    {
        let ghost before = self@;
        assert(before.len() == self.slots.len());
        if dst > src {
            let mut k: usize = count;
            while k > 0
                invariant
                    src < dst,
                    k <= count,
                    src + count <= before.len() <= usize::MAX,
                    dst + count <= before.len(),
                    self@ == moved(before, src + k, dst + k, count - k),
                decreases k,
            {
                k = k - 1;
                let mut value = self.take(src + k);
                core::mem::swap(self.slot_mut(dst + k), &mut value);
            }
        } else if dst < src {
            let mut k: usize = 0;
            while k < count
                invariant
                    dst < src,
                    k <= count,
                    src + count <= before.len() <= usize::MAX,
                    dst + count <= before.len(),
                    self@ == moved(before, src as int, dst as int, k as int),
                decreases count - k,
            {
                let mut value = self.take(src + k);
                core::mem::swap(self.slot_mut(dst + k), &mut value);
                k = k + 1;
            }
        }
    }
}

/// A buffer that fits, of elements that take space, has fewer slots than
/// half of what a `usize` counts.
pub proof fn lemma_fits_bounds_cap<T>(cap: nat)
    requires
        size_of::<T>() != 0,
        fits::<T>(cap),
    ensures
        cap <= isize::MAX,
        2 * cap <= usize::MAX,
{
    assert(cap <= cap * size_of::<T>()) by (nonlinear_arith)
        requires
            size_of::<T>() >= 1,
    ;
}

/// A buffer without slots fits, whatever its elements are.
pub proof fn lemma_nothing_fits<T>()
    ensures
        fits::<T>(0),
{
}

} // verus!
