//! What follows from the contracts of the array, its buffer and its cursors
//! when their operations are taken one after another.

use crate::rawvaliter::{taken_back, taken_front};
use crate::rawvec::{grown, grown_times};
use crate::vec::cap_with_room;
use vstd::arithmetic::power2::{lemma2_to64, lemma_pow2_pos, lemma_pow2_unfold, pow2};
use vstd::prelude::*;

verus! {

/// What an empty array holds once the values of `pushed` have been pushed
/// onto it, first to last.
pub open spec fn after_pushes<T>(pushed: Seq<T>) -> Seq<T>
    decreases pushed.len(),
{
    if pushed.len() == 0 {
        Seq::empty()
    } else {
        after_pushes(pushed.drop_last()).push(pushed.last())
    }
}

/// What an array that held `s` holds after `k` pops.
pub open spec fn after_pops<T>(s: Seq<T>, k: nat) -> Seq<T>
    decreases k,
{
    if k == 0 {
        s
    } else {
        taken_back(after_pops(s, (k - 1) as nat)).1
    }
}

/// What pop number `k`, counted from zero, yields on an array that held `s`.
pub open spec fn nth_pop<T>(s: Seq<T>, k: nat) -> Option<T> {
    taken_back(after_pops(s, k)).0
}

/// The capacity of an array that was empty and without slots after `n`
/// pushes.
pub open spec fn cap_after_pushes(n: nat) -> nat
    decreases n,
{
    if n == 0 {
        0
    } else {
        cap_with_room((n - 1) as nat, cap_after_pushes((n - 1) as nat))
    }
}

/// Pushing values onto an empty array gives an array of exactly those values,
/// in the order of the pushes.
pub proof fn lemma_pushes_in_order<T>(pushed: Seq<T>)
    ensures
        after_pushes(pushed) == pushed,
    decreases pushed.len(),
{
    if pushed.len() > 0 {
        lemma_pushes_in_order(pushed.drop_last());
    }
}

/// After the first `i` of a run of pushes onto an empty array the length is
/// `i`, and the last element is the value that push number `i` pushed.
pub proof fn lemma_push_len_and_last<T>(pushed: Seq<T>, i: int)
    requires
        1 <= i <= pushed.len(),
    ensures
        after_pushes(pushed.take(i)).len() == i,
        after_pushes(pushed.take(i))[i - 1] == pushed[i - 1],
{
    lemma_pushes_in_order(pushed.take(i));
}

/// Pops yield what an array holds from last to first, each pop leaving the
/// elements before the one it yields; once the array is empty every pop
/// yields nothing and leaves it empty.
pub proof fn lemma_pops_in_reverse<T>(s: Seq<T>, k: nat)
    ensures
        k < s.len() ==> nth_pop(s, k) == Some(s[s.len() - 1 - k]),
        k >= s.len() ==> nth_pop(s, k) is None,
        after_pops(s, k) == s.take(
            if k <= s.len() {
                s.len() - k
            } else {
                0
            },
        ),
    decreases k,
{
    if k > 0 {
        lemma_pops_in_reverse(s, (k - 1) as nat);
    }
}

/// After `n` pushes onto an empty array, pop number `k` yields the value of
/// push number `n - k`, and from pop number `n` on every pop yields nothing.
pub proof fn lemma_pops_undo_pushes<T>(pushed: Seq<T>, k: nat)
    ensures
        k < pushed.len() ==> nth_pop(after_pushes(pushed), k) == Some(
            pushed[pushed.len() - 1 - k],
        ),
        k >= pushed.len() ==> nth_pop(after_pushes(pushed), k) is None,
{
    lemma_pushes_in_order(pushed);
    lemma_pops_in_reverse(pushed, k);
}

/// Taking out at `index` what was put in there gives it back and leaves the
/// array as it was.
pub proof fn lemma_remove_undoes_insert<T>(s: Seq<T>, index: int, elem: T)
    requires
        0 <= index <= s.len(),
    ensures
        s.insert(index, elem)[index] == elem,
        s.insert(index, elem).remove(index) == s,
{
}

/// A cursor over `s` that has yielded `a` elements from the front and `b`
/// from the back, in whatever order, has the elements between them left. Its
/// next step from the front yields the element at `a`, its next step from the
/// back the one at `len - 1 - b`: no position is yielded twice and none is
/// passed over. When `a + b` is the length, either step yields nothing.
pub proof fn lemma_cursor_steps<T>(s: Seq<T>, a: int, b: int)
    requires
        0 <= a,
        0 <= b,
        a + b <= s.len(),
    ensures
        a + b < s.len() ==> taken_front(s.subrange(a, s.len() - b)) == (
            Some(s[a]),
            s.subrange(a + 1, s.len() - b),
        ),
        a + b < s.len() ==> taken_back(s.subrange(a, s.len() - b)) == (
            Some(s[s.len() - 1 - b]),
            s.subrange(a, s.len() - b - 1),
        ),
        a + b == s.len() ==> taken_front(s.subrange(a, s.len() - b)) == (
            None::<T>,
            Seq::<T>::empty(),
        ),
        a + b == s.len() ==> taken_back(s.subrange(a, s.len() - b)) == (
            None::<T>,
            Seq::<T>::empty(),
        ),
{
}

/// Growth steps from an empty buffer give the capacities 0, 1, 2, 4, 8, ...:
/// after the first step, each capacity is twice the one before.
pub proof fn lemma_growth_doubles(steps: nat)
    ensures
        grown_times(0) == 0,
        steps >= 1 ==> grown_times(steps) == pow2((steps - 1) as nat),
    decreases steps,
{
    if steps == 1 {
        lemma2_to64();
        assert(grown_times(1) == grown(grown_times(0)));
    } else if steps >= 2 {
        lemma_growth_doubles((steps - 1) as nat);
        lemma_pow2_pos((steps - 2) as nat);
        lemma_pow2_unfold((steps - 1) as nat);
    }
}

/// An array grows only when a push finds every slot in use: after `n` pushes
/// onto an empty array the capacity is one that growth steps alone reach,
/// it holds the `n` elements, and it is less than twice `n`.
pub proof fn lemma_cap_after_pushes(n: nat) -> (steps: nat)
    ensures
        cap_after_pushes(n) == grown_times(steps),
        n <= cap_after_pushes(n),
        n >= 1 ==> cap_after_pushes(n) < 2 * n,
    decreases n,
{
    if n == 0 {
        0
    } else {
        let before = lemma_cap_after_pushes((n - 1) as nat);
        if n - 1 == cap_after_pushes((n - 1) as nat) {
            (before + 1) as nat
        } else {
            before
        }
    }
}

} // verus!
