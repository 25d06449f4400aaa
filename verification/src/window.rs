//! The window: fixed storage, a write cursor and the fullness flag.

use crate::iter::{Iter, UnorderedIter};
use crate::model::{laid_out, lemma_laid_out_slot, next_cursor, overflow, retained};
use crate::wrapping::{lemma_wrap_once, WrappingExt};
use vstd::prelude::*;

verus! {

/// The content of a slot that holds no element.
fn vacant<IT>(_slot: usize) -> (cell: Option<IT>)
    ensures
        cell is None,
{
    None
}

/// Builds an array from a function of the index.
///
/// Wraps `core::array::from_fn`, which makes an array by calling its argument
/// once with each index and storing what the call returns at that index. So
/// the argument must accept every index of the array, and each element is a
/// value that the argument may return for its index.
#[verifier::external_body]
fn array_from_fn<T, const N: usize, F: Fn(usize) -> T>(f: F) -> (array: [T; N])
    requires
        forall|i: usize| i < N ==> call_requires(f, (i,)),
    ensures
        forall|i: int| 0 <= i < N ==> call_ensures(f, (i as usize,), #[trigger] array@[i]),
{
    core::array::from_fn(f)
}

/// A sliding window.
///
/// Sliding windows are queues that overwrite their oldest data when full.
/// Its view is the sequence of the elements it holds, oldest first.
pub struct SlidingWindow<IT, const N: usize> {
    items: [Option<IT>; N],
    write_idx: usize,
    is_full: bool,
}

/// What storage, cursor and flag of a window satisfy at any time. The cursor
/// names a slot. In a full window every slot is populated. In one that is not
/// full the slots before the cursor are populated and the slots after it are
/// vacant; of the slot under the cursor nothing is said, because an insertion
/// writes it before it moves the cursor on.
spec fn well_laid<IT>(slots: Seq<Option<IT>>, cursor: int, full: bool) -> bool {
    &&& 0 <= cursor < slots.len() || (slots.len() == 0 && cursor == 0)
    &&& slots.len() == 0 ==> full
    &&& forall|i: int| 0 <= i < slots.len() && (full || i < cursor) ==> #[trigger] slots[i] is Some
    &&& forall|i: int| cursor < i < slots.len() && !full ==> #[trigger] slots[i] is None
}

/// The elements that the storage holds, oldest first.
spec fn resident<IT>(slots: Seq<Option<IT>>, cursor: int, full: bool) -> Seq<IT> {
    if full {
        Seq::new(slots.len(), |i: int| slots[(cursor + i) % (slots.len() as int)]->0)
    } else {
        Seq::new(cursor as nat, |i: int| slots[i]->0)
    }
}

/// Each populated slot holds the element that the model places there.
proof fn lemma_slots_are_laid_out<IT>(slots: Seq<Option<IT>>, cursor: int, full: bool, at: int)
    requires
        well_laid(slots, cursor, full),
        0 <= at < resident(slots, cursor, full).len(),
    ensures
        at < slots.len(),
        slots[at] == Some(laid_out(resident(slots, cursor, full), cursor as nat)[at]),
{
    let n = slots.len() as int;
    if full {
        if at < cursor {
            lemma_wrap_once(n + at, n);
        } else {
            lemma_wrap_once(at, n);
        }
    }
}

/// What writing `t` at the cursor and moving the cursor on does to the
/// elements that the storage holds: `t` joins them as the newest, and where
/// every slot was populated the oldest leaves them.
proof fn lemma_put<IT>(slots: Seq<Option<IT>>, cursor: int, full: bool, t: IT)
    requires
        well_laid(slots, cursor, full),
        slots.len() > 0,
    ensures
        ({
            let n = slots.len();
            let next = next_cursor(cursor as nat, n) as int;
            let written = slots.update(cursor, Some(t));
            let stream = resident(slots, cursor, full).push(t);
            &&& next == if cursor == n - 1 {
                0
            } else {
                cursor + 1
            }
            &&& resident(written, next, full || cursor == n - 1) == retained(stream, n)
            &&& overflow(stream, n) == if full {
                slots[cursor]
            } else {
                None
            }
        }),
{
    let n = slots.len() as int;
    let next = next_cursor(cursor as nat, n as nat) as int;
    let written = slots.update(cursor, Some(t));
    let stream = resident(slots, cursor, full).push(t);
    let after = resident(written, next, full || cursor == n - 1);
    lemma_wrap_once(cursor + 1, n);
    if full {
        assert forall|i: int| 0 <= i < n implies after[i] == stream[i + 1] by {
            lemma_wrap_once(next + i, n);
            lemma_wrap_once(cursor + i + 1, n);
        }
        lemma_wrap_once(cursor, n);
    } else if cursor == n - 1 {
        assert forall|i: int| 0 <= i < n implies after[i] == stream[i] by {
            lemma_wrap_once(i, n);
        }
    }
}

impl<IT, const N: usize> View for SlidingWindow<IT, N> {
    type V = Seq<IT>;

    closed spec fn view(&self) -> Seq<IT> {
        resident(self.items@, self.write_idx as int, self.is_full)
    }
}

impl<IT, const N: usize> SlidingWindow<IT, N> {
    #[verifier::type_invariant]
    pub(crate) closed spec fn inv(&self) -> bool {
        well_laid(self.items@, self.write_idx as int, self.is_full)
    }

    /// The slot that the next insertion writes to.
    pub closed spec fn cursor(&self) -> nat {
        self.write_idx as nat
    }

    /// The elements of the window in the order of the slots that hold them.
    pub open spec fn slot_order(&self) -> Seq<IT> {
        laid_out(self@, self.cursor())
    }

    /// The slot that holds the oldest element.
    pub open spec fn oldest_slot(&self) -> nat {
        if self@.len() < N {
            0
        } else {
            self.cursor()
        }
    }

    /// Returns an empty sliding window object.
    pub fn new() -> (w: Self)
        ensures
            w@ == Seq::<IT>::empty(),
            w.cursor() == 0,
    {
        Self::default()
    }

    /// Insert an element into the window.
    ///
    /// If the window is full, this method will remove and return the oldest
    /// element. A window without any slot is always full, and hands back the
    /// very element it was given.
    pub fn insert(&mut self, t: IT) -> (evicted: Option<IT>)
        ensures
            final(self)@ == retained(old(self)@.push(t), N as nat),
            evicted == overflow(old(self)@.push(t), N as nat),
            final(self).cursor() == next_cursor(old(self).cursor(), N as nat),
    {
        proof {
            use_type_invariant(&*self);
            if N > 0 {
                lemma_put(self.items@, self.write_idx as int, self.is_full, t);
            }
        }
        if !self.is_full {
            self.items[self.write_idx] = Some(t);
            if self.write_idx == N - 1 {
                self.is_full = true;
                self.write_idx = 0;
            } else {
                self.write_idx += 1;
            }
            None
        } else if N == 0 {
            Some(t)
        } else {
            let mut cell = Some(t);
            core::mem::swap(&mut self.items[self.write_idx], &mut cell);
            self.write_idx = self.write_idx.wrapping_add1_limited(N);
            cell
        }
    }

    /// Removes all elements from the window.
    pub fn clear(&mut self)
        ensures
            final(self)@ == Seq::<IT>::empty(),
            final(self).cursor() == 0,
    {
        *self = Self::new();
    }

    /// Returns `true` if the window is full.
    pub fn is_full(&self) -> (full: bool)
        ensures
            full <==> self@.len() == N,
    {
        proof {
            use_type_invariant(self);
        }
        self.is_full
    }

    /// Returns the number of elements stored in the window.
    ///
    /// Until the window is full this is the position of the cursor; from
    /// then on it is the capacity.
    pub fn count(&self) -> (n: usize)
        ensures
            n == self@.len(),
            n <= N,
            n < N ==> n == self.cursor(),
            self.cursor() <= n,
    {
        proof {
            use_type_invariant(self);
        }
        if self.is_full {
            N
        } else {
            self.write_idx
        }
    }

    /// Returns an iterator to read from the window.
    ///
    /// The iterator starts at the oldest element and ends with the newest.
    pub fn iter(&self) -> (it: Iter<'_, IT, N>)
        ensures
            it.remaining() == self@,
    {
        Iter::new(self)
    }

    /// Returns an iterator to read from the window.
    ///
    /// This iterator walks the internal array from the last populated slot
    /// down to the first instead of starting at the oldest element, so it
    /// does not return the elements in the order of insertion.
    pub fn iter_unordered(&self) -> (it: UnorderedIter<'_, IT, N>)
        ensures
            it.remaining() == self.slot_order().reverse(),
            it.remaining().len() == self@.len(),
            it.remaining().to_multiset() == self@.to_multiset(),
    {
        UnorderedIter::new(self)
    }

    /// What the invariant of the window says of cursor, count and capacity.
    pub(crate) proof fn lemma_layout(&self)
        requires
            self.inv(),
        ensures
            self.cursor() <= self@.len() <= N,
            self@.len() < N ==> self.cursor() == self@.len(),
            self.cursor() < N || N == 0,
    {
    }

    /// Where the element at logical index `i` lies: `i` slots after the
    /// oldest, counted around the ring.
    pub(crate) proof fn lemma_logical_slot(&self, i: int)
        requires
            self.inv(),
            0 <= i < self@.len(),
        ensures
            N > 0,
            self.oldest_slot() < N,
            0 <= (self.oldest_slot() + i) % (N as int) < self@.len(),
            self.slot_order()[(self.oldest_slot() + i) % (N as int)] == self@[i],
    {
        lemma_wrap_once(self.oldest_slot() + i, N as int);
        lemma_laid_out_slot(self@, self.cursor(), i);
    }

    /// The slot in which an ordered walk of the window starts.
    pub(crate) fn first_slot(&self) -> (start: usize)
        ensures
            start == self.oldest_slot(),
    {
        proof {
            use_type_invariant(self);
        }
        if self.is_full {
            self.write_idx
        } else {
            0
        }
    }

    /// Reads the element that lies in the populated slot `at`.
    pub(crate) fn slot(&self, at: usize) -> (item: &IT)
        requires
            at < self@.len(),
        ensures
            *item == self.slot_order()[at as int],
    {
        proof {
            use_type_invariant(self);
            lemma_slots_are_laid_out(self.items@, self.write_idx as int, self.is_full, at as int);
        }
        self.items[at].as_ref().unwrap()
    }
}

impl<IT, const N: usize> Default for SlidingWindow<IT, N> {
    fn default() -> (w: Self)
        ensures
            w@ == Seq::<IT>::empty(),
            w.cursor() == 0,
    {
        Self { items: array_from_fn(vacant), write_idx: 0, is_full: N == 0 }
    }
}

impl<IT, const N: usize> vstd::std_specs::core::IndexSpecImpl<usize> for SlidingWindow<IT, N> {
    open spec fn index_req(&self, index: &usize) -> bool {
        *index < self@.len()
    }
}

impl<IT, const N: usize> core::ops::Index<usize> for SlidingWindow<IT, N> {
    type Output = IT;

    /// Reads the element at logical index `idx`, where 0 is the oldest.
    fn index(&self, idx: usize) -> (item: &IT)
        ensures
            *item == self@[idx as int],
    {
        proof {
            use_type_invariant(self);
            self.lemma_logical_slot(idx as int);
        }
        let read_from = if self.is_full {
            self.write_idx.wrapping_add_limited(idx, N)
        } else {
            idx
        };
        self.slot(read_from)
    }
}

} // verus!
