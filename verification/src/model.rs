//! The mathematical model of a sliding window.
//!
//! A window of `cap` slots is modelled by the sequence of the elements it
//! holds, oldest first. Everything the executable code promises is stated over
//! the functions of this module, and the laws at its end say what those
//! promises add up to over a whole stream of insertions.

use crate::wrapping::lemma_wrap_once;
use vstd::prelude::*;
use vstd::seq_lib::lemma_multiset_commutative;

verus! {

/// What a window of `cap` slots retains of `stream`: its last `cap` elements,
/// or all of it while it is no longer than that.
pub open spec fn retained<T>(stream: Seq<T>, cap: nat) -> Seq<T> {
    if stream.len() <= cap {
        stream
    } else {
        stream.subrange(stream.len() - cap, stream.len() as int)
    }
}

/// The element of `stream` that a window of `cap` slots gave up last: the one
/// just before the retained part, if there is any.
pub open spec fn overflow<T>(stream: Seq<T>, cap: nat) -> Option<T> {
    if stream.len() <= cap {
        None
    } else {
        Some(stream[stream.len() - cap - 1])
    }
}

/// The slot that follows `cursor` in a ring of `cap` slots.
pub open spec fn next_cursor(cursor: nat, cap: nat) -> nat {
    if cap == 0 {
        0
    } else {
        (cursor + 1) % cap
    }
}

/// The order in which the elements of `window` lie in the slots of a ring
/// whose slot `cursor` holds `window[0]`: the `cursor` newest elements come
/// first, the others follow them.
pub open spec fn laid_out<T>(window: Seq<T>, cursor: nat) -> Seq<T>
    recommends
        cursor <= window.len(),
{
    window.subrange(window.len() - cursor, window.len() as int) + window.subrange(
        0,
        window.len() - cursor,
    )
}

/// The contents of a window of `cap` slots that was empty and then took the
/// elements of `stream`, one insertion after the other.
pub open spec fn fed<T>(stream: Seq<T>, cap: nat) -> Seq<T>
    decreases stream.len(),
{
    if stream.len() == 0 {
        Seq::empty()
    } else {
        retained(fed(stream.drop_last(), cap).push(stream.last()), cap)
    }
}

/// Where each element of a window lies in the ring: the element at logical
/// index `i` is found `i` slots after the one that holds the oldest.
pub proof fn lemma_laid_out_slot<T>(window: Seq<T>, cursor: nat, i: int)
    requires
        cursor <= window.len(),
        0 <= i < window.len(),
    ensures
        laid_out(window, cursor).len() == window.len(),
        cursor < window.len() ==> laid_out(window, cursor)[(cursor + i) % (window.len() as int)]
            == window[i],
        cursor == window.len() ==> laid_out(window, cursor)[i] == window[i],
{
    if cursor < window.len() {
        lemma_wrap_once(cursor + i, window.len() as int);
    }
}

/// Inserting a stream into an empty window leaves exactly the latest elements
/// of the stream, in the order in which they came.
pub proof fn lemma_fed_retains_latest<T>(stream: Seq<T>, cap: nat)
    ensures
        fed(stream, cap) == retained(stream, cap),
    decreases stream.len(),
{
    if stream.len() > 0 {
        lemma_fed_retains_latest(stream.drop_last(), cap);
    }
}

/// As long as no more elements were inserted than the window has slots, the
/// window holds every one of them, so their number is the number of
/// insertions; and it is full only once that number reaches the capacity.
pub proof fn lemma_fed_within_capacity<T>(stream: Seq<T>, cap: nat)
    requires
        stream.len() <= cap,
    ensures
        fed(stream, cap) == stream,
        fed(stream, cap).len() == stream.len(),
        fed(stream, cap).len() == cap <==> stream.len() == cap,
{
    lemma_fed_retains_latest(stream, cap);
}

/// The insertion that follows the one which filled the window hands back the
/// element that was inserted first of all, and leaves the window full.
pub proof fn lemma_first_eviction<T>(stream: Seq<T>, cap: nat)
    requires
        stream.len() == cap + 1,
    ensures
        overflow(fed(stream.drop_last(), cap).push(stream.last()), cap) == Some(stream[0]),
        fed(stream, cap).len() == cap,
{
    lemma_fed_retains_latest(stream.drop_last(), cap);
    lemma_fed_retains_latest(stream, cap);
}

/// While nothing was evicted, the element at logical index 0 is the one that
/// was inserted first.
pub proof fn lemma_oldest_is_first<T>(stream: Seq<T>, cap: nat)
    requires
        1 <= stream.len() <= cap,
    ensures
        fed(stream, cap)[0] == stream[0],
{
    lemma_fed_retains_latest(stream, cap);
}

/// Once more elements were inserted than the window has slots, the window
/// holds as many elements as it has slots, and they are the latest
/// insertions, oldest first.
pub proof fn lemma_fed_beyond_capacity<T>(stream: Seq<T>, cap: nat)
    requires
        stream.len() > cap,
    ensures
        fed(stream, cap).len() == cap,
        forall|i: int|
            0 <= i < cap ==> #[trigger] fed(stream, cap)[i] == stream[stream.len() - cap + i],
{
    lemma_fed_retains_latest(stream, cap);
}

/// The slots of the ring hold the elements of the window, each as often as
/// the window does: walking the slots in either direction yields the same
/// multiset as walking the window from oldest to newest.
pub proof fn lemma_laid_out_same_elements<T>(window: Seq<T>, cursor: nat)
    requires
        cursor <= window.len(),
    ensures
        laid_out(window, cursor).len() == window.len(),
        laid_out(window, cursor).to_multiset() == window.to_multiset(),
        laid_out(window, cursor).reverse().len() == window.len(),
        laid_out(window, cursor).reverse().to_multiset() == window.to_multiset(),
{
    let split = window.len() - cursor;
    let older = window.subrange(0, split);
    let newer = window.subrange(split, window.len() as int);
    assert(older + newer == window);
    lemma_multiset_commutative(older, newer);
    lemma_multiset_commutative(newer, older);
    assert(newer.to_multiset().add(older.to_multiset()) == older.to_multiset().add(
        newer.to_multiset(),
    ));
    laid_out(window, cursor).lemma_reverse_to_multiset();
}

/// A window that was emptied is in the state of one that never took an
/// element: it counts none, and it is not full as long as it has a slot.
pub proof fn lemma_emptied_window<T>(window: Seq<T>, cap: nat)
    requires
        window == Seq::<T>::empty(),
        cap >= 1,
    ensures
        window == fed(Seq::<T>::empty(), cap),
        window.len() == 0,
        window.len() != cap,
{
}

} // verus!
