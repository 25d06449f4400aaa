//! The two read-only walks over a window.

use crate::model::lemma_laid_out_same_elements;
use crate::window::SlidingWindow;
use crate::wrapping::WrappingExt;
use vstd::prelude::*;

verus! {

/// Read-only iterator that returns elements in the order of insertion.
pub struct Iter<'a, IT, const N: usize> {
    window: &'a SlidingWindow<IT, N>,
    start: usize,
    offset: usize,
    count: usize,
}

impl<'a, IT, const N: usize> Iter<'a, IT, N> {
    #[verifier::type_invariant]
    spec fn inv(&self) -> bool {
        &&& self.start == self.window.oldest_slot()
        &&& self.count == self.window@.len()
        &&& self.offset <= self.count
    }

    /// The elements that the iterator has yet to yield, in the order in
    /// which it yields them.
    pub closed spec fn remaining(&self) -> Seq<IT> {
        self.window@.subrange(self.offset as int, self.count as int)
    }

    pub(crate) fn new(window: &'a SlidingWindow<IT, N>) -> (it: Self)
        ensures
            it.remaining() == window@,
    {
        Iter { window, start: window.first_slot(), offset: 0, count: window.count() }
    }

    /// Yields the oldest element not yet yielded, or `None` once every
    /// element was.
    pub fn next(&mut self) -> (item: Option<&'a IT>)
        ensures
            match item {
                Some(x) => {
                    &&& old(self).remaining().len() > 0
                    &&& *x == old(self).remaining()[0]
                    &&& final(self).remaining() == old(self).remaining().drop_first()
                },
                None => {
                    &&& old(self).remaining().len() == 0
                    &&& final(self).remaining() == old(self).remaining()
                },
            },
    {
        proof {
            use_type_invariant(&*self);
            use_type_invariant(self.window);
        }
        if self.offset < self.count {
            proof {
                self.window.lemma_logical_slot(self.offset as int);
            }
            let read_from = self.start.wrapping_add_limited(self.offset, N);
            self.offset += 1;
            Some(self.window.slot(read_from))
        } else {
            None
        }
    }

    /// The number of elements yet to come, as lower and as upper bound.
    pub fn size_hint(&self) -> (hint: (usize, Option<usize>))
        ensures
            hint.0 == self.remaining().len(),
            hint.1 == Some(hint.0),
    {
        proof {
            use_type_invariant(self);
        }
        let remaining = self.count - self.offset;
        (remaining, Some(remaining))
    }

    /// The number of elements yet to come.
    pub fn len(&self) -> (n: usize)
        ensures
            n == self.remaining().len(),
    {
        let (lower, _upper) = self.size_hint();
        lower
    }
}

/// Read-only iterator that does not respect the order of insertion.
pub struct UnorderedIter<'a, IT, const N: usize> {
    window: &'a SlidingWindow<IT, N>,
    offset: usize,
}

impl<'a, IT, const N: usize> UnorderedIter<'a, IT, N> {
    #[verifier::type_invariant]
    spec fn inv(&self) -> bool {
        &&& self.offset <= self.window@.len()
    }

    /// The elements that the iterator has yet to yield, in the order in
    /// which it yields them.
    pub closed spec fn remaining(&self) -> Seq<IT> {
        self.window.slot_order().subrange(0, self.offset as int).reverse()
    }

    pub(crate) fn new(window: &'a SlidingWindow<IT, N>) -> (it: Self)
        ensures
            it.remaining() == window.slot_order().reverse(),
            it.remaining().len() == window@.len(),
            it.remaining().to_multiset() == window@.to_multiset(),
    {
        proof {
            use_type_invariant(window);
            window.lemma_layout();
            lemma_laid_out_same_elements(window@, window.cursor());
        }
        let it = UnorderedIter { window, offset: window.count() };
        proof {
            assert(window.slot_order().subrange(0, it.offset as int) == window.slot_order());
        }
        it
    }

    /// Yields the element in the highest slot not yet visited, or `None`
    /// once every populated slot was.
    pub fn next(&mut self) -> (item: Option<&'a IT>)
        ensures
            match item {
                Some(x) => {
                    &&& old(self).remaining().len() > 0
                    &&& *x == old(self).remaining()[0]
                    &&& final(self).remaining() == old(self).remaining().drop_first()
                },
                None => {
                    &&& old(self).remaining().len() == 0
                    &&& final(self).remaining() == old(self).remaining()
                },
            },
    {
        proof {
            use_type_invariant(&*self);
            use_type_invariant(self.window);
            self.window.lemma_layout();
        }
        if self.offset > 0 {
            self.offset -= 1;
            Some(self.window.slot(self.offset))
        } else {
            None
        }
    }

    /// The number of elements yet to come, as lower and as upper bound.
    pub fn size_hint(&self) -> (hint: (usize, Option<usize>))
        ensures
            hint.0 == self.remaining().len(),
            hint.1 == Some(hint.0),
    {
        proof {
            use_type_invariant(self);
            use_type_invariant(self.window);
            self.window.lemma_layout();
        }
        let remaining = self.offset;
        (remaining, Some(remaining))
    }

    /// The number of elements yet to come.
    pub fn len(&self) -> (n: usize)
        ensures
            n == self.remaining().len(),
    {
        let (lower, _upper) = self.size_hint();
        lower
    }
}

} // verus!
