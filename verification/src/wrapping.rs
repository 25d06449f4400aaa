//! Addition modulo a limit that never overflows the machine word.

use vstd::arithmetic::div_mod::lemma_add_mod_noop;
use vstd::prelude::*;

verus! {

/// Addition that wraps around at a limit instead of at the width of the type.
///
/// An implementation says which limits it accepts and what the exact results
/// are; the two methods must return exactly those.
pub trait WrappingExt: Sized {
    type Rhs;

    type Output;

    /// Whether `max` can serve as a limit.
    spec fn limit_ok(max: Self::Rhs) -> bool;

    /// The exact sum of `self` and `r`, reduced modulo `max`.
    spec fn sum_mod(self, r: Self::Rhs, max: Self::Rhs) -> Self::Output;

    /// The exact successor of `self`, reduced modulo `max`.
    spec fn succ_mod(self, max: Self::Rhs) -> Self::Output;

    /// Computes `(self + r) mod max`, also where `self + r` does not fit the type.
    fn wrapping_add_limited(self, r: Self::Rhs, max: Self::Rhs) -> (out: Self::Output)
        requires
            Self::limit_ok(max),
        ensures
            out == self.sum_mod(r, max),
    ;

    /// Computes `(self + 1) mod max`, also where `self + 1` does not fit the type.
    fn wrapping_add1_limited(self, max: Self::Rhs) -> (out: Self::Output)
        requires
            Self::limit_ok(max),
        ensures
            out == self.succ_mod(max),
    ;
}

impl WrappingExt for usize {
    type Rhs = usize;

    type Output = usize;

    /// Every limit but zero.
    open spec fn limit_ok(max: usize) -> bool {
        max > 0
    }

    /// The sum is taken in the integers, so it is exact for every pair of
    /// machine words.
    open spec fn sum_mod(self, r: usize, max: usize) -> usize {
        ((self + r) % (max as int)) as usize
    }

    /// The successor is the sum with one.
    open spec fn succ_mod(self, max: usize) -> usize {
        self.sum_mod(1, max)
    }

    fn wrapping_add_limited(self, r: usize, max: usize) -> (out: usize) {
        match self.checked_add(r) {
            Some(v) => v % max,
            None => {
                // The sum does not fit: add the residues instead, which
                // together stay below twice the limit.
                let a: usize = self % max;
                let b: usize = r % max;
                proof {
                    lemma_add_mod_noop(self as int, r as int, max as int);
                    lemma_wrap_once(a + b, max as int);
                }
                if a >= max - b {
                    a - (max - b)
                } else {
                    a + b
                }
            },
        }
    }

    fn wrapping_add1_limited(self, max: usize) -> (out: usize) {
        let a: usize = self % max;
        proof {
            lemma_add_mod_noop(self as int, 1, max as int);
            lemma_wrap_once(1, max as int);
            lemma_wrap_once(a + 1int % (max as int), max as int);
        }
        if a == max - 1 {
            0
        } else {
            a + 1
        }
    }
}

/// A value below twice the modulus is reduced by at most one subtraction.
pub proof fn lemma_wrap_once(x: int, m: int)
    requires
        0 < m,
        0 <= x < 2 * m,
    ensures
        x % m == if x < m {
            x
        } else {
            x - m
        },
{
    assert(x % m == if x < m {
        x
    } else {
        x - m
    }) by (nonlinear_arith)
        requires
            0 < m,
            0 <= x < 2 * m,
    ;
}

} // verus!
