//! The Hanning window.
//!
//! Each sample is weighted by the raised-cosine coefficient
//! 0.5 - 0.5 * cos(2*pi*i/n).  As with the Hamming window, the coefficient
//! depends on the scalar representation, so computing it is an element
//! capability ([`Sample::hanning_s`]); this window applies it positionally.

use vstd::prelude::*;

use crate::sample::Sample;
use crate::WindowFunction;

verus! {

/// The Hanning raised-cosine window.
pub struct Hanning;

impl<T: Sample, const N: usize> WindowFunction<T, N> for Hanning {
    open spec fn wmodel(v: Seq<T>) -> Seq<T> {
        Seq::new(v.len(), |i: int| T::hanning_s(v[i], i, N as int))
    }

    fn make() -> (w: Self) {
        Hanning
    }

    fn windowed(&self, v: &Vec<T>) -> (r: Vec<T>) {
        let mut r: Vec<T> = Vec::new();
        let mut i: usize = 0;
        while i < N
            invariant
                v@.len() == N,
                i <= N,
                r@.len() == i,
                forall|t: int| 0 <= t < i ==> r@[t] == T::hanning_s(v@[t], t, N as int),
            decreases N - i,
        {
            r.push(v[i].hanning_weighted(i, N));
            i += 1;
        }
        proof {
            assert(r@ =~= Seq::new(v@.len(), |i: int| T::hanning_s(v@[i], i, N as int)));
        }
        r
    }
}

} // verus!
