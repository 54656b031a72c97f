//! The Hamming window.
//!
//! Each sample is weighted by the raised-cosine coefficient
//! 0.54 - 0.46 * cos(2*pi*i/n).  The coefficient depends on the scalar
//! representation of the element type, so its computation is an element
//! capability ([`Sample::hamming_s`]); this window applies it positionally.

use vstd::prelude::*;

use crate::sample::Sample;
use crate::WindowFunction;

verus! {

/// The Hamming raised-cosine window.
pub struct Hamming;

impl<T: Sample, const N: usize> WindowFunction<T, N> for Hamming {
    open spec fn wmodel(v: Seq<T>) -> Seq<T> {
        Seq::new(v.len(), |i: int| T::hamming_s(v[i], i, N as int))
    }

    fn make() -> (w: Self) {
        Hamming
    }

    fn windowed(&self, v: &Vec<T>) -> (r: Vec<T>) {
        let mut r: Vec<T> = Vec::new();
        let mut i: usize = 0;
        while i < N
            invariant
                v@.len() == N,
                i <= N,
                r@.len() == i,
                forall|t: int| 0 <= t < i ==> r@[t] == T::hamming_s(v@[t], t, N as int),
            decreases N - i,
        {
            r.push(v[i].hamming_weighted(i, N));
            i += 1;
        }
        proof {
            assert(r@ =~= Seq::new(v@.len(), |i: int| T::hamming_s(v@[i], i, N as int)));
        }
        r
    }
}

} // verus!
