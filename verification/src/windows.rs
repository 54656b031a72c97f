//! Window functions: per-sample weightings applied before a transform.

use vstd::prelude::*;

use crate::sample::Sample;
use crate::WindowFunction;

pub mod hamming;
pub mod hanning;

verus! {

/// The rectangular window: every weight is one, the input passes through
/// unchanged.
pub struct Rect;

impl<T: Sample, const N: usize> WindowFunction<T, N> for Rect {
    open spec fn wmodel(v: Seq<T>) -> Seq<T> {
        v
    }

    fn make() -> (w: Self) {
        Rect
    }

    fn windowed(&self, v: &Vec<T>) -> (r: Vec<T>) {
        let mut r: Vec<T> = Vec::new();
        let mut i: usize = 0;
        while i < N
            invariant
                v@.len() == N,
                i <= N,
                r@ == v@.subrange(0, i as int),
            decreases N - i,
        {
            r.push(v[i]);
            proof {
                assert(v@.subrange(0, (i + 1) as int) =~= v@.subrange(0, i as int).push(
                    v@[i as int],
                ));
            }
            i += 1;
        }
        proof {
            assert(r@ =~= v@);
        }
        r
    }
}

} // verus!
