//! The heap-backed allocation strategy.

use vstd::prelude::*;

use crate::buffer::Buffer;
use crate::sample::Sample;
use crate::Allocator;

verus! {

/// Allocates owned heap-backed buffers of `N` zeroed elements.
pub struct BoxedAllocator;

impl<T: Sample, const N: usize> Allocator<T, N> for BoxedAllocator {
    type Element = Vec<T>;

    fn allocate() -> (r: Vec<T>) {
        let mut r: Vec<T> = Vec::new();
        let mut i: usize = 0;
        while i < N
            invariant
                i <= N,
                r@.len() == i,
                forall|t: int| 0 <= t < i ==> r@[t] == T::zero_s(),
            decreases N - i,
        {
            r.push(T::zero());
            i += 1;
        }
        proof {
            assert(r@ =~= Seq::new(N as nat, |i: int| T::zero_s()));
        }
        r
    }
}

} // verus!
