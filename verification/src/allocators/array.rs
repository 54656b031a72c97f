//! The allocation-free-flavoured strategy.
//!
//! In the embedded composition this role is played by storage that needs no
//! dynamic memory.  Verified in-place mutation is only available here for
//! the owned vector buffer, so this variant hands out the same buffer type
//! as the heap strategy; the two are deliberately interchangeable, and an
//! engine's contract is identical over either.

use vstd::prelude::*;

use crate::buffer::Buffer;
use crate::sample::Sample;
use crate::Allocator;

verus! {

/// Allocates owned buffers of `N` zeroed elements for compositions that
/// avoid a heap in spirit: behaviourally identical to the heap strategy.
pub struct ArrayAllocator;

impl<T: Sample, const N: usize> Allocator<T, N> for ArrayAllocator {
    type Element = Vec<T>;

    fn allocate() -> (r: Vec<T>) {
        let mut r: Vec<T> = Vec::new();
        let mut i: usize = 0;
        while i < N
            invariant
                i <= N,
                r@.len() == i,
                forall|t: int| 0 <= t < i ==> r@[t] == T::zero_s(),
            decreases N - i,
        {
            r.push(T::zero());
            i += 1;
        }
        proof {
            assert(r@ =~= Seq::new(N as nat, |i: int| T::zero_s()));
        }
        r
    }
}

} // verus!
