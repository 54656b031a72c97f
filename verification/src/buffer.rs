//! Owned fixed-length buffers, the storage handed out by allocators.
//!
//! An allocator produces an owned buffer of elements; the algorithms only
//! ever read one cell, overwrite one cell, or take the length.  This trait
//! captures exactly those three operations, together with the sequence view
//! that the contracts are stated over.

use vstd::prelude::*;

verus! {

/// An owned buffer of elements, viewed as a sequence.
pub trait Buffer<T>: Sized {
    /// The contents of this buffer, in order.
    spec fn sview(&self) -> Seq<T>;

    /// The number of elements held.
    fn length(&self) -> (n: usize)
        ensures
            n == self.sview().len(),
    ;

    /// Read the element at index `i`.
    fn read(&self, i: usize) -> (x: T)
        requires
            i < self.sview().len(),
        ensures
            x == self.sview()[i as int],
    ;

    /// Overwrite the element at index `i`.
    fn write(&mut self, i: usize, x: T)
        requires
            i < old(self).sview().len(),
        ensures
            final(self).sview() == old(self).sview().update(i as int, x),
    ;
}

impl<T: Copy> Buffer<T> for Vec<T> {
    open spec fn sview(&self) -> Seq<T> {
        self@
    }

    fn length(&self) -> (n: usize) {
        self.len()
    }

    fn read(&self, i: usize) -> (x: T) {
        self[i]
    }

    fn write(&mut self, i: usize, x: T) {
        self[i] = x;
    }
}

} // verus!
