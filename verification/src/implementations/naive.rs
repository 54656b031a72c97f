//! The quadratic reference transform.
//!
//! Each output bin accumulates every input sample, rotated by the bin- and
//! position-dependent rotation constant.  With O(N^2) element operations it
//! is no production algorithm; it is the ground-truth oracle against which
//! the fast algorithm is compared.

use vstd::prelude::*;

use crate::buffer::Buffer;
use crate::sample::Sample;
use crate::{Allocator, Implementation};

verus! {

/// The accumulated value of output bin `i` after the first `j` input
/// positions of a length-`n` transform of `v` have been folded in.
pub open spec fn naive_bin<T: Sample>(v: Seq<T>, i: int, j: int, n: int) -> T
    decreases j,
{
    if j <= 0 {
        T::zero_s()
    } else {
        T::add_s(naive_bin(v, i, j - 1, n), T::mul_s(v[j - 1], T::rotation_s(i, j - 1, n)))
    }
}

/// The quadratic transform of `v`: bin `i` holds the rotated sum over all
/// `n` input positions.
pub open spec fn naive_model<T: Sample>(v: Seq<T>, n: int) -> Seq<T> {
    Seq::new(n as nat, |i: int| naive_bin(v, i, n, n))
}

/// The quadratic reference algorithm.
pub struct Naive;

impl<T: Sample, const N: usize, A: Allocator<T, N>> Implementation<T, N, A> for Naive {
    type Cache = ();

    open spec fn valid_len() -> bool {
        true
    }

    open spec fn cache_wf(c: &()) -> bool {
        true
    }

    open spec fn model(v: Seq<T>) -> Seq<T> {
        naive_model(v, N as int)
    }

    proof fn model_len(v: Seq<T>) {
    }

    fn init_cache() -> (c: ()) {
        ()
    }

    fn fft(v: &Vec<T>, spectrum: &mut A::Element, cache: &()) {
        let mut buffer = A::allocate();
        let mut idx: usize = 0;
        while idx < N
            invariant
                v@.len() == N,
                buffer.sview().len() == N,
                idx <= N,
                forall|t: int| 0 <= t < idx ==> buffer.sview()[t] == v@[t],
            decreases N - idx,
        {
            buffer.write(idx, v[idx]);
            idx += 1;
        }
        proof {
            assert(buffer.sview() =~= v@);
        }
        let mut i: usize = 0;
        while i < N
            invariant
                v@.len() == N,
                buffer.sview() == v@,
                spectrum.sview().len() == N,
                i <= N,
                forall|t: int|
                    0 <= t < i ==> spectrum.sview()[t] == naive_bin(v@, t, N as int, N as int),
            decreases N - i,
        {
            let mut acc = T::zero();
            let mut j: usize = 0;
            while j < N
                invariant
                    v@.len() == N,
                    buffer.sview() == v@,
                    i < N,
                    j <= N,
                    acc == naive_bin(v@, i as int, j as int, N as int),
                decreases N - j,
            {
                acc = acc.add(buffer.read(j).mul(T::rotation(i, j, N)));
                j += 1;
            }
            spectrum.write(i, acc);
            i += 1;
        }
        proof {
            assert(spectrum.sview() =~= naive_model(v@, N as int));
        }
    }
}

} // verus!
