//! A verified engine for discrete Fourier-style transforms of fixed-length
//! signals.
//!
//! The engine composes three independent capabilities: an [`Allocator`] that
//! produces owned fixed-length buffers, a [`WindowFunction`] that weights the
//! input signal sample by sample, and an [`Implementation`] that carries the
//! transform algorithm itself.  The element type is a fourth capability: any
//! type implementing [`sample::Sample`] can flow through the engines, and
//! every algorithm's output is specified exactly as a term over that type's
//! model operations.

use core::marker::PhantomData;
use vstd::prelude::*;

use crate::buffer::Buffer;
use crate::sample::Sample;

pub mod allocators;
pub mod buffer;
pub mod implementations;
pub mod laws;
pub mod ring;
pub mod sample;
pub mod windows;

verus! {

/// A producer of owned, fixed-length, zero-initialised buffers.
///
/// Allocation never fails logically: a buffer of exactly `N` zeroed elements
/// is always handed back, and exhaustion of the underlying memory is a fatal
/// condition rather than a reportable error.
pub trait Allocator<T: Sample, const N: usize> {
    /// The owned buffer type produced by this allocator.
    type Element: Buffer<T>;

    /// Produce a fresh buffer of `N` elements, all zero.
    fn allocate() -> (r: Self::Element)
        ensures
            r.sview() == Seq::new(N as nat, |i: int| T::zero_s()),
    ;
}

/// A transform algorithm, consuming a windowed input sequence and filling a
/// spectrum buffer in place.
pub trait Implementation<T: Sample, const N: usize, A: Allocator<T, N>> {
    /// Precomputed state owned by an engine for this algorithm's benefit.
    type Cache;

    /// Which transform lengths the algorithm accepts.
    spec fn valid_len() -> bool;

    /// Well-formedness of a cache produced by [`Implementation::init_cache`].
    spec fn cache_wf(c: &Self::Cache) -> bool;

    /// The transform this algorithm computes: the model of the spectrum as a
    /// function of the model of the input sequence.
    spec fn model(v: Seq<T>) -> Seq<T>;

    /// A transform's output always has exactly `N` bins.
    proof fn model_len(v: Seq<T>)
        requires
            Self::valid_len(),
        ensures
            Self::model(v).len() == N as int,
    ;

    /// Build the algorithm's cache, eagerly, once per engine.
    fn init_cache() -> (c: Self::Cache)
        requires
            Self::valid_len(),
        ensures
            Self::cache_wf(&c),
    ;

    /// Compute the transform of `v` into `spectrum`, overwriting it wholly.
    fn fft(v: &Vec<T>, spectrum: &mut A::Element, cache: &Self::Cache)
        requires
            Self::valid_len(),
            v@.len() == N,
            Self::cache_wf(cache),
            old(spectrum).sview().len() == N,
        ensures
            final(spectrum).sview() == Self::model(v@),
    ;
}

/// A per-sample weighting applied to the input signal before transforming.
pub trait WindowFunction<T: Sample, const N: usize>: Sized {
    /// The model of the weighted sequence as a function of the input.
    spec fn wmodel(v: Seq<T>) -> Seq<T>;

    /// Construct the window capability.
    fn make() -> (w: Self);

    /// Materialise the weighted copy of `v`.
    fn windowed(&self, v: &Vec<T>) -> (r: Vec<T>)
        requires
            v@.len() == N,
        ensures
            r@ == Self::wmodel(v@),
            r@.len() == N,
    ;
}

/// A type with a distinguished imaginary unit, the constant `i` of complex
/// instantiations.
pub trait ImgUnit: Sized {
    /// Model of the imaginary unit.
    spec fn img_unit_s() -> Self;

    /// The imaginary unit.
    fn img_unit() -> (r: Self)
        ensures
            r == Self::img_unit_s(),
    ;
}

/// A reusable transform handle: one allocator, one window, one algorithm,
/// one element type and one compile-time length, bound together.
///
/// Construction eagerly builds the algorithm's cache, so a constructed
/// engine is immutable and can serve any number of transforms.
pub struct Engine<T: Sample, const N: usize, I, W, A> where
    I: Implementation<T, N, A>,
    W: WindowFunction<T, N>,
    A: Allocator<T, N>,
 {
    window: W,
    cache: I::Cache,
    element_marker: PhantomData<T>,
    allocator_marker: PhantomData<A>,
}

impl<T: Sample, const N: usize, I, W, A> Engine<T, N, I, W, A> where
    I: Implementation<T, N, A>,
    W: WindowFunction<T, N>,
    A: Allocator<T, N>,
 {
    /// A constructed engine holds a well-formed algorithm cache.
    pub closed spec fn wf(&self) -> bool {
        I::cache_wf(&self.cache)
    }

    /// Construct an engine, eagerly building the algorithm's cache.  The
    /// composition must be valid: the algorithm accepts the length `N`.
    pub fn new() -> (e: Engine<T, N, I, W, A>)
        requires
            I::valid_len(),
        ensures
            e.wf(),
    {
        Engine {
            window: W::make(),
            cache: I::init_cache(),
            element_marker: PhantomData,
            allocator_marker: PhantomData,
        }
    }

    /// Transform `v`: weight it by the window, then run the algorithm into
    /// `spectrum`, overwriting all of it.  The input is never mutated, and
    /// the spectrum is exactly the algorithm's model of the weighted input.
    pub fn fft(&self, v: &Vec<T>, spectrum: &mut A::Element)
        requires
            self.wf(),
            I::valid_len(),
            v@.len() == N,
            old(spectrum).sview().len() == N,
        ensures
            final(spectrum).sview() == I::model(W::wmodel(v@)),
            final(spectrum).sview().len() == N,
    {
        let w = self.window.windowed(v);
        I::fft(&w, spectrum, &self.cache);
        proof {
            I::model_len(w@);
        }
    }
}

} // verus!
