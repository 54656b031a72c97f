//! Transform algorithms.
//!
//! Three strategies share the [`crate::Implementation`] contract: a
//! quadratic reference transform, an iterative radix-2 transform with
//! bit-reversal and a twiddle cache, and a decimating ping-pong transform
//! that recomputes its stage weights on the fly.

pub mod cooley;
pub mod cooley_tukey;
pub mod naive;
