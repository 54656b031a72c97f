//! Buffer allocation strategies.
//!
//! Two interchangeable variants are provided: a heap-backed allocator for
//! hosted builds and a no-heap-flavoured allocator for constrained builds.
//! Both satisfy the same contract — a fresh, owned, zero-filled buffer of
//! exactly `N` elements — and an engine behaves identically over either.

pub mod array;
pub mod boxed;
