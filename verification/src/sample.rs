//! The capability set of a transformable element.
//!
//! A transform engine is generic over the element type of the signal it
//! processes.  An element must offer a zero value, addition, subtraction,
//! multiplication, and the rotation constants that the algorithms consume
//! (twiddle factors, per-bin rotations and stage weights).  Each operation
//! has a specification-level counterpart, so that every algorithm's output
//! can be pinned down exactly as a term over these operations.

use vstd::prelude::*;
use vstd::pervasive::arbitrary;

verus! {

/// Capabilities an element type must provide to be transformable.
///
/// The `*_s` specification functions are the mathematical model of the
/// executable operations; each executable method is required to return
/// exactly the value its model describes.  The algorithms' contracts are
/// stated as terms over these models, so the output of a transform is a
/// function of the input sequence and of nothing else.
pub trait Sample: Sized + Copy {
    /// Model of the additive identity.
    open spec fn zero_s() -> Self {
        arbitrary()
    }

    /// Model of the multiplicative identity.
    open spec fn one_s() -> Self {
        arbitrary()
    }

    /// Model of addition.
    open spec fn add_s(a: Self, b: Self) -> Self {
        arbitrary()
    }

    /// Model of subtraction.
    open spec fn sub_s(a: Self, b: Self) -> Self {
        arbitrary()
    }

    /// Model of multiplication.
    open spec fn mul_s(a: Self, b: Self) -> Self {
        arbitrary()
    }

    /// Model of the twiddle factor for index `m` of a length-`n` transform,
    /// the rotation written exp(-2*pi*i*m/n) for complex instantiations.
    open spec fn twiddle_s(m: int, n: int) -> Self {
        arbitrary()
    }

    /// Model of the rotation applied by the quadratic reference transform to
    /// input index `j` of output bin `i`, written exp(-2*pi*i_unit*i*j/n) for
    /// complex instantiations.
    open spec fn rotation_s(i: int, j: int, n: int) -> Self {
        arbitrary()
    }

    /// Model of the stage weight used by the decimating ping-pong transform
    /// at offset `k` of a length-`n` transform.
    open spec fn omega_s(k: int, n: int) -> Self {
        arbitrary()
    }

    /// Model of one raised-cosine (Hamming) weighted element.
    open spec fn hamming_s(x: Self, i: int, n: int) -> Self {
        arbitrary()
    }

    /// Model of one raised-cosine (Hanning) weighted element.
    open spec fn hanning_s(x: Self, i: int, n: int) -> Self {
        arbitrary()
    }

    /// The additive identity, used to fill fresh buffers.
    fn zero() -> (r: Self)
        ensures
            r == Self::zero_s(),
    ;

    /// Element addition.
    fn add(self, o: Self) -> (r: Self)
        ensures
            r == Self::add_s(self, o),
    ;

    /// Element subtraction.
    fn sub(self, o: Self) -> (r: Self)
        ensures
            r == Self::sub_s(self, o),
    ;

    /// Element multiplication.
    fn mul(self, o: Self) -> (r: Self)
        ensures
            r == Self::mul_s(self, o),
    ;

    /// The twiddle factor for index `m` of a length-`n` transform.
    fn twiddle(m: usize, n: usize) -> (r: Self)
        requires
            0 < n,
        ensures
            r == Self::twiddle_s(m as int, n as int),
    ;

    /// The rotation for input index `j` of output bin `i`.
    fn rotation(i: usize, j: usize, n: usize) -> (r: Self)
        requires
            0 < n,
        ensures
            r == Self::rotation_s(i as int, j as int, n as int),
    ;

    /// The stage weight at offset `k` of a length-`n` ping-pong transform.
    fn omega(k: usize, n: usize) -> (r: Self)
        requires
            0 < n,
        ensures
            r == Self::omega_s(k as int, n as int),
    ;

    /// This element weighted by the Hamming window coefficient of index `i`.
    fn hamming_weighted(self, i: usize, n: usize) -> (r: Self)
        requires
            0 < n,
        ensures
            r == Self::hamming_s(self, i as int, n as int),
    ;

    /// This element weighted by the Hanning window coefficient of index `i`.
    fn hanning_weighted(self, i: usize, n: usize) -> (r: Self)
        requires
            0 < n,
        ensures
            r == Self::hanning_s(self, i as int, n as int),
    ;
}

/// Algebraic laws on top of [`Sample`].
///
/// The transform algorithms themselves only need the operations; the general
/// statements about transforms (linearity in the input signal, the response
/// to a unit impulse) additionally need the element operations to obey the
/// usual ring identities.  An implementation of this trait carries the proof
/// of each identity, and the law lemmas hold for every implementation.
pub trait LawfulSample: Sample {
    /// Addition is commutative.
    proof fn law_add_comm(a: Self, b: Self)
        ensures
            Self::add_s(a, b) == Self::add_s(b, a),
    ;

    /// Addition is associative.
    proof fn law_add_assoc(a: Self, b: Self, c: Self)
        ensures
            Self::add_s(Self::add_s(a, b), c) == Self::add_s(a, Self::add_s(b, c)),
    ;

    /// Zero is the additive identity.
    proof fn law_add_zero(a: Self)
        ensures
            Self::add_s(a, Self::zero_s()) == a,
    ;

    /// Zero annihilates under multiplication.
    proof fn law_mul_zero(a: Self)
        ensures
            Self::mul_s(Self::zero_s(), a) == Self::zero_s(),
    ;

    /// One is the multiplicative identity.
    proof fn law_mul_one(a: Self)
        ensures
            Self::mul_s(Self::one_s(), a) == a,
    ;

    /// The two right factors of a double product commute.
    proof fn law_mul_rcomm(a: Self, b: Self, c: Self)
        ensures
            Self::mul_s(Self::mul_s(a, b), c) == Self::mul_s(Self::mul_s(a, c), b),
    ;

    /// Multiplication distributes over addition.
    proof fn law_distrib(a: Self, b: Self, c: Self)
        ensures
            Self::mul_s(Self::add_s(a, b), c) == Self::add_s(Self::mul_s(a, c), Self::mul_s(b, c)),
    ;

    /// Zero is neutral on the right of subtraction.
    proof fn law_sub_zero(a: Self)
        ensures
            Self::sub_s(a, Self::zero_s()) == a,
    ;

    /// Multiplication distributes over subtraction.
    proof fn law_sub_distrib(a: Self, b: Self, c: Self)
        ensures
            Self::mul_s(Self::sub_s(a, b), c) == Self::sub_s(Self::mul_s(a, c), Self::mul_s(b, c)),
    ;

    /// Sums of differences regroup into differences of sums.
    proof fn law_add_sub_swap(a: Self, b: Self, c: Self, d: Self)
        ensures
            Self::add_s(Self::sub_s(a, b), Self::sub_s(c, d)) == Self::sub_s(
                Self::add_s(a, c),
                Self::add_s(b, d),
            ),
    ;

    /// A rotation over a zero distance is the identity weight.
    proof fn law_rotation_zero(i: int, n: int)
        ensures
            Self::rotation_s(i, 0, n) == Self::one_s(),
    ;
}

} // verus!
