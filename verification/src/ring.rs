//! An exact element type: the ring of integers with wraparound at 2^64.
//!
//! Transform engines are mostly exercised with floating-point scalars, but a
//! floating-point instantiation lives outside the verified library.  This
//! type instantiates the same engines over exact modular integers, where
//! every operation is total and every algebraic law holds on the nose; it is
//! the instantiation against which the library's laws are proved.

use vstd::prelude::*;
use vstd::arithmetic::div_mod::{
    lemma_add_mod_noop, lemma_mod_bound, lemma_mul_mod_noop_general, lemma_small_mod,
};
use crate::sample::{LawfulSample, Sample};
use crate::ImgUnit;

verus! {

/// An integer of the ring Z / 2^64, stored as its least residue.
#[derive(Clone, Copy, PartialEq, Eq, Structural, Debug)]
pub struct Ring64 {
    /// The least nonnegative residue of this ring element.
    pub bits: u64,
}

/// The modulus of [`Ring64`], as a specification-level integer.
pub open spec fn ring_modulus() -> int {
    0x1_0000_0000_0000_0000
}

impl Sample for Ring64 {
    open spec fn zero_s() -> Self {
        Ring64 { bits: 0 }
    }

    open spec fn one_s() -> Self {
        Ring64 { bits: 1 }
    }

    open spec fn add_s(a: Self, b: Self) -> Self {
        Ring64 { bits: ((a.bits + b.bits) % ring_modulus()) as u64 }
    }

    open spec fn sub_s(a: Self, b: Self) -> Self {
        Ring64 { bits: ((a.bits - b.bits) % ring_modulus()) as u64 }
    }

    open spec fn mul_s(a: Self, b: Self) -> Self {
        Ring64 { bits: ((a.bits * b.bits) % ring_modulus()) as u64 }
    }

    open spec fn twiddle_s(m: int, n: int) -> Self {
        Ring64 { bits: (m % n) as u64 }
    }

    open spec fn rotation_s(i: int, j: int, n: int) -> Self {
        if j == 0 {
            Self::one_s()
        } else {
            Ring64 { bits: (((i % n) * (j % n)) % ring_modulus()) as u64 }
        }
    }

    open spec fn omega_s(k: int, n: int) -> Self {
        Ring64 { bits: (k % n) as u64 }
    }

    open spec fn hamming_s(x: Self, i: int, n: int) -> Self {
        x
    }

    open spec fn hanning_s(x: Self, i: int, n: int) -> Self {
        x
    }

    fn zero() -> (r: Self) {
        Ring64 { bits: 0 }
    }

    fn add(self, o: Self) -> (r: Self) {
        Ring64 { bits: self.bits.wrapping_add(o.bits) }
    }

    fn sub(self, o: Self) -> (r: Self) {
        Ring64 { bits: self.bits.wrapping_sub(o.bits) }
    }

    fn mul(self, o: Self) -> (r: Self) {
        Ring64 { bits: self.bits.wrapping_mul(o.bits) }
    }

    fn twiddle(m: usize, n: usize) -> (r: Self) {
        Ring64 { bits: (m % n) as u64 }
    }

    fn rotation(i: usize, j: usize, n: usize) -> (r: Self) {
        if j == 0 {
            Ring64 { bits: 1 }
        } else {
            let a = (i % n) as u64;
            let b = (j % n) as u64;
            Ring64 { bits: a.wrapping_mul(b) }
        }
    }

    fn omega(k: usize, n: usize) -> (r: Self) {
        Ring64 { bits: (k % n) as u64 }
    }

    fn hamming_weighted(self, i: usize, n: usize) -> (r: Self) {
        self
    }

    fn hanning_weighted(self, i: usize, n: usize) -> (r: Self) {
        self
    }
}

/// Folding an already-reduced summand into a reduced sum keeps the residue.
proof fn lemma_wrap_add(x: int, y: int)
    requires
        0 <= y < ring_modulus(),
    ensures
        ((x % ring_modulus()) + y) % ring_modulus() == (x + y) % ring_modulus(),
{
    lemma_add_mod_noop(x, y, ring_modulus());
    lemma_small_mod(y as nat, ring_modulus() as nat);
}

impl LawfulSample for Ring64 {
    proof fn law_add_comm(a: Self, b: Self) {
    }

    proof fn law_add_assoc(a: Self, b: Self, c: Self) {
        let m = ring_modulus();
        lemma_wrap_add(a.bits + b.bits, c.bits as int);
        lemma_wrap_add(b.bits + c.bits, a.bits as int);
        lemma_mod_bound(a.bits + b.bits, m);
        lemma_mod_bound(b.bits + c.bits, m);
    }

    proof fn law_add_zero(a: Self) {
        lemma_small_mod(a.bits as nat, ring_modulus() as nat);
    }

    proof fn law_mul_zero(a: Self) {
        lemma_small_mod(0, ring_modulus() as nat);
    }

    proof fn law_mul_one(a: Self) {
        lemma_small_mod(a.bits as nat, ring_modulus() as nat);
    }

    proof fn law_sub_zero(a: Self) {
        lemma_small_mod(a.bits as nat, ring_modulus() as nat);
    }

    proof fn law_mul_rcomm(a: Self, b: Self, c: Self) {
        let m = ring_modulus();
        let x = a.bits as int;
        let y = b.bits as int;
        let z = c.bits as int;
        lemma_mul_mod_noop_general(x * y, z, m);
        lemma_mul_mod_noop_general(x * z, y, m);
        assert((x * y) * z == (x * z) * y) by (nonlinear_arith);
    }

    proof fn law_distrib(a: Self, b: Self, c: Self) {
        let m = ring_modulus();
        let x = a.bits as int;
        let y = b.bits as int;
        let z = c.bits as int;
        lemma_mul_mod_noop_general(x + y, z, m);
        lemma_add_mod_noop(x * z, y * z, m);
        assert((x + y) * z == x * z + y * z) by (nonlinear_arith);
    }

    proof fn law_sub_distrib(a: Self, b: Self, c: Self) {
        let m = ring_modulus();
        let x = a.bits as int;
        let y = b.bits as int;
        let z = c.bits as int;
        lemma_mul_mod_noop_general(x - y, z, m);
        vstd::arithmetic::div_mod::lemma_sub_mod_noop(x * z, y * z, m);
        assert((x - y) * z == x * z - y * z) by (nonlinear_arith);
    }

    proof fn law_add_sub_swap(a: Self, b: Self, c: Self, d: Self) {
        let m = ring_modulus();
        let x = a.bits as int;
        let y = b.bits as int;
        let z = c.bits as int;
        let w = d.bits as int;
        lemma_add_mod_noop(x - y, z - w, m);
        vstd::arithmetic::div_mod::lemma_sub_mod_noop(x + z, y + w, m);
    }

    proof fn law_rotation_zero(i: int, n: int) {
    }
}

/// A Gaussian integer of the ring Z / 2^64 adjoined with the imaginary
/// unit: the complex-capable exact element.  Arithmetic is componentwise
/// wraparound arithmetic with the usual complex multiplication rule.
#[derive(Clone, Copy, PartialEq, Eq, Structural, Debug)]
pub struct Gauss64 {
    /// The real component, as its least nonnegative residue.
    pub re: u64,
    /// The imaginary component, as its least nonnegative residue.
    pub im: u64,
}

impl Sample for Gauss64 {
    open spec fn zero_s() -> Self {
        Gauss64 { re: 0, im: 0 }
    }

    open spec fn one_s() -> Self {
        Gauss64 { re: 1, im: 0 }
    }

    open spec fn add_s(a: Self, b: Self) -> Self {
        Gauss64 {
            re: ((a.re + b.re) % ring_modulus()) as u64,
            im: ((a.im + b.im) % ring_modulus()) as u64,
        }
    }

    open spec fn sub_s(a: Self, b: Self) -> Self {
        Gauss64 {
            re: ((a.re - b.re) % ring_modulus()) as u64,
            im: ((a.im - b.im) % ring_modulus()) as u64,
        }
    }

    open spec fn mul_s(a: Self, b: Self) -> Self {
        Gauss64 {
            re: ((a.re * b.re - a.im * b.im) % ring_modulus()) as u64,
            im: ((a.re * b.im + a.im * b.re) % ring_modulus()) as u64,
        }
    }

    open spec fn twiddle_s(m: int, n: int) -> Self {
        Gauss64 { re: (m % n) as u64, im: 0 }
    }

    open spec fn rotation_s(i: int, j: int, n: int) -> Self {
        if j == 0 {
            Self::one_s()
        } else {
            Gauss64 { re: (((i % n) * (j % n)) % ring_modulus()) as u64, im: 0 }
        }
    }

    open spec fn omega_s(k: int, n: int) -> Self {
        Gauss64 { re: (k % n) as u64, im: 0 }
    }

    open spec fn hamming_s(x: Self, i: int, n: int) -> Self {
        x
    }

    open spec fn hanning_s(x: Self, i: int, n: int) -> Self {
        x
    }

    fn zero() -> (r: Self) {
        Gauss64 { re: 0, im: 0 }
    }

    fn add(self, o: Self) -> (r: Self) {
        Gauss64 { re: self.re.wrapping_add(o.re), im: self.im.wrapping_add(o.im) }
    }

    fn sub(self, o: Self) -> (r: Self) {
        Gauss64 { re: self.re.wrapping_sub(o.re), im: self.im.wrapping_sub(o.im) }
    }

    fn mul(self, o: Self) -> (r: Self) {
        proof {
            vstd::arithmetic::div_mod::lemma_sub_mod_noop(
                self.re * o.re,
                self.im * o.im,
                ring_modulus(),
            );
            lemma_add_mod_noop(self.re * o.im, self.im * o.re, ring_modulus());
            lemma_mod_bound(self.re * o.re, ring_modulus());
            lemma_mod_bound(self.im * o.im, ring_modulus());
            lemma_mod_bound(self.re * o.im, ring_modulus());
            lemma_mod_bound(self.im * o.re, ring_modulus());
        }
        Gauss64 {
            re: self.re.wrapping_mul(o.re).wrapping_sub(self.im.wrapping_mul(o.im)),
            im: self.re.wrapping_mul(o.im).wrapping_add(self.im.wrapping_mul(o.re)),
        }
    }

    fn twiddle(m: usize, n: usize) -> (r: Self) {
        Gauss64 { re: (m % n) as u64, im: 0 }
    }

    fn rotation(i: usize, j: usize, n: usize) -> (r: Self) {
        if j == 0 {
            Gauss64 { re: 1, im: 0 }
        } else {
            let a = (i % n) as u64;
            let b = (j % n) as u64;
            Gauss64 { re: a.wrapping_mul(b), im: 0 }
        }
    }

    fn omega(k: usize, n: usize) -> (r: Self) {
        Gauss64 { re: (k % n) as u64, im: 0 }
    }

    fn hamming_weighted(self, i: usize, n: usize) -> (r: Self) {
        self
    }

    fn hanning_weighted(self, i: usize, n: usize) -> (r: Self) {
        self
    }
}

impl ImgUnit for Gauss64 {
    open spec fn img_unit_s() -> Self {
        Gauss64 { re: 0, im: 1 }
    }

    fn img_unit() -> (r: Self) {
        Gauss64 { re: 0, im: 1 }
    }
}

/// Reducing each product's factor before a difference of products keeps the
/// residue.
proof fn lemma_wrap_bilinear_sub(x: int, y: int, z: int, w: int)
    ensures
        ((x % ring_modulus()) * z - (y % ring_modulus()) * w) % ring_modulus() == (x * z - y * w)
            % ring_modulus(),
{
    let m = ring_modulus();
    lemma_mul_mod_noop_general(x, z, m);
    lemma_mul_mod_noop_general(y, w, m);
    vstd::arithmetic::div_mod::lemma_sub_mod_noop((x % m) * z, (y % m) * w, m);
    vstd::arithmetic::div_mod::lemma_sub_mod_noop(x * z, y * w, m);
}

/// Reducing each product's factor before a sum of products keeps the
/// residue.
proof fn lemma_wrap_bilinear_add(x: int, y: int, z: int, w: int)
    ensures
        ((x % ring_modulus()) * z + (y % ring_modulus()) * w) % ring_modulus() == (x * z + y * w)
            % ring_modulus(),
{
    let m = ring_modulus();
    lemma_mul_mod_noop_general(x, z, m);
    lemma_mul_mod_noop_general(y, w, m);
    lemma_add_mod_noop((x % m) * z, (y % m) * w, m);
    lemma_add_mod_noop(x * z, y * w, m);
}

impl LawfulSample for Gauss64 {
    proof fn law_add_comm(a: Self, b: Self) {
    }

    proof fn law_add_assoc(a: Self, b: Self, c: Self) {
        let m = ring_modulus();
        lemma_wrap_add(a.re + b.re, c.re as int);
        lemma_wrap_add(b.re + c.re, a.re as int);
        lemma_mod_bound(a.re + b.re, m);
        lemma_mod_bound(b.re + c.re, m);
        lemma_wrap_add(a.im + b.im, c.im as int);
        lemma_wrap_add(b.im + c.im, a.im as int);
        lemma_mod_bound(a.im + b.im, m);
        lemma_mod_bound(b.im + c.im, m);
    }

    proof fn law_add_zero(a: Self) {
        lemma_small_mod(a.re as nat, ring_modulus() as nat);
        lemma_small_mod(a.im as nat, ring_modulus() as nat);
    }

    proof fn law_mul_zero(a: Self) {
        assert(0 * a.re == 0 && 0 * a.im == 0) by (nonlinear_arith);
        lemma_small_mod(0, ring_modulus() as nat);
    }

    proof fn law_mul_one(a: Self) {
        assert(1 * a.re == a.re && 1 * a.im == a.im && 0 * a.re == 0 && 0 * a.im == 0)
            by (nonlinear_arith);
        lemma_small_mod(a.re as nat, ring_modulus() as nat);
        lemma_small_mod(a.im as nat, ring_modulus() as nat);
    }

    proof fn law_sub_zero(a: Self) {
        lemma_small_mod(a.re as nat, ring_modulus() as nat);
        lemma_small_mod(a.im as nat, ring_modulus() as nat);
    }

    #[verifier::rlimit(50)]
    proof fn law_mul_rcomm(a: Self, b: Self, c: Self) {
        let xr = a.re * b.re - a.im * b.im;
        let xi = a.re * b.im + a.im * b.re;
        let yr = a.re * c.re - a.im * c.im;
        let yi = a.re * c.im + a.im * c.re;
        lemma_wrap_bilinear_sub(xr, xi, c.re as int, c.im as int);
        lemma_wrap_bilinear_add(xr, xi, c.im as int, c.re as int);
        lemma_wrap_bilinear_sub(yr, yi, b.re as int, b.im as int);
        lemma_wrap_bilinear_add(yr, yi, b.im as int, b.re as int);
        assert(xr * c.re - xi * c.im == yr * b.re - yi * b.im) by (nonlinear_arith)
            requires
                xr == a.re * b.re - a.im * b.im,
                xi == a.re * b.im + a.im * b.re,
                yr == a.re * c.re - a.im * c.im,
                yi == a.re * c.im + a.im * c.re,
        ;
        assert(xr * c.im + xi * c.re == yr * b.im + yi * b.re) by (nonlinear_arith)
            requires
                xr == a.re * b.re - a.im * b.im,
                xi == a.re * b.im + a.im * b.re,
                yr == a.re * c.re - a.im * c.im,
                yi == a.re * c.im + a.im * c.re,
        ;
    }

    proof fn law_distrib(a: Self, b: Self, c: Self) {
        let m = ring_modulus();
        lemma_wrap_bilinear_sub(a.re + b.re, a.im + b.im, c.re as int, c.im as int);
        lemma_wrap_bilinear_add(a.re + b.re, a.im + b.im, c.im as int, c.re as int);
        lemma_add_mod_noop(
            a.re * c.re - a.im * c.im,
            b.re * c.re - b.im * c.im,
            m,
        );
        lemma_add_mod_noop(
            a.re * c.im + a.im * c.re,
            b.re * c.im + b.im * c.re,
            m,
        );
        assert((a.re + b.re) * c.re - (a.im + b.im) * c.im == (a.re * c.re - a.im * c.im) + (b.re
            * c.re - b.im * c.im)) by (nonlinear_arith);
        assert((a.re + b.re) * c.im + (a.im + b.im) * c.re == (a.re * c.im + a.im * c.re) + (b.re
            * c.im + b.im * c.re)) by (nonlinear_arith);
    }

    proof fn law_sub_distrib(a: Self, b: Self, c: Self) {
        let m = ring_modulus();
        lemma_wrap_bilinear_sub(a.re - b.re, a.im - b.im, c.re as int, c.im as int);
        lemma_wrap_bilinear_add(a.re - b.re, a.im - b.im, c.im as int, c.re as int);
        vstd::arithmetic::div_mod::lemma_sub_mod_noop(
            a.re * c.re - a.im * c.im,
            b.re * c.re - b.im * c.im,
            m,
        );
        vstd::arithmetic::div_mod::lemma_sub_mod_noop(
            a.re * c.im + a.im * c.re,
            b.re * c.im + b.im * c.re,
            m,
        );
        assert((a.re - b.re) * c.re - (a.im - b.im) * c.im == (a.re * c.re - a.im * c.im) - (b.re
            * c.re - b.im * c.im)) by (nonlinear_arith);
        assert((a.re - b.re) * c.im + (a.im - b.im) * c.re == (a.re * c.im + a.im * c.re) - (b.re
            * c.im + b.im * c.re)) by (nonlinear_arith);
    }

    proof fn law_add_sub_swap(a: Self, b: Self, c: Self, d: Self) {
        let m = ring_modulus();
        lemma_add_mod_noop(a.re - b.re, c.re - d.re, m);
        vstd::arithmetic::div_mod::lemma_sub_mod_noop(a.re + c.re, b.re + d.re, m);
        lemma_add_mod_noop(a.im - b.im, c.im - d.im, m);
        vstd::arithmetic::div_mod::lemma_sub_mod_noop(a.im + c.im, b.im + d.im, m);
    }

    proof fn law_rotation_zero(i: int, n: int) {
    }
}

} // verus!
