//! Engine tests over the exact modular elements, where the proved laws are
//! checked on concrete values, plus unit tests of the helper functions.

use fourier::allocators::array::ArrayAllocator;
use fourier::allocators::boxed::BoxedAllocator;
use fourier::implementations::cooley::Cooley;
use fourier::implementations::cooley_tukey::{bit_reversal, log2_of, CooleyTukey, TwiddleCache};
use fourier::implementations::naive::Naive;
use fourier::ring::{Gauss64, Ring64};
use fourier::sample::Sample;
use fourier::windows::hamming::Hamming;
use fourier::windows::hanning::Hanning;
use fourier::windows::Rect;
use fourier::{Allocator, Engine, ImgUnit};

fn r(bits: u64) -> Ring64 {
    Ring64 { bits }
}

fn ring_vec(values: &[u64]) -> Vec<Ring64> {
    values.iter().map(|&b| r(b)).collect()
}

fn bits_of(v: &[Ring64]) -> Vec<u64> {
    v.iter().map(|x| x.bits).collect()
}

#[test]
fn bit_reversal_reverses_digits() {
    assert_eq!(bit_reversal(0, 3), 0);
    assert_eq!(bit_reversal(1, 3), 4);
    assert_eq!(bit_reversal(2, 3), 2);
    assert_eq!(bit_reversal(3, 3), 6);
    assert_eq!(bit_reversal(4, 3), 1);
    assert_eq!(bit_reversal(6, 3), 3);
    assert_eq!(bit_reversal(5, 4), 10);
}

#[test]
fn log2_of_powers() {
    assert_eq!(log2_of(2), 1);
    assert_eq!(log2_of(8), 3);
    assert_eq!(log2_of(65536), 16);
}

#[test]
fn twiddle_cache_holds_model_values() {
    let cache: TwiddleCache<Ring64, 8> = TwiddleCache::new();
    // The exact ring's twiddle of index m for length n is m % n.
    assert_eq!(cache.get(0), r(0));
    assert_eq!(cache.get(1), r(1));
    assert_eq!(cache.get(3), r(3));
}

#[test]
fn naive_small_exact_values() {
    // For length 2 the exact ring's rotations are rot(i, 0) = 1 and
    // rot(i, 1) = i, so bin 0 = v0 and bin 1 = v0 + v1.
    let engine: Engine<Ring64, 2, Naive, Rect, BoxedAllocator> = Engine::new();
    let v = ring_vec(&[5, 9]);
    let mut out = <BoxedAllocator as Allocator<Ring64, 2>>::allocate();
    engine.fft(&v, &mut out);
    assert_eq!(bits_of(&out), vec![5, 14]);
}

#[test]
fn cooley_tukey_small_exact_values() {
    // For length 2 the radix-2 transform is a single fused stage:
    // bin 0 = v0 + v1, bin 1 = v0 - v1, with wraparound.
    let engine: Engine<Ring64, 2, CooleyTukey, Rect, BoxedAllocator> = Engine::new();
    let v = ring_vec(&[7, 9]);
    let mut out = <BoxedAllocator as Allocator<Ring64, 2>>::allocate();
    engine.fft(&v, &mut out);
    assert_eq!(out[0], r(16));
    assert_eq!(out[1], r(7u64.wrapping_sub(9)));
}

#[test]
fn impulse_is_all_ones_exactly() {
    // The proved impulse law, on concrete values: all three algorithms send
    // the unit impulse to the all-ones spectrum, exactly.
    let mut v = ring_vec(&[0; 8]);
    v[0] = r(1);

    let ct: Engine<Ring64, 8, CooleyTukey, Rect, BoxedAllocator> = Engine::new();
    let mut out = <BoxedAllocator as Allocator<Ring64, 8>>::allocate();
    ct.fft(&v, &mut out);
    assert_eq!(bits_of(&out), vec![1; 8]);

    let nv: Engine<Ring64, 8, Naive, Rect, BoxedAllocator> = Engine::new();
    let mut out2 = <BoxedAllocator as Allocator<Ring64, 8>>::allocate();
    nv.fft(&v, &mut out2);
    assert_eq!(bits_of(&out2), vec![1; 8]);

    let co: Engine<Ring64, 8, Cooley, Rect, ArrayAllocator> = Engine::new();
    let mut out3 = <ArrayAllocator as Allocator<Ring64, 8>>::allocate();
    co.fft(&v, &mut out3);
    assert_eq!(bits_of(&out3), vec![1; 8]);
}

#[test]
fn linearity_is_exact_on_the_ring() {
    // The proved linearity law, on concrete values: transform of a linear
    // combination equals the linear combination of the transforms, exactly.
    let engine: Engine<Ring64, 8, CooleyTukey, Rect, BoxedAllocator> = Engine::new();
    let v = ring_vec(&[3, 1, 4, 1, 5, 9, 2, 6]);
    let e = ring_vec(&[2, 7, 1, 8, 2, 8, 1, 8]);
    let alpha = r(11);
    let beta = r(13);

    let combo: Vec<Ring64> = (0..8)
        .map(|i| v[i].mul(alpha).add(e[i].mul(beta)))
        .collect();
    let mut fft_combo = <BoxedAllocator as Allocator<Ring64, 8>>::allocate();
    engine.fft(&combo, &mut fft_combo);

    let mut fft_v = <BoxedAllocator as Allocator<Ring64, 8>>::allocate();
    engine.fft(&v, &mut fft_v);
    let mut fft_e = <BoxedAllocator as Allocator<Ring64, 8>>::allocate();
    engine.fft(&e, &mut fft_e);
    let combo_fft: Vec<Ring64> = (0..8)
        .map(|i| fft_v[i].mul(alpha).add(fft_e[i].mul(beta)))
        .collect();

    assert_eq!(bits_of(&fft_combo), bits_of(&combo_fft));
}

#[test]
fn transform_is_deterministic() {
    // Two transforms of equal fresh inputs through one engine agree
    // bit for bit.
    let engine: Engine<Ring64, 8, CooleyTukey, Rect, BoxedAllocator> = Engine::new();
    let v1 = ring_vec(&[3, 1, 4, 1, 5, 9, 2, 6]);
    let v2 = ring_vec(&[3, 1, 4, 1, 5, 9, 2, 6]);
    let mut out1 = <BoxedAllocator as Allocator<Ring64, 8>>::allocate();
    engine.fft(&v1, &mut out1);
    let mut out2 = <BoxedAllocator as Allocator<Ring64, 8>>::allocate();
    engine.fft(&v2, &mut out2);
    assert_eq!(bits_of(&out1), bits_of(&out2));
}

#[test]
fn windows_pass_exact_elements_through() {
    // The exact ring carries no fractional weights: its raised-cosine
    // weighting collapses to the identity, so all three windows agree.
    let v = ring_vec(&[3, 1, 4, 1]);
    let rect: Engine<Ring64, 4, CooleyTukey, Rect, BoxedAllocator> = Engine::new();
    let ham: Engine<Ring64, 4, CooleyTukey, Hamming, BoxedAllocator> = Engine::new();
    let han: Engine<Ring64, 4, CooleyTukey, Hanning, BoxedAllocator> = Engine::new();
    let mut o1 = <BoxedAllocator as Allocator<Ring64, 4>>::allocate();
    rect.fft(&v, &mut o1);
    let mut o2 = <BoxedAllocator as Allocator<Ring64, 4>>::allocate();
    ham.fft(&v, &mut o2);
    let mut o3 = <BoxedAllocator as Allocator<Ring64, 4>>::allocate();
    han.fft(&v, &mut o3);
    assert_eq!(bits_of(&o1), bits_of(&o2));
    assert_eq!(bits_of(&o1), bits_of(&o3));
}

#[test]
fn gauss_arithmetic_and_unit() {
    let i = Gauss64::img_unit();
    assert_eq!(i, Gauss64 { re: 0, im: 1 });
    // i * i == -1 in the wraparound ring.
    let sq = i.mul(i);
    assert_eq!(sq, Gauss64 { re: u64::MAX, im: 0 });
    let a = Gauss64 { re: 3, im: 2 };
    let b = Gauss64 { re: 5, im: 7 };
    assert_eq!(a.mul(b), Gauss64 { re: 1, im: 31 });
    assert_eq!(a.add(b), Gauss64 { re: 8, im: 9 });
    assert_eq!(b.sub(a), Gauss64 { re: 2, im: 5 });
}

#[test]
fn gauss_impulse_is_all_ones() {
    let mut v: Vec<Gauss64> = (0..8).map(|_| Gauss64 { re: 0, im: 0 }).collect();
    v[0] = Gauss64 { re: 1, im: 0 };
    let engine: Engine<Gauss64, 8, CooleyTukey, Rect, BoxedAllocator> = Engine::new();
    let mut out = <BoxedAllocator as Allocator<Gauss64, 8>>::allocate();
    engine.fft(&v, &mut out);
    for x in out.iter() {
        assert_eq!(*x, Gauss64 { re: 1, im: 0 });
    }
}

#[test]
fn cooley_tukey_length_four_exact_values() {
    // Length 4, worked by hand over the exact ring.  The fused first stage
    // pairs bit-reversed indices: [v0+v2, v0-v2, v1+v3, v1-v3].  The one
    // remaining butterfly stage uses the ring twiddles 0 and 1, giving
    // [s0, s1+s3, s0, s1-s3] with wraparound.
    let engine: Engine<Ring64, 4, CooleyTukey, Rect, BoxedAllocator> = Engine::new();
    let v = ring_vec(&[1, 2, 3, 4]);
    let mut out = <BoxedAllocator as Allocator<Ring64, 4>>::allocate();
    engine.fft(&v, &mut out);
    let s1 = 1u64.wrapping_sub(3);
    let s3 = 2u64.wrapping_sub(4);
    assert_eq!(out[0], r(4));
    assert_eq!(out[1], r(s1.wrapping_add(s3)));
    assert_eq!(out[2], r(4));
    assert_eq!(out[3], r(s1.wrapping_sub(s3)));
}
