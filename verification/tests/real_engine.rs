//! Engine tests over a real floating-point element, including the
//! allocation-free composition and the very large transform.

use fourier::allocators::array::ArrayAllocator;
use fourier::implementations::cooley::Cooley;
use fourier::sample::Sample;
use fourier::windows::Rect;
use fourier::{Allocator, Engine};

const ALPHA: f32 = 0.5;
const BETA: f32 = 0.75;
const N: usize = 32;
const PI: f32 = std::f32::consts::PI;

/// A real sample backed by one `f32`.
#[derive(Clone, Copy, Debug, PartialEq)]
struct R32(f32);

impl Sample for R32 {
    fn zero() -> R32 {
        R32(0.0)
    }

    fn add(self, o: R32) -> R32 {
        R32(self.0 + o.0)
    }

    fn sub(self, o: R32) -> R32 {
        R32(self.0 - o.0)
    }

    fn mul(self, o: R32) -> R32 {
        R32(self.0 * o.0)
    }

    fn twiddle(m: usize, n: usize) -> R32 {
        R32((-2.0 * PI * (m as f32) / (n as f32)).cos())
    }

    fn rotation(i: usize, j: usize, n: usize) -> R32 {
        R32((-(2.0 * PI * (i as f32) * (j as f32)) / (n as f32)).cos())
    }

    fn omega(k: usize, n: usize) -> R32 {
        R32((PI * (k as f32) / (n as f32)).exp())
    }

    fn hamming_weighted(self, i: usize, n: usize) -> R32 {
        R32(self.0 * (0.54 - 0.46 * (2.0 * PI * (i as f32) / (n as f32)).cos()))
    }

    fn hanning_weighted(self, i: usize, n: usize) -> R32 {
        R32(self.0 * (0.5 - 0.5 * (2.0 * PI * (i as f32) / (n as f32)).cos()))
    }
}

fn close(a: f32, b: f32, eps: f32) -> bool {
    if a == b {
        return true;
    }
    let diff = (a - b).abs();
    diff <= eps || diff <= f32::EPSILON * a.abs().max(b.abs())
}

fn array_assert_eq(a: &[R32], b: &[R32]) {
    assert_eq!(a.len(), b.len());
    for idx in 0..a.len() {
        assert!(
            close(a[idx].0, b[idx].0, 0.1f32),
            "mismatch at {}: {} vs {}",
            idx,
            a[idx].0,
            b[idx].0
        );
    }
}

fn generate<const S: usize>(generator: fn(usize) -> f32) -> Vec<R32> {
    (0..S).map(|idx| R32(generator(idx))).collect()
}

fn generate_impulse<const S: usize, const INSTANT: usize>() -> Vec<R32> {
    (0..S)
        .map(|idx| if idx == INSTANT { R32(1.0f32) } else { R32(0.0f32) })
        .collect()
}

fn sum_v(a: &mut [R32], b: &[R32]) {
    assert_eq!(a.len(), b.len());
    for idx in 0..a.len() {
        a[idx] = R32(a[idx].0 + b[idx].0);
    }
}

fn test_engine<const S: usize>() -> Engine<R32, S, Cooley, Rect, ArrayAllocator> {
    Engine::new()
}

#[test]
fn milion_test() {
    let v = generate_impulse::<65_536, 0>();
    let engine = test_engine::<65_536>();
    let mut fft = <ArrayAllocator as Allocator<R32, 65_536>>::allocate();
    engine.fft(&v, &mut fft); //Frequency size is 1Hz per bin
    assert_eq!(1.0f32, fft[3].0);
}

#[test]
fn array_linearity_holds() {
    let engine = test_engine::<N>();
    let v = generate::<N>(|idx| idx as f32);
    let e = generate::<N>(|idx| (idx + 1usize) as f32);

    // Transform of the linear combination.
    let mut a_v: Vec<R32> = v.iter().map(|x| R32(x.0 * ALPHA)).collect();
    let b_e: Vec<R32> = e.iter().map(|x| R32(x.0 * BETA)).collect();
    sum_v(&mut a_v, &b_e);
    let sum = a_v;
    let mut fft_sum = <ArrayAllocator as Allocator<R32, N>>::allocate();
    engine.fft(&sum, &mut fft_sum);

    // Linear combination of the transforms.
    let mut fft_v = <ArrayAllocator as Allocator<R32, N>>::allocate();
    engine.fft(&v, &mut fft_v);
    let mut a_fft_v: Vec<R32> = fft_v.iter().map(|x| R32(ALPHA * x.0)).collect();
    let mut fft_e = <ArrayAllocator as Allocator<R32, N>>::allocate();
    engine.fft(&e, &mut fft_e);
    let b_fft_e: Vec<R32> = fft_e.iter().map(|x| R32(BETA * x.0)).collect();
    sum_v(&mut a_fft_v, &b_fft_e);
    let sum_fft = a_fft_v;

    array_assert_eq(&fft_sum, &sum_fft);
}

#[test]
fn array_unit_impulse_holds() {
    let engine = test_engine::<N>();
    let impulse = generate_impulse::<N, 0>();
    let mut fft_impulse = <ArrayAllocator as Allocator<R32, N>>::allocate();
    engine.fft(&impulse, &mut fft_impulse);
    let expected = generate::<N>(|_| 1.0f32);
    array_assert_eq(&expected, &fft_impulse);
}
