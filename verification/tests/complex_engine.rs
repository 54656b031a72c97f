//! Engine tests over a complex floating-point element.

use fourier::allocators::boxed::BoxedAllocator;
use fourier::implementations::cooley::Cooley;
use fourier::implementations::cooley_tukey::CooleyTukey;
use fourier::implementations::naive::Naive;
use fourier::sample::Sample;
use fourier::windows::Rect;
use fourier::{Allocator, Engine};

use rand::rngs::StdRng;
use rand::{Rng, SeedableRng};

const ALPHA: f32 = 0.5;
const BETA: f32 = 0.75;
const N: usize = 32;
const PI: f32 = std::f32::consts::PI;

/// A complex sample backed by two `f32` components.
#[derive(Clone, Copy, Debug, PartialEq)]
struct C32 {
    re: f32,
    im: f32,
}

impl C32 {
    fn new(re: f32, im: f32) -> C32 {
        C32 { re, im }
    }
}

impl Sample for C32 {
    fn zero() -> C32 {
        C32::new(0.0, 0.0)
    }

    fn add(self, o: C32) -> C32 {
        C32::new(self.re + o.re, self.im + o.im)
    }

    fn sub(self, o: C32) -> C32 {
        C32::new(self.re - o.re, self.im - o.im)
    }

    fn mul(self, o: C32) -> C32 {
        C32::new(
            self.re * o.re - self.im * o.im,
            self.re * o.im + self.im * o.re,
        )
    }

    fn twiddle(m: usize, n: usize) -> C32 {
        let w = -2.0 * PI * (m as f32) / (n as f32);
        C32::new(w.cos(), w.sin())
    }

    fn rotation(i: usize, j: usize, n: usize) -> C32 {
        let w = -(2.0 * PI * (i as f32) * (j as f32)) / (n as f32);
        C32::new(w.cos(), w.sin())
    }

    fn omega(k: usize, n: usize) -> C32 {
        let w = (PI * (k as f32) / (n as f32)).exp();
        C32::new(w, 0.0)
    }

    fn hamming_weighted(self, i: usize, n: usize) -> C32 {
        let w = 0.54 - 0.46 * (2.0 * PI * (i as f32) / (n as f32)).cos();
        C32::new(self.re * w, self.im * w)
    }

    fn hanning_weighted(self, i: usize, n: usize) -> C32 {
        let w = 0.5 - 0.5 * (2.0 * PI * (i as f32) / (n as f32)).cos();
        C32::new(self.re * w, self.im * w)
    }
}

fn close(a: f32, b: f32, eps: f32) -> bool {
    if a == b {
        return true;
    }
    let diff = (a - b).abs();
    diff <= eps || diff <= f32::EPSILON * a.abs().max(b.abs())
}

fn assert_all_close(a: &[C32], b: &[C32], eps: f32) {
    assert_eq!(a.len(), b.len());
    for idx in 0..a.len() {
        println!("Evaluating idx: {idx}");
        assert!(
            close(a[idx].re, b[idx].re, eps) && close(a[idx].im, b[idx].im, eps),
            "mismatch at {}: {:?} vs {:?}",
            idx,
            a[idx],
            b[idx]
        );
    }
}

fn generate(generator: fn(usize) -> C32) -> Vec<C32> {
    (0..N).map(generator).collect()
}

fn generate_impulse() -> Vec<C32> {
    generate(|idx| {
        if idx == 0 {
            C32::new(1.0, 0.0)
        } else {
            C32::new(0.0, 0.0)
        }
    })
}

fn allocate() -> Vec<C32> {
    <BoxedAllocator as Allocator<C32, N>>::allocate()
}

fn sum_v(a: &mut [C32], b: impl Iterator<Item = C32>) {
    for (idx, val) in b.enumerate() {
        a[idx] = a[idx].add(val);
    }
}

fn mul_v(a: &mut [C32], alpha: f32) {
    for val in a {
        *val = C32::new(val.re * alpha, val.im * alpha);
    }
}

fn impulse_test_for<I>()
where
    I: fourier::Implementation<C32, N, BoxedAllocator>,
{
    let engine: Engine<C32, N, I, Rect, BoxedAllocator> = Engine::new();
    let impulse = generate_impulse();
    let mut fft_impulse = allocate();
    engine.fft(&impulse, &mut fft_impulse);
    let expected = generate(|_| C32::new(1.0, 0.0));
    assert_all_close(&expected, &fft_impulse, 1e-1);
}

fn linearity_test_for<I>()
where
    I: fourier::Implementation<C32, N, BoxedAllocator>,
{
    let engine: Engine<C32, N, I, Rect, BoxedAllocator> = Engine::new();
    let v = generate(|idx| C32::new(idx as f32, 0.0));
    let e = generate(|idx| C32::new((idx + 1usize) as f32, 0.0));

    // Transform of the linear combination.
    let mut a_v: Vec<C32> = v.iter().map(|x| C32::new(x.re * ALPHA, x.im * ALPHA)).collect();
    let b_e: Vec<C32> = e.iter().map(|x| C32::new(x.re * BETA, x.im * BETA)).collect();
    sum_v(&mut a_v, b_e.into_iter());
    let sum = a_v;
    let mut fft_sum = allocate();
    engine.fft(&sum, &mut fft_sum);

    // Linear combination of the transforms.
    let mut a_fft_v = allocate();
    engine.fft(&v, &mut a_fft_v);
    mul_v(&mut a_fft_v, ALPHA);
    let mut e_fft_v = allocate();
    engine.fft(&e, &mut e_fft_v);
    sum_v(
        &mut a_fft_v,
        e_fft_v.iter().map(|x| C32::new(x.re * BETA, x.im * BETA)),
    );
    let sum_fft = a_fft_v;

    assert_all_close(&fft_sum, &sum_fft, 1e-1);
}

const GROUND_TEST_SEEDS: [u64; 3] = [1234, 495611, 38596722];

fn ground_truth_test_for<I>()
where
    I: fourier::Implementation<C32, N, BoxedAllocator>,
{
    let engine: Engine<C32, N, I, Rect, BoxedAllocator> = Engine::new();
    let naive_engine: Engine<C32, N, Naive, Rect, BoxedAllocator> = Engine::new();

    for seed in GROUND_TEST_SEEDS.iter() {
        let mut rng = StdRng::seed_from_u64(*seed);
        let v: Vec<C32> = (0..N)
            .map(|_| C32::new(rng.gen::<f32>(), rng.gen::<f32>()))
            .collect();
        println!("v: {:?}", v);
        let mut fft_v = allocate();
        engine.fft(&v, &mut fft_v);
        println!("fft: {:?}", fft_v);
        let mut naive_fft_v = allocate();
        naive_engine.fft(&v, &mut naive_fft_v);
        println!("naive_fft: {:?}", naive_fft_v);
        assert_all_close(&naive_fft_v, &fft_v, 1e-1);
    }
}

#[test]
fn cooley_tukey_impulse_test() {
    impulse_test_for::<CooleyTukey>();
}

#[test]
fn cooley_tukey_linearity_test() {
    linearity_test_for::<CooleyTukey>();
}

#[test]
fn cooley_tukey_ground_truth_test() {
    ground_truth_test_for::<CooleyTukey>();
}

#[test]
fn naive_impulse_test() {
    impulse_test_for::<Naive>();
}

#[test]
fn naive_linearity_test() {
    linearity_test_for::<Naive>();
}

#[test]
fn naive_ground_truth_test() {
    ground_truth_test_for::<Naive>();
}

#[test]
fn fft_linearity_holds() {
    linearity_test_for::<Cooley>();
}

#[test]
fn fft_unit_impulse_holds() {
    impulse_test_for::<Cooley>();
}
