//! The iterative radix-2 decimation-in-time transform.
//!
//! The algorithm materialises the input, performs a fused bit-reversal and
//! first butterfly stage into the spectrum buffer, and then runs the
//! remaining stages in place, doubling the butterfly stride each time.  The
//! per-butterfly rotation comes from a [`TwiddleCache`] built once per
//! engine.  The whole computation is specified stage by stage: the spectrum
//! is exactly [`ct_model`] of the input sequence.

use vstd::prelude::*;
use vstd::arithmetic::div_mod::{
    lemma_div_denominator, lemma_mod_multiples_vanish, lemma_small_mod,
};
use vstd::arithmetic::power2::{lemma2_to64, lemma_pow2_strictly_increases, lemma_pow2_unfold, pow2};

use crate::buffer::Buffer;
use crate::sample::Sample;
use crate::{Allocator, Implementation};

verus! {

/// The base-two logarithm of `n`, rounded down.
pub open spec fn slog2(n: nat) -> nat
    decreases n,
{
    if n <= 1 {
        0
    } else {
        1 + slog2(n / 2)
    }
}

/// Whether `n` is an exact power of two.
pub open spec fn exact_pow2(n: nat) -> bool {
    pow2(slog2(n)) == n
}

/// The reversal of the low `bits` binary digits of `k`: digit 0 moves to
/// position `bits - 1`, digit 1 to position `bits - 2`, and so on.
pub open spec fn srev(k: nat, bits: nat) -> nat
    decreases bits,
{
    if bits == 0 {
        0
    } else {
        (k % 2) * pow2((bits - 1) as nat) + srev(k / 2, (bits - 1) as nat)
    }
}

/// Appending digit `bits` of `k` to a reversal shifts the reversal up.
proof fn lemma_srev_extend(k: nat, bits: nat)
    ensures
        srev(k, bits + 1) == 2 * srev(k, bits) + (k / pow2(bits)) % 2,
    decreases bits,
{
    if bits == 0 {
        lemma2_to64();
        assert(srev(k / 2, 0) == 0);
        assert(srev(k, 0) == 0);
    } else {
        lemma_srev_extend(k / 2, (bits - 1) as nat);
        vstd::arithmetic::power2::lemma_pow2_pos((bits - 1) as nat);
        lemma_div_denominator(k as int, 2, pow2((bits - 1) as nat) as int);
        lemma_pow2_unfold(bits);
        assert((k % 2) * pow2(bits) == 2 * ((k % 2) * pow2((bits - 1) as nat)))
            by (nonlinear_arith)
            requires
                pow2(bits) == 2 * pow2((bits - 1) as nat),
        ;
        assert(srev(k, bits + 1) == (k % 2) * pow2(bits) + srev(k / 2, bits));
        assert(srev(k, bits) == (k % 2) * pow2((bits - 1) as nat) + srev(
            k / 2,
            (bits - 1) as nat,
        ));
        assert(srev(k / 2, bits) == 2 * srev(k / 2, (bits - 1) as nat) + ((k / 2) / pow2(
            (bits - 1) as nat,
        )) % 2);
        assert((k / 2) / pow2((bits - 1) as nat) == k / pow2(bits));
    }
}

/// A reversal of `bits` digits is below `pow2(bits)`.
pub proof fn lemma_srev_bound(k: nat, bits: nat)
    ensures
        srev(k, bits) < pow2(bits),
    decreases bits,
{
    if bits == 0 {
        lemma2_to64();
    } else {
        lemma_srev_bound(k / 2, (bits - 1) as nat);
        lemma_pow2_unfold(bits);
        assert((k % 2) * pow2((bits - 1) as nat) <= pow2((bits - 1) as nat))
            by (nonlinear_arith)
            requires
                k % 2 <= 1,
        ;
    }
}

/// Only the index zero reverses to zero.
pub proof fn lemma_srev_zero(bits: nat)
    ensures
        srev(0, bits) == 0,
    decreases bits,
{
    if bits == 0 {
    } else {
        lemma_srev_zero((bits - 1) as nat);
        assert(srev(0, bits) == (0nat % 2) * pow2((bits - 1) as nat) + srev(0, (bits - 1) as nat));
        assert((0nat % 2) * pow2((bits - 1) as nat) == 0) by (nonlinear_arith);
    }
}

/// A nonzero index below `pow2(bits)` reverses to a nonzero position.
pub proof fn lemma_srev_nonzero(k: nat, bits: nat)
    requires
        0 < k < pow2(bits),
    ensures
        srev(k, bits) != 0,
    decreases bits,
{
    if bits == 0 {
        lemma2_to64();
    } else {
        vstd::arithmetic::power2::lemma_pow2_pos((bits - 1) as nat);
        if k % 2 == 1 {
            assert((k % 2) * pow2((bits - 1) as nat) == pow2((bits - 1) as nat))
                by (nonlinear_arith)
                requires
                    k % 2 == 1,
            ;
        } else {
            lemma_pow2_unfold(bits);
            lemma_srev_nonzero(k / 2, (bits - 1) as nat);
        }
    }
}

/// Doubling an exact power of two gives the next one.
pub proof fn lemma_exact_pow2_double(c: nat)
    requires
        1 <= c,
        exact_pow2(c),
    ensures
        exact_pow2(2 * c),
        slog2(2 * c) == slog2(c) + 1,
{
    assert(slog2(2 * c) == 1 + slog2((2 * c) / 2));
    lemma_pow2_unfold(slog2(c) + 1);
}

/// Halving an exact power of two above one gives the previous one.
pub proof fn lemma_exact_pow2_half(c: nat)
    requires
        2 <= c,
        exact_pow2(c),
    ensures
        c % 2 == 0,
        exact_pow2(c / 2),
        slog2(c / 2) == slog2(c) - 1,
{
    lemma_pow2_unfold(slog2(c));
    lemma_slog2_pow2((slog2(c) - 1) as nat);
}

/// Two exact powers of two within a factor of two of each other are equal.
pub proof fn lemma_pow2_between(c: nat, n: nat)
    requires
        exact_pow2(c),
        exact_pow2(n),
        c <= n < 2 * c,
    ensures
        c == n,
{
    if slog2(c) < slog2(n) {
        lemma_pow2_unfold(slog2(n));
        if slog2(c) < slog2(n) - 1 {
            lemma_pow2_strictly_increases(slog2(c), (slog2(n) - 1) as nat);
        }
    } else if slog2(n) < slog2(c) {
        lemma_pow2_strictly_increases(slog2(n), slog2(c));
    }
}

/// A smaller exact power of two divides a larger one.
pub proof fn lemma_pow2_divides(c: nat, n: nat)
    requires
        exact_pow2(c),
        exact_pow2(n),
        1 <= c <= n,
    ensures
        n % c == 0,
{
    if slog2(c) > slog2(n) {
        lemma_pow2_strictly_increases(slog2(n), slog2(c));
    }
    vstd::arithmetic::power2::lemma_pow2_adds((slog2(n) - slog2(c)) as nat, slog2(c));
    vstd::arithmetic::div_mod::lemma_mod_multiples_basic(
        pow2((slog2(n) - slog2(c)) as nat) as int,
        c as int,
    );
}

/// Within a block that starts at a multiple of `m`, reduction modulo `m` is
/// the offset from the block start.
proof fn lemma_mod_in_block(j: int, k: int, m: int)
    requires
        0 < m,
        j % m == 0,
        j <= k < j + m,
    ensures
        k % m == k - j,
{
    vstd::arithmetic::div_mod::lemma_fundamental_div_mod(j, m);
    lemma_mod_multiples_vanish(j / m, k - j, m);
    lemma_small_mod((k - j) as nat, m as nat);
}

/// Compute the base-two logarithm of an exact power of two.
pub fn log2_of(n: usize) -> (r: usize)
    requires
        exact_pow2(n as nat),
    ensures
        r as nat == slog2(n as nat),
        pow2(r as nat) == n as nat,
{
    let mut m = n;
    let mut r: usize = 0;
    proof {
        lemma2_to64();
    }
    while m > 1
        invariant
            1 <= m,
            exact_pow2(m as nat),
            slog2(n as nat) == r as nat + slog2(m as nat),
            pow2(r as nat) * m as nat == n as nat,
            pow2(r as nat) <= n as nat,
        decreases m,
    {
        proof {
            lemma_pow2_unfold(slog2(m as nat));
            assert(m as nat % 2 == 0 && (m as nat) / 2 == pow2((slog2(m as nat) - 1) as nat));
            assert(slog2((m as nat) / 2) == slog2(m as nat) - 1) by {
                lemma_slog2_pow2((slog2(m as nat) - 1) as nat);
            }
            lemma_pow2_unfold((r + 1) as nat);
            assert(pow2((r + 1) as nat) * ((m as nat) / 2) == pow2(r as nat) * (m as nat))
                by (nonlinear_arith)
                requires
                    pow2((r + 1) as nat) == 2 * pow2(r as nat),
                    m as nat == 2 * ((m as nat) / 2),
            ;
            assert((usize::MAX as nat) < pow2(64)) by {
                lemma2_to64();
                vstd::arithmetic::power2::lemma2_to64_rest();
            }
            assert(r < 64) by {
                if r >= 64 {
                    if r > 64 {
                        lemma_pow2_strictly_increases(64, r as nat);
                    }
                }
            }
            assert(pow2((r + 1) as nat) <= n as nat) by (nonlinear_arith)
                requires
                    pow2((r + 1) as nat) * ((m as nat) / 2) == n as nat,
                    (m as nat) / 2 >= 1,
            ;
        }
        m = m / 2;
        r = r + 1;
    }
    proof {
        assert(m == 1);
        lemma2_to64();
    }
    r
}

/// `slog2` inverts `pow2`.
proof fn lemma_slog2_pow2(e: nat)
    ensures
        slog2(pow2(e)) == e,
    decreases e,
{
    if e == 0 {
        lemma2_to64();
    } else {
        lemma_slog2_pow2((e - 1) as nat);
        lemma_pow2_unfold(e);
        vstd::arithmetic::power2::lemma_pow2_pos((e - 1) as nat);
    }
}

/// Reverse the low `log_n` binary digits of `k`.
pub fn bit_reversal(k: usize, log_n: usize) -> (r: usize)
    requires
        pow2(log_n as nat) <= usize::MAX,
    ensures
        r as nat == srev(k as nat, log_n as nat),
        (r as nat) < pow2(log_n as nat),
{
    let ghost k0 = k as nat;
    let mut k = k;
    let mut r: usize = 0;
    let mut t: usize = 0;
    proof {
        lemma2_to64();
        lemma_srev_bound(k0, 0);
    }
    while t < log_n
        invariant
            t <= log_n,
            pow2(log_n as nat) <= usize::MAX,
            k as nat == k0 / pow2(t as nat),
            r as nat == srev(k0, t as nat),
            (r as nat) < pow2(t as nat),
        decreases log_n - t,
    {
        proof {
            lemma_srev_extend(k0, t as nat);
            lemma_pow2_unfold((t + 1) as nat);
            lemma_div_denominator(k0 as int, pow2(t as nat) as int, 2);
            vstd::arithmetic::power2::lemma_pow2_pos(t as nat);
            if ((t + 1) as nat) < (log_n as nat) {
                lemma_pow2_strictly_increases((t + 1) as nat, log_n as nat);
            }
            lemma_srev_bound(k0, (t + 1) as nat);
        }
        r = r * 2 + (k % 2);
        k = k / 2;
        t = t + 1;
    }
    r
}

/// A precomputed table of the `N / 2` twiddle factors of one element type
/// and one transform length: entry `m` is the model twiddle of index `m`.
pub struct TwiddleCache<T: Sample, const N: usize> {
    cache: Vec<T>,
}

impl<T: Sample, const N: usize> TwiddleCache<T, N> {
    /// The table holds exactly the first `N / 2` twiddle factors.
    pub closed spec fn wf(&self) -> bool {
        &&& self.cache@.len() == N / 2
        &&& forall|m: int| 0 <= m < N / 2 ==> self.cache@[m] == T::twiddle_s(m, N as int)
    }

    /// Build the table, evaluating each twiddle factor once.
    pub fn new() -> (c: Self)
        requires
            0 < N,
        ensures
            c.wf(),
    {
        let mut cache: Vec<T> = Vec::new();
        let mut m: usize = 0;
        while m < N / 2
            invariant
                0 < N,
                m <= N / 2,
                cache@.len() == m,
                forall|t: int| 0 <= t < m ==> cache@[t] == T::twiddle_s(t, N as int),
            decreases N / 2 - m,
        {
            cache.push(T::twiddle(m, N));
            m += 1;
        }
        TwiddleCache { cache }
    }

    /// Read twiddle factor `i`.
    pub fn get(&self, i: usize) -> (r: T)
        requires
            self.wf(),
            i < N / 2,
        ensures
            r == T::twiddle_s(i as int, N as int),
    {
        self.cache[i]
    }
}

/// The fused bit-reversal and first butterfly stage: element `i` of the
/// result pairs the input elements whose indices reverse to `i` and `i + 1`,
/// added at the even position and subtracted at the odd one.
pub open spec fn ct_first_stage<T: Sample>(v: Seq<T>, n: int, bits: nat) -> Seq<T> {
    Seq::new(n as nat, |i: int| {
        if i % 2 == 0 {
            T::add_s(v[srev(i as nat, bits) as int], v[srev((i + 1) as nat, bits) as int])
        } else {
            T::sub_s(v[srev((i - 1) as nat, bits) as int], v[srev(i as nat, bits) as int])
        }
    })
}

/// One in-place butterfly stage at the given stride: positions in the first
/// half of each block of `2 * stride` take `b + a * w`, their partners take
/// `b - a * w`, where the twiddle index advances by `n / (2 * stride)` per
/// position within the block.
pub open spec fn ct_stage<T: Sample>(s: Seq<T>, stride: int, n: int) -> Seq<T> {
    Seq::new(n as nat, |k: int| {
        let p = k % (2 * stride);
        let sublen = n / (2 * stride);
        if p < stride {
            T::add_s(s[k], T::mul_s(s[k + stride], T::twiddle_s(p * sublen, n)))
        } else {
            T::sub_s(s[k - stride], T::mul_s(s[k], T::twiddle_s((p - stride) * sublen, n)))
        }
    })
}

/// All butterfly stages from `stride` up to the transform length.
pub open spec fn ct_stages<T: Sample>(s: Seq<T>, stride: int, n: int) -> Seq<T>
    decreases n - stride,
{
    if stride < 2 || 2 * stride > n {
        s
    } else {
        ct_stages(ct_stage(s, stride, n), 2 * stride, n)
    }
}

/// The radix-2 transform of `v`: the fused first stage followed by every
/// remaining butterfly stage.
pub open spec fn ct_model<T: Sample>(v: Seq<T>, n: int) -> Seq<T> {
    ct_stages(ct_first_stage(v, n, slog2(n as nat)), 2, n)
}

/// The iterative radix-2 decimation-in-time algorithm.
pub struct CooleyTukey;

/// The fused permutation stage, executed: fills `spectrum` with
/// [`ct_first_stage`] of `buffer`.
pub fn bit_reversal_step<T: Sample, const N: usize, B: Buffer<T>>(
    log_n: usize,
    spectrum: &mut B,
    buffer: &B,
)
    requires
        1 <= log_n,
        pow2(log_n as nat) == N as nat,
        old(spectrum).sview().len() == N,
        buffer.sview().len() == N,
    ensures
        final(spectrum).sview() == ct_first_stage(buffer.sview(), N as int, log_n as nat),
{
    proof {
        lemma_pow2_unfold(log_n as nat);
    }
    let mut i: usize = 0;
    while i < N
        invariant
            1 <= log_n,
            pow2(log_n as nat) == N as nat,
            N as nat % 2 == 0,
            i <= N,
            i % 2 == 0,
            spectrum.sview().len() == N,
            buffer.sview().len() == N,
            forall|t: int|
                0 <= t < i ==> spectrum.sview()[t] == ct_first_stage(
                    buffer.sview(),
                    N as int,
                    log_n as nat,
                )[t],
        decreases N - i,
    {
        let j = bit_reversal(i, log_n);
        let k = bit_reversal(i + 1, log_n);
        let x = buffer.read(j);
        let y = buffer.read(k);
        spectrum.write(i, x.add(y));
        spectrum.write(i + 1, x.sub(y));
        i += 2;
    }
    proof {
        assert(spectrum.sview() =~= ct_first_stage(buffer.sview(), N as int, log_n as nat));
    }
}

/// The remaining butterfly stages, executed in place: leaves `spectrum`
/// holding [`ct_stages`] of its previous contents, from stride 2 up.
pub fn butterfly_step<T: Sample, const N: usize, B: Buffer<T>>(
    half_n: usize,
    log_n: usize,
    cache: &TwiddleCache<T, N>,
    spectrum: &mut B,
)
    requires
        cache.wf(),
        1 <= log_n,
        pow2(log_n as nat) == N as nat,
        half_n == N / 2,
        old(spectrum).sview().len() == N,
    ensures
        final(spectrum).sview() == ct_stages(old(spectrum).sview(), 2, N as int),
{
    let ghost target = ct_stages(old(spectrum).sview(), 2, N as int);
    let mut sublen: usize = half_n;
    let mut stride: usize = 2;
    let ghost mut ge: nat = (log_n - 1) as nat;
    proof {
        lemma_pow2_unfold(log_n as nat);
        vstd::arithmetic::power2::lemma_pow2_pos((log_n - 1) as nat);
        assert(N as nat == 2 * pow2((log_n - 1) as nat));
        assert(sublen as nat == pow2(ge));
    }
    while stride < N
        invariant
            cache.wf(),
            spectrum.sview().len() == N,
            2 <= stride <= N,
            sublen as nat == pow2(ge),
            sublen * stride == N,
            ct_stages(spectrum.sview(), stride as int, N as int) == target,
        decreases N - stride,
    {
        proof {
            assert(sublen >= 2) by {
                vstd::arithmetic::power2::lemma_pow2_pos(ge);
                if sublen as int == 1 {
                    assert(sublen as int * stride as int == stride as int)
                        by (nonlinear_arith)
                        requires sublen as int == 1;
                }
            }
            assert(ge >= 1) by {
                if ge == 0 {
                    lemma2_to64();
                }
            }
            lemma_pow2_unfold(ge);
        }
        sublen = sublen / 2;
        proof {
            ge = (ge - 1) as nat;
            assert(sublen as nat == pow2(ge));
            assert(sublen as int * (2 * stride as int) == N as int) by (nonlinear_arith)
                requires
                    (2 * sublen as int) * stride as int == N as int,
            ;
            assert(sublen >= 1) by {
                vstd::arithmetic::power2::lemma_pow2_pos(ge);
            }
            assert(sublen as int == N as int / (2 * stride as int)) by {
                vstd::arithmetic::div_mod::lemma_div_multiples_vanish(
                    sublen as int,
                    2 * stride as int,
                );
                assert((2 * stride as int) * sublen as int == N as int) by (nonlinear_arith)
                    requires
                        sublen as int * (2 * stride as int) == N as int,
                ;
            }
            assert(2 * (stride as int * sublen as int) == N as int) by (nonlinear_arith)
                requires
                    sublen as int * (2 * stride as int) == N as int,
            ;
        }
        let ghost s0 = spectrum.sview();
        let ghost st = ct_stage(s0, stride as int, N as int);
        let mut j: usize = 0;
        while j < N
            invariant
                cache.wf(),
                spectrum.sview().len() == N,
                s0.len() == N,
                2 <= stride,
                sublen >= 1,
                sublen * (2 * stride) == N,
                sublen as int == N as int / (2 * stride as int),
                2 * (stride as int * sublen as int) == N as int,
                st == ct_stage(s0, stride as int, N as int),
                j <= N,
                j as int % (2 * stride as int) == 0,
                forall|t: int|
                    0 <= t < N ==> spectrum.sview()[t] == (if t < j {
                        st[t]
                    } else {
                        s0[t]
                    }),
            decreases N - j,
        {
            proof {
                assert(j + 2 * stride <= N) by {
                    let m2 = 2 * stride as int;
                    vstd::arithmetic::div_mod::lemma_fundamental_div_mod(j as int, m2);
                    let q = j as int / m2;
                    assert(j as int == m2 * q);
                    assert(m2 * sublen as int == N as int) by (nonlinear_arith)
                        requires
                            sublen as int * (2 * stride as int) == N as int,
                            m2 == 2 * stride as int,
                    ;
                    assert(q * m2 < sublen as int * m2) by (nonlinear_arith)
                        requires
                            m2 * q < m2 * sublen as int,
                    ;
                    vstd::arithmetic::mul::lemma_mul_strict_inequality_converse(
                        q,
                        sublen as int,
                        m2,
                    );
                    vstd::arithmetic::mul::lemma_mul_inequality(q + 1, sublen as int, m2);
                    assert(m2 * (q + 1) == m2 * q + m2) by (nonlinear_arith);
                    assert(m2 * (q + 1) <= m2 * sublen as int) by (nonlinear_arith)
                        requires
                            (q + 1) * m2 <= sublen as int * m2,
                    ;
                }
            }
            let mut m: usize = 0;
            let mut k: usize = j;
            while k < j + stride
                invariant
                    cache.wf(),
                    spectrum.sview().len() == N,
                    s0.len() == N,
                    2 <= stride,
                    sublen >= 1,
                    sublen * (2 * stride) == N,
                    sublen as int == N as int / (2 * stride as int),
                    2 * (stride as int * sublen as int) == N as int,
                    st == ct_stage(s0, stride as int, N as int),
                    j as int % (2 * stride as int) == 0,
                    j + 2 * stride <= N,
                    j <= k <= j + stride,
                    m == (k - j) * sublen,
                    forall|t: int|
                        0 <= t < N ==> spectrum.sview()[t] == (if t < j || (j <= t < k) || (j
                            + stride <= t < k + stride) {
                            st[t]
                        } else {
                            s0[t]
                        }),
                decreases j + stride - k,
            {
                proof {
                    assert(m < N / 2) by {
                        vstd::arithmetic::mul::lemma_mul_inequality(
                            k - j,
                            stride as int - 1,
                            sublen as int,
                        );
                        assert((stride as int - 1) * sublen as int == stride as int
                            * sublen as int - sublen as int) by (nonlinear_arith);
                    }
                    lemma_mod_in_block(j as int, k as int, 2 * stride as int);
                    lemma_mod_in_block(j as int, k as int + stride as int, 2 * stride as int);
                }
                let tw = cache.get(m);
                let b = spectrum.read(k);
                let a = spectrum.read(k + stride).mul(tw);
                spectrum.write(k, b.add(a));
                spectrum.write(k + stride, b.sub(a));
                proof {
                    assert(st[k as int] == T::add_s(
                        s0[k as int],
                        T::mul_s(
                            s0[k as int + stride as int],
                            T::twiddle_s((k - j) * sublen as int, N as int),
                        ),
                    ));
                    assert(st[k as int + stride as int] == T::sub_s(
                        s0[k as int],
                        T::mul_s(
                            s0[k as int + stride as int],
                            T::twiddle_s((k - j) * sublen as int, N as int),
                        ),
                    ));
                    assert((k - j + 1) * sublen as int == (k - j) * sublen as int + sublen as int)
                        by (nonlinear_arith);
                    assert((k - j + 1) * sublen as int <= stride as int * sublen as int) by {
                        vstd::arithmetic::mul::lemma_mul_inequality(
                            k - j + 1,
                            stride as int,
                            sublen as int,
                        );
                    }
                }
                m = m + sublen;
                k = k + 1;
            }
            proof {
                lemma_mod_multiples_vanish(1, j as int, 2 * stride as int);
            }
            j = j + 2 * stride;
        }
        proof {
            assert(spectrum.sview() =~= st);
            assert(2 * stride <= N) by {
                vstd::arithmetic::mul::lemma_mul_inequality(1, sublen as int, 2 * stride as int);
                assert(sublen as int * (2 * stride as int) == N as int) by (nonlinear_arith)
                    requires
                        sublen * (2 * stride) == N,
                ;
            }
            assert(ct_stages(s0, stride as int, N as int) == ct_stages(
                st,
                2 * stride as int,
                N as int,
            ));
        }
        stride = stride * 2;
        proof {
            assert(sublen * stride == N) by (nonlinear_arith)
                requires
                    sublen as int * (2 * (stride as int / 2)) == N as int,
                    stride as int % 2 == 0,
            ;
        }
    }
    proof {
        assert(stride == N);
    }
}

impl<T: Sample, const N: usize, A: Allocator<T, N>> Implementation<T, N, A> for CooleyTukey {
    type Cache = TwiddleCache<T, N>;

    open spec fn valid_len() -> bool {
        N >= 2 && exact_pow2(N as nat)
    }

    open spec fn cache_wf(c: &TwiddleCache<T, N>) -> bool {
        c.wf()
    }

    open spec fn model(v: Seq<T>) -> Seq<T> {
        ct_model(v, N as int)
    }

    proof fn model_len(v: Seq<T>) {
        lemma_ct_stages_len(ct_first_stage(v, N as int, slog2(N as nat)), 2, N as int);
    }

    fn init_cache() -> (c: TwiddleCache<T, N>) {
        TwiddleCache::new()
    }

    fn fft(v: &Vec<T>, spectrum: &mut A::Element, cache: &TwiddleCache<T, N>) {
        let mut buffer = A::allocate();
        let mut idx: usize = 0;
        while idx < N
            invariant
                v@.len() == N,
                buffer.sview().len() == N,
                idx <= N,
                forall|t: int| 0 <= t < idx ==> buffer.sview()[t] == v@[t],
            decreases N - idx,
        {
            buffer.write(idx, v[idx]);
            idx += 1;
        }
        proof {
            assert(buffer.sview() =~= v@);
        }
        let log_n = log2_of(N);
        proof {
            assert(log_n >= 1) by {
                if log_n == 0 {
                    lemma2_to64();
                }
            }
        }
        bit_reversal_step::<T, N, A::Element>(log_n, spectrum, &buffer);
        butterfly_step::<T, N, A::Element>(N / 2, log_n, cache, spectrum);
    }
}

/// Every stage of butterflies preserves the sequence length.
pub proof fn lemma_ct_stages_len<T: Sample>(s: Seq<T>, stride: int, n: int)
    requires
        n >= 0,
    ensures
        ct_stages(s, stride, n).len() == (if stride < 2 || 2 * stride > n {
            s.len() as int
        } else {
            n
        }),
    decreases n - stride,
{
    if stride < 2 || 2 * stride > n {
    } else {
        lemma_ct_stages_len(ct_stage(s, stride, n), 2 * stride, n);
    }
}

} // verus!
