//! The decimating ping-pong transform.
//!
//! Each stage reads one whole buffer and writes the other, pairing every
//! element of the first half of a block with its partner one stride away;
//! the sum lands in the left half of the output, the difference — after the
//! partner is weighted by the stage weight of its block offset — lands in
//! the right half.  The stride halves each stage, the buffers swap roles,
//! and no twiddle cache is held: the weight is recomputed per butterfly.

use vstd::prelude::*;
use vstd::arithmetic::power2::{lemma2_to64, lemma_pow2_unfold, pow2};

use crate::buffer::Buffer;
use crate::implementations::cooley_tukey::{exact_pow2, log2_of};
use crate::sample::Sample;
use crate::{Allocator, Implementation};

verus! {

/// One ping-pong stage at the given stride: output position `t` of the
/// first half takes `s[i + k] + s[i + k + stride] * w(k)`, its mirror in
/// the second half takes the difference, where `i` and `k` decompose the
/// position into its offset within a block and its block base.
pub open spec fn cooley_stage<T: Sample>(s: Seq<T>, stride: int, n: int) -> Seq<T> {
    Seq::new(n as nat, |t: int| {
        let h = n / 2;
        let u = if t < h {
            t
        } else {
            t - h
        };
        let i = u % stride;
        let k = 2 * stride * (u / stride);
        if t < h {
            T::add_s(s[i + k], T::mul_s(s[i + k + stride], T::omega_s(k, n)))
        } else {
            T::sub_s(s[i + k], T::mul_s(s[i + k + stride], T::omega_s(k, n)))
        }
    })
}

/// All ping-pong stages from `stride` down to one.
pub open spec fn cooley_stages<T: Sample>(s: Seq<T>, stride: int, n: int) -> Seq<T>
    decreases stride,
{
    if stride < 1 {
        s
    } else {
        cooley_stages(cooley_stage(s, stride, n), stride / 2, n)
    }
}

/// The ping-pong transform of `v`: every stage applied, widest first.
pub open spec fn cooley_model<T: Sample>(v: Seq<T>, n: int) -> Seq<T> {
    cooley_stages(v, n / 2, n)
}

/// Every run of ping-pong stages ends with exactly `n` elements once at
/// least one stage runs.
pub proof fn lemma_cooley_stages_len<T: Sample>(s: Seq<T>, stride: int, n: int)
    requires
        n >= 0,
    ensures
        cooley_stages(s, stride, n).len() == (if stride < 1 {
            s.len() as int
        } else {
            n
        }),
    decreases stride,
{
    if stride < 1 {
    } else {
        lemma_cooley_stages_len(cooley_stage(s, stride, n), stride / 2, n);
    }
}

/// The decimating ping-pong algorithm.
pub struct Cooley;

impl<T: Sample, const N: usize, A: Allocator<T, N>> Implementation<T, N, A> for Cooley {
    type Cache = ();

    open spec fn valid_len() -> bool {
        N >= 2 && exact_pow2(N as nat)
    }

    open spec fn cache_wf(c: &()) -> bool {
        true
    }

    open spec fn model(v: Seq<T>) -> Seq<T> {
        cooley_model(v, N as int)
    }

    proof fn model_len(v: Seq<T>) {
        lemma_cooley_stages_len::<T>(v, N as int / 2, N as int);
    }

    fn init_cache() -> (c: ()) {
        ()
    }

    fn fft(v: &Vec<T>, spectrum: &mut A::Element, cache: &()) {
        let ghost target = cooley_model(v@, N as int);
        let mut cur = A::allocate();
        let mut idx: usize = 0;
        while idx < N
            invariant
                v@.len() == N,
                cur.sview().len() == N,
                idx <= N,
                forall|t: int| 0 <= t < idx ==> cur.sview()[t] == v@[t],
            decreases N - idx,
        {
            cur.write(idx, v[idx]);
            idx += 1;
        }
        proof {
            assert(cur.sview() =~= v@);
        }
        let mut next = A::allocate();
        let log_n = log2_of(N);
        let half = N / 2;
        let mut sublen: usize = 1;
        let mut stride: usize = N;
        let ghost mut ge: nat = log_n as nat;
        proof {
            lemma_pow2_unfold(log_n as nat);
            assert(N as nat % 2 == 0);
        }
        while sublen < N
            invariant
                v@.len() == N,
                cur.sview().len() == N,
                next.sview().len() == N,
                N as nat % 2 == 0,
                half == N / 2,
                1 <= sublen,
                1 <= stride,
                stride as nat == pow2(ge),
                sublen * stride == N,
                cooley_stages(cur.sview(), stride as int / 2, N as int) == target,
            decreases stride,
        {
            proof {
                assert(stride >= 2) by {
                    vstd::arithmetic::power2::lemma_pow2_pos(ge);
                    if stride as int == 1 {
                        assert(sublen as int * stride as int == sublen as int)
                            by (nonlinear_arith)
                            requires
                                stride as int == 1,
                        ;
                    }
                }
                assert(ge >= 1) by {
                    if ge == 0 {
                        lemma2_to64();
                    }
                }
                lemma_pow2_unfold(ge);
            }
            let str2 = stride / 2;
            proof {
                ge = (ge - 1) as nat;
                assert(str2 as nat == pow2(ge));
                vstd::arithmetic::power2::lemma_pow2_pos(ge);
                assert(sublen as int * str2 as int == half as int) by (nonlinear_arith)
                    requires
                        sublen as int * (2 * str2 as int) == N as int,
                        half as int == N as int / 2,
                        N as int % 2 == 0,
                ;
            }
            let ghost s0 = cur.sview();
            let ghost n0 = next.sview();
            let ghost st = cooley_stage(s0, str2 as int, N as int);
            let mut t: usize = 0;
            while t < half
                invariant
                    cur.sview() == s0,
                    s0.len() == N,
                    next.sview().len() == N,
                    half == N / 2,
                    N as nat % 2 == 0,
                    1 <= str2,
                    1 <= sublen,
                    sublen as int * str2 as int == half as int,
                    st == cooley_stage(s0, str2 as int, N as int),
                    t <= half,
                    n0.len() == N,
                    forall|u: int|
                        0 <= u < N ==> next.sview()[u] == (if u < t || (half <= u < half + t) {
                            st[u]
                        } else {
                            n0[u]
                        }),
                decreases half - t,
            {
                let i = t % str2;
                let q = t / str2;
                proof {
                    assert(q < sublen && str2 as int * (q as int + 1) <= half as int) by {
                        vstd::arithmetic::div_mod::lemma_fundamental_div_mod(
                            t as int,
                            str2 as int,
                        );
                        vstd::arithmetic::div_mod::lemma_mod_bound(t as int, str2 as int);
                        assert(str2 as int * (q as int) <= t as int);
                        assert((q as int) * (str2 as int) < (sublen as int) * (str2 as int))
                            by (nonlinear_arith)
                            requires
                                str2 as int * (q as int) <= t as int,
                                (t as int) < half as int,
                                sublen as int * str2 as int == half as int,
                        ;
                        vstd::arithmetic::mul::lemma_mul_strict_inequality_converse(
                            q as int,
                            sublen as int,
                            str2 as int,
                        );
                        assert(str2 as int * (q as int + 1) <= str2 as int * (sublen as int))
                            by (nonlinear_arith)
                            requires
                                q as int + 1 <= sublen as int,
                                str2 >= 1,
                        ;
                        assert(str2 as int * (sublen as int) == half as int)
                            by (nonlinear_arith)
                            requires
                                sublen as int * str2 as int == half as int,
                        ;
                    }
                    assert(2 * half as int == N as int);
                    assert((2 * (str2 as int) * (q as int) + 2 * str2 as int) <= N as int)
                        by (nonlinear_arith)
                        requires
                            str2 as int * (q as int + 1) <= half as int,
                            2 * half as int == N as int,
                            str2 >= 1,
                            q >= 0,
                    ;
                }
                let k = 2 * str2 * q;
                proof {
                    assert((i as int + k as int + str2 as int) < N as int);
                    assert(t as int == i as int + str2 as int * q) by {
                        vstd::arithmetic::div_mod::lemma_fundamental_div_mod(
                            t as int,
                            str2 as int,
                        );
                    }
                    assert((t as int + half as int) < N as int);
                }
                let x = cur.read(i + k);
                let a = cur.read(i + k + str2).mul(T::omega(k, N));
                next.write(t, x.add(a));
                next.write(t + half, x.sub(a));
                proof {
                    assert(st[t as int] == T::add_s(
                        s0[i as int + k as int],
                        T::mul_s(
                            s0[i as int + k as int + str2 as int],
                            T::omega_s(k as int, N as int),
                        ),
                    )) by {
                        assert((t as int) < half as int);
                        assert(t as int % str2 as int == i as int);
                        assert(t as int / str2 as int == q);
                    }
                    assert(st[t as int + half as int] == T::sub_s(
                        s0[i as int + k as int],
                        T::mul_s(
                            s0[i as int + k as int + str2 as int],
                            T::omega_s(k as int, N as int),
                        ),
                    )) by {
                        assert((t as int + half as int) - half as int == t as int);
                    }
                }
                t += 1;
            }
            proof {
                assert(next.sview() =~= st);
                assert(cooley_stages(s0, str2 as int, N as int) == cooley_stages(
                    st,
                    str2 as int / 2,
                    N as int,
                ));
            }
            core::mem::swap(&mut cur, &mut next);
            proof {
                assert((2 * sublen as int) * (str2 as int) == N as int) by (nonlinear_arith)
                    requires
                        sublen as int * (2 * str2 as int) == N as int,
                ;
                assert((2 * sublen as int) <= N as int) by (nonlinear_arith)
                    requires
                        (2 * sublen as int) * (str2 as int) == N as int,
                        str2 >= 1,
                        sublen >= 1,
                ;
            }
            sublen = sublen * 2;
            stride = str2;
        }
        proof {
            assert((sublen as int) <= N as int) by (nonlinear_arith)
                requires
                    sublen as int * stride as int == N as int,
                    stride >= 1,
                    sublen >= 0,
            ;
            assert(sublen == N);
            assert(stride as int == 1) by (nonlinear_arith)
                requires
                    sublen as int * stride as int == N as int,
                    sublen as int == N as int,
                    stride >= 1,
                    N >= 2,
            ;
            assert(cooley_stages(cur.sview(), 0, N as int) == cur.sview());
            assert(cur.sview() == target);
        }
        let mut o: usize = 0;
        while o < N
            invariant
                cur.sview().len() == N,
                cur.sview() == target,
                spectrum.sview().len() == N,
                o <= N,
                forall|u: int| 0 <= u < o ==> spectrum.sview()[u] == target[u],
            decreases N - o,
        {
            spectrum.write(o, cur.read(o));
            o += 1;
        }
        proof {
            lemma_cooley_stages_len::<T>(v@, N as int / 2, N as int);
            assert(spectrum.sview() =~= target);
        }
    }
}

} // verus!
