//! General laws of the transforms.
//!
//! These proof functions state, once and for all inputs, the properties a
//! caller may rely on: a transform is a function of its input alone, the
//! transforms are linear in the input signal over any lawful element type,
//! and a unit impulse transforms to the all-ones spectrum.  Floating-point
//! instantiations approximate these identities; over a [`LawfulSample`]
//! they hold exactly and are proved here.

use vstd::prelude::*;

use crate::implementations::cooley_tukey::{
    ct_first_stage, ct_model, ct_stage, ct_stages, exact_pow2, lemma_exact_pow2_double,
    lemma_pow2_between, lemma_pow2_divides, lemma_srev_bound, lemma_srev_nonzero, lemma_srev_zero,
    slog2, srev,
};
use crate::implementations::cooley::{cooley_model, cooley_stage, cooley_stages};
use crate::implementations::cooley_tukey::lemma_exact_pow2_half;
use crate::implementations::naive::{naive_bin, naive_model};
use crate::sample::{LawfulSample, Sample};
use crate::{Allocator, Implementation, WindowFunction};
use vstd::arithmetic::power2::{lemma2_to64, lemma_pow2_pos, lemma_pow2_unfold, pow2};

verus! {

/// The sequence `v` with every element multiplied by `a` on the right.
pub open spec fn scaled<T: Sample>(v: Seq<T>, a: T) -> Seq<T> {
    Seq::new(v.len(), |i: int| T::mul_s(v[i], a))
}

/// The elementwise sum of two sequences of equal length.
pub open spec fn summed<T: Sample>(v: Seq<T>, e: Seq<T>) -> Seq<T> {
    Seq::new(v.len(), |i: int| T::add_s(v[i], e[i]))
}

/// The linear combination `v * alpha + e * beta`, elementwise.
pub open spec fn lin_combo<T: Sample>(v: Seq<T>, e: Seq<T>, alpha: T, beta: T) -> Seq<T> {
    summed(scaled(v, alpha), scaled(e, beta))
}

/// The length-`n` unit impulse: one at index zero, zero elsewhere.
pub open spec fn impulse<T: Sample>(n: int) -> Seq<T> {
    Seq::new(n as nat, |i: int| if i == 0 {
        T::one_s()
    } else {
        T::zero_s()
    })
}

/// The length-`n` all-ones sequence.
pub open spec fn all_ones<T: Sample>(n: int) -> Seq<T> {
    Seq::new(n as nat, |i: int| T::one_s())
}

/// Determinism: an engine's spectrum is a function of the input model and
/// of nothing else, so two transforms of equal inputs through the same
/// composition agree exactly.
pub proof fn lemma_transform_deterministic<
    T: Sample,
    const N: usize,
    I: Implementation<T, N, A>,
    W: WindowFunction<T, N>,
    A: Allocator<T, N>,
>(s1: Seq<T>, s2: Seq<T>, v1: Seq<T>, v2: Seq<T>)
    requires
        v1 == v2,
        s1 == I::model(W::wmodel(v1)),
        s2 == I::model(W::wmodel(v2)),
    ensures
        s1 == s2,
{
}

/// Four summands regroup across the middle.
proof fn lemma_add_regroup<T: LawfulSample>(a: T, b: T, c: T, d: T)
    ensures
        T::add_s(T::add_s(a, b), T::add_s(c, d)) == T::add_s(T::add_s(a, c), T::add_s(b, d)),
{
    T::law_add_assoc(T::add_s(a, b), c, d);
    T::law_add_assoc(a, b, c);
    T::law_add_comm(b, c);
    T::law_add_assoc(a, c, b);
    T::law_add_assoc(T::add_s(a, c), b, d);
}

/// Each partial bin of the quadratic transform is linear in the signal.
proof fn lemma_naive_bin_linear<T: LawfulSample>(
    v: Seq<T>,
    e: Seq<T>,
    alpha: T,
    beta: T,
    i: int,
    j: int,
    n: int,
)
    requires
        v.len() == n,
        e.len() == n,
        0 <= j <= n,
    ensures
        naive_bin(lin_combo(v, e, alpha, beta), i, j, n) == T::add_s(
            T::mul_s(naive_bin(v, i, j, n), alpha),
            T::mul_s(naive_bin(e, i, j, n), beta),
        ),
    decreases j,
{
    let s = lin_combo(v, e, alpha, beta);
    if j <= 0 {
        T::law_mul_zero(alpha);
        T::law_mul_zero(beta);
        T::law_add_zero(T::zero_s());
    } else {
        lemma_naive_bin_linear(v, e, alpha, beta, i, j - 1, n);
        let rot = T::rotation_s(i, j - 1, n);
        let x = T::mul_s(v[j - 1], alpha);
        let y = T::mul_s(e[j - 1], beta);
        let av = naive_bin(v, i, j - 1, n);
        let ae = naive_bin(e, i, j - 1, n);
        assert(s[j - 1] == T::add_s(x, y));
        T::law_distrib(x, y, rot);
        T::law_mul_rcomm(v[j - 1], alpha, rot);
        T::law_mul_rcomm(e[j - 1], beta, rot);
        lemma_add_regroup::<T>(
            T::mul_s(av, alpha),
            T::mul_s(ae, beta),
            T::mul_s(T::mul_s(v[j - 1], rot), alpha),
            T::mul_s(T::mul_s(e[j - 1], rot), beta),
        );
        T::law_distrib(av, T::mul_s(v[j - 1], rot), alpha);
        T::law_distrib(ae, T::mul_s(e[j - 1], rot), beta);
    }
}

/// Linearity of the quadratic transform: transforming a linear combination
/// of two signals gives the same linear combination of their transforms.
pub proof fn lemma_naive_linear<T: LawfulSample>(v: Seq<T>, e: Seq<T>, alpha: T, beta: T, n: int)
    requires
        v.len() == n,
        e.len() == n,
        n >= 0,
    ensures
        naive_model(lin_combo(v, e, alpha, beta), n) == lin_combo(
            naive_model(v, n),
            naive_model(e, n),
            alpha,
            beta,
        ),
{
    assert forall|i: int| 0 <= i < n implies naive_model(lin_combo(v, e, alpha, beta), n)[i]
        == lin_combo(naive_model(v, n), naive_model(e, n), alpha, beta)[i] by {
        lemma_naive_bin_linear(v, e, alpha, beta, i, n, n);
    }
    assert(naive_model(lin_combo(v, e, alpha, beta), n) =~= lin_combo(
        naive_model(v, n),
        naive_model(e, n),
        alpha,
        beta,
    ));
}

/// Each partial bin of the quadratic transform of an impulse is one as soon
/// as the impulse position has been folded in.
proof fn lemma_naive_bin_impulse<T: LawfulSample>(i: int, j: int, n: int)
    requires
        0 <= j <= n,
    ensures
        naive_bin(impulse::<T>(n), i, j, n) == (if j >= 1 {
            T::one_s()
        } else {
            T::zero_s()
        }),
    decreases j,
{
    if j <= 0 {
    } else {
        lemma_naive_bin_impulse::<T>(i, j - 1, n);
        if j == 1 {
            T::law_rotation_zero(i, n);
            T::law_mul_one(T::rotation_s(i, 0, n));
            T::law_add_comm(T::zero_s(), T::one_s());
            T::law_add_zero(T::one_s());
        } else {
            T::law_mul_zero(T::rotation_s(i, j - 1, n));
            T::law_add_zero(T::one_s());
        }
    }
}

/// Unit impulse response of the quadratic transform: an impulse at index
/// zero transforms to one at every bin.
pub proof fn lemma_naive_impulse<T: LawfulSample>(n: int)
    requires
        n >= 1,
    ensures
        naive_model(impulse::<T>(n), n) == all_ones::<T>(n),
{
    assert forall|i: int| 0 <= i < n implies naive_model(impulse::<T>(n), n)[i] == all_ones::<
        T,
    >(n)[i] by {
        lemma_naive_bin_impulse::<T>(i, n, n);
    }
    assert(naive_model(impulse::<T>(n), n) =~= all_ones::<T>(n));
}

/// A sequence that is one on a leading block and zero past it.
spec fn leading_ones<T: Sample>(c: int, n: int) -> Seq<T> {
    Seq::new(n as nat, |i: int| if i < c {
        T::one_s()
    } else {
        T::zero_s()
    })
}

/// An index whose block offset lies in the first half of its block leaves
/// room for its partner one stride further on.
proof fn lemma_block_room(k: int, c: int, n: int)
    requires
        0 < c,
        0 <= k < n,
        n % (2 * c) == 0,
        k % (2 * c) < c,
    ensures
        k + c < n,
{
    let m2 = 2 * c;
    vstd::arithmetic::div_mod::lemma_fundamental_div_mod(k, m2);
    vstd::arithmetic::div_mod::lemma_mod_bound(k, m2);
    vstd::arithmetic::div_mod::lemma_fundamental_div_mod(n, m2);
    let q = k / m2;
    let w = n / m2;
    assert(q * m2 < w * m2) by (nonlinear_arith)
        requires
            m2 * q <= k,
            k < n,
            n == m2 * w,
    ;
    vstd::arithmetic::mul::lemma_mul_strict_inequality_converse(q, w, m2);
    assert(m2 * (q + 1) <= m2 * w) by (nonlinear_arith)
        requires
            q + 1 <= w,
            m2 >= 0,
    ;
    assert(m2 * (q + 1) == m2 * q + m2) by (nonlinear_arith);
}

/// The fused first stage of an impulse: ones in the first two positions,
/// zeros everywhere else.
proof fn lemma_ct_first_impulse<T: LawfulSample>(n: int, bits: nat)
    requires
        n >= 2,
        pow2(bits) == n,
        bits >= 1,
    ensures
        ct_first_stage(impulse::<T>(n), n, bits) == leading_ones::<T>(2, n),
{
    assert forall|i: int| 0 <= i < n implies ct_first_stage(impulse::<T>(n), n, bits)[i]
        == leading_ones::<T>(2, n)[i] by {
        lemma_pow2_unfold(bits);
        lemma_pow2_pos((bits - 1) as nat);
        lemma_srev_bound(i as nat, bits);
        lemma_srev_zero(bits);
        if i % 2 == 0 {
            lemma_srev_bound((i + 1) as nat, bits);
            if i == 0 {
                lemma_srev_nonzero(1, bits);
                T::law_add_zero(T::one_s());
            } else {
                lemma_srev_nonzero(i as nat, bits);
                lemma_srev_nonzero((i + 1) as nat, bits);
                T::law_add_zero(T::zero_s());
            }
        } else {
            lemma_srev_bound((i - 1) as nat, bits);
            if i == 1 {
                lemma_srev_nonzero(1, bits);
                T::law_sub_zero(T::one_s());
            } else {
                lemma_srev_nonzero((i - 1) as nat, bits);
                lemma_srev_nonzero(i as nat, bits);
                T::law_sub_zero(T::zero_s());
            }
        }
    }
    assert(ct_first_stage(impulse::<T>(n), n, bits) =~= leading_ones::<T>(2, n));
}

/// One butterfly stage doubles the leading block of ones.
proof fn lemma_ct_stage_ones<T: LawfulSample>(c: int, n: int)
    requires
        2 <= c,
        2 * c <= n,
        n % (2 * c) == 0,
    ensures
        ct_stage(leading_ones::<T>(c, n), c, n) == leading_ones::<T>(2 * c, n),
{
    let s = leading_ones::<T>(c, n);
    assert forall|k: int| 0 <= k < n implies ct_stage(s, c, n)[k] == leading_ones::<T>(
        2 * c,
        n,
    )[k] by {
        vstd::arithmetic::div_mod::lemma_mod_bound(k, 2 * c);
        let p = k % (2 * c);
        let tw = T::twiddle_s(p * (n / (2 * c)), n);
        let tw2 = T::twiddle_s((p - c) * (n / (2 * c)), n);
        if k < 2 * c {
            vstd::arithmetic::div_mod::lemma_small_mod(k as nat, (2 * c) as nat);
            assert(p == k);
        }
        if p < c {
            lemma_block_room(k, c, n);
            T::law_mul_zero(tw);
            if k < c {
                T::law_add_zero(T::one_s());
            } else {
                assert(k >= 2 * c);
                T::law_add_zero(T::zero_s());
            }
        } else {
            T::law_mul_zero(tw2);
            if k < 2 * c {
                T::law_sub_zero(T::one_s());
            } else {
                T::law_sub_zero(T::zero_s());
            }
        }
    }
    assert(ct_stage(s, c, n) =~= leading_ones::<T>(2 * c, n));
}

/// Running the remaining stages over a leading block of ones of the stage
/// width fills the whole spectrum with ones.
proof fn lemma_ct_stages_ones<T: LawfulSample>(c: int, n: int)
    requires
        2 <= c <= n,
        exact_pow2(n as nat),
        exact_pow2(c as nat),
    ensures
        ct_stages(leading_ones::<T>(c, n), c, n) == leading_ones::<T>(n, n),
    decreases n - c,
{
    if 2 * c > n {
        lemma_pow2_between(c as nat, n as nat);
    } else {
        lemma_exact_pow2_double(c as nat);
        lemma_pow2_divides((2 * c) as nat, n as nat);
        lemma_ct_stage_ones::<T>(c, n);
        lemma_ct_stages_ones::<T>(2 * c, n);
    }
}

/// Unit impulse response of the radix-2 transform: an impulse at index zero
/// transforms to one at every bin.
pub proof fn lemma_ct_impulse<T: LawfulSample>(n: int)
    requires
        n >= 2,
        exact_pow2(n as nat),
    ensures
        ct_model(impulse::<T>(n), n) == all_ones::<T>(n),
{
    let bits = slog2(n as nat);
    assert(bits >= 1) by {
        if bits == 0 {
            lemma2_to64();
        }
    }
    lemma_ct_first_impulse::<T>(n, bits);
    assert(exact_pow2(2nat)) by {
        lemma2_to64();
        assert(slog2(2nat) == 1 + slog2(1nat));
    }
    lemma_ct_stages_ones::<T>(2, n);
    assert(leading_ones::<T>(n, n) =~= all_ones::<T>(n));
}

/// Four summands regroup across the middle, with the second pair negated.
proof fn lemma_sub_regroup<T: LawfulSample>(a: T, b: T, c: T, d: T)
    ensures
        T::sub_s(T::add_s(a, b), T::add_s(c, d)) == T::add_s(T::sub_s(a, c), T::sub_s(b, d)),
{
    T::law_add_sub_swap(a, c, b, d);
}

/// One butterfly position is linear in the stage input.  The stage reads
/// `s[k]` and its partner; a linear combination of inputs passes through
/// both the twiddle multiplication and the sum or difference.
proof fn lemma_ct_stage_linear<T: LawfulSample>(
    v: Seq<T>,
    e: Seq<T>,
    alpha: T,
    beta: T,
    c: int,
    n: int,
)
    requires
        v.len() == n,
        e.len() == n,
        0 < c,
        n % (2 * c) == 0,
        n >= 0,
    ensures
        ct_stage(lin_combo(v, e, alpha, beta), c, n) == lin_combo(
            ct_stage(v, c, n),
            ct_stage(e, c, n),
            alpha,
            beta,
        ),
{
    let s = lin_combo(v, e, alpha, beta);
    assert forall|k: int| 0 <= k < n implies ct_stage(s, c, n)[k] == lin_combo(
        ct_stage(v, c, n),
        ct_stage(e, c, n),
        alpha,
        beta,
    )[k] by {
        vstd::arithmetic::div_mod::lemma_mod_bound(k, 2 * c);
        let p = k % (2 * c);
        let sub = n / (2 * c);
        if p < c {
            lemma_block_room(k, c, n);
            let tw = T::twiddle_s(p * sub, n);
            let xv = T::mul_s(v[k + c], tw);
            let xe = T::mul_s(e[k + c], tw);
            T::law_distrib(T::mul_s(v[k + c], alpha), T::mul_s(e[k + c], beta), tw);
            T::law_mul_rcomm(v[k + c], alpha, tw);
            T::law_mul_rcomm(e[k + c], beta, tw);
            lemma_add_regroup::<T>(
                T::mul_s(v[k], alpha),
                T::mul_s(e[k], beta),
                T::mul_s(xv, alpha),
                T::mul_s(xe, beta),
            );
            T::law_distrib(v[k], xv, alpha);
            T::law_distrib(e[k], xe, beta);
        } else {
            assert(k >= c) by {
                vstd::arithmetic::div_mod::lemma_fundamental_div_mod(k, 2 * c);
                vstd::arithmetic::div_mod::lemma_div_pos_is_pos(k, 2 * c);
                vstd::arithmetic::mul::lemma_mul_nonnegative(2 * c, k / (2 * c));
            }
            let tw = T::twiddle_s((p - c) * sub, n);
            let xv = T::mul_s(v[k], tw);
            let xe = T::mul_s(e[k], tw);
            T::law_distrib(T::mul_s(v[k], alpha), T::mul_s(e[k], beta), tw);
            T::law_mul_rcomm(v[k], alpha, tw);
            T::law_mul_rcomm(e[k], beta, tw);
            lemma_sub_regroup::<T>(
                T::mul_s(v[k - c], alpha),
                T::mul_s(e[k - c], beta),
                T::mul_s(xv, alpha),
                T::mul_s(xe, beta),
            );
            T::law_sub_distrib(v[k - c], xv, alpha);
            T::law_sub_distrib(e[k - c], xe, beta);
        }
    }
    assert(ct_stage(s, c, n) =~= lin_combo(ct_stage(v, c, n), ct_stage(e, c, n), alpha, beta));
}

/// The fused first stage is linear in the input signal.
proof fn lemma_ct_first_linear<T: LawfulSample>(
    v: Seq<T>,
    e: Seq<T>,
    alpha: T,
    beta: T,
    n: int,
    bits: nat,
)
    requires
        v.len() == n,
        e.len() == n,
        pow2(bits) == n,
    ensures
        ct_first_stage(lin_combo(v, e, alpha, beta), n, bits) == lin_combo(
            ct_first_stage(v, n, bits),
            ct_first_stage(e, n, bits),
            alpha,
            beta,
        ),
{
    let s = lin_combo(v, e, alpha, beta);
    assert forall|i: int| 0 <= i < n implies ct_first_stage(s, n, bits)[i] == lin_combo(
        ct_first_stage(v, n, bits),
        ct_first_stage(e, n, bits),
        alpha,
        beta,
    )[i] by {
        if i % 2 == 0 {
            let a = srev(i as nat, bits) as int;
            let b = srev((i + 1) as nat, bits) as int;
            lemma_srev_bound(i as nat, bits);
            lemma_srev_bound((i + 1) as nat, bits);
            lemma_add_regroup::<T>(
                T::mul_s(v[a], alpha),
                T::mul_s(e[a], beta),
                T::mul_s(v[b], alpha),
                T::mul_s(e[b], beta),
            );
            T::law_distrib(v[a], v[b], alpha);
            T::law_distrib(e[a], e[b], beta);
        } else {
            let a = srev((i - 1) as nat, bits) as int;
            let b = srev(i as nat, bits) as int;
            lemma_srev_bound((i - 1) as nat, bits);
            lemma_srev_bound(i as nat, bits);
            lemma_sub_regroup::<T>(
                T::mul_s(v[a], alpha),
                T::mul_s(e[a], beta),
                T::mul_s(v[b], alpha),
                T::mul_s(e[b], beta),
            );
            T::law_sub_distrib(v[a], v[b], alpha);
            T::law_sub_distrib(e[a], e[b], beta);
        }
    }
    assert(ct_first_stage(s, n, bits) =~= lin_combo(
        ct_first_stage(v, n, bits),
        ct_first_stage(e, n, bits),
        alpha,
        beta,
    ));
}

/// Every remaining stage preserves linear combinations.
proof fn lemma_ct_stages_linear<T: LawfulSample>(
    v: Seq<T>,
    e: Seq<T>,
    alpha: T,
    beta: T,
    c: int,
    n: int,
)
    requires
        v.len() == n,
        e.len() == n,
        2 <= c <= n,
        exact_pow2(n as nat),
        exact_pow2(c as nat),
    ensures
        ct_stages(lin_combo(v, e, alpha, beta), c, n) == lin_combo(
            ct_stages(v, c, n),
            ct_stages(e, c, n),
            alpha,
            beta,
        ),
    decreases n - c,
{
    if 2 * c > n {
    } else {
        lemma_exact_pow2_double(c as nat);
        lemma_pow2_divides((2 * c) as nat, n as nat);
        lemma_ct_stage_linear(v, e, alpha, beta, c, n);
        lemma_ct_stages_linear(ct_stage(v, c, n), ct_stage(e, c, n), alpha, beta, 2 * c, n);
    }
}

/// Linearity of the radix-2 transform: transforming a linear combination
/// of two signals gives the same linear combination of their transforms.
pub proof fn lemma_ct_linear<T: LawfulSample>(v: Seq<T>, e: Seq<T>, alpha: T, beta: T, n: int)
    requires
        v.len() == n,
        e.len() == n,
        n >= 2,
        exact_pow2(n as nat),
    ensures
        ct_model(lin_combo(v, e, alpha, beta), n) == lin_combo(
            ct_model(v, n),
            ct_model(e, n),
            alpha,
            beta,
        ),
{
    let bits = slog2(n as nat);
    lemma_ct_first_linear(v, e, alpha, beta, n, bits);
    assert(exact_pow2(2nat)) by {
        lemma2_to64();
        assert(slog2(2nat) == 1 + slog2(1nat));
    }
    lemma_ct_stages_linear(
        ct_first_stage(v, n, bits),
        ct_first_stage(e, n, bits),
        alpha,
        beta,
        2,
        n,
    );
}

/// A comb sequence: one at every multiple of `c`, zero elsewhere.
spec fn comb<T: Sample>(c: int, n: int) -> Seq<T> {
    Seq::new(n as nat, |i: int| if i % c == 0 {
        T::one_s()
    } else {
        T::zero_s()
    })
}

/// The position arithmetic of one ping-pong butterfly: the block offset,
/// the block base, and the bounds of the indices that the stage reads.
proof fn lemma_cooley_position(u: int, c: int, n: int)
    requires
        0 < c,
        n % (2 * c) == 0,
        0 <= u < n / 2,
        n >= 2,
    ensures
        0 <= u % c < c,
        0 <= u / c,
        u == u % c + c * (u / c),
        u % c + 2 * c * (u / c) + c < n,
{
    let i = u % c;
    let q = u / c;
    vstd::arithmetic::div_mod::lemma_fundamental_div_mod(u, c);
    vstd::arithmetic::div_mod::lemma_mod_bound(u, c);
    vstd::arithmetic::div_mod::lemma_div_pos_is_pos(u, c);
    let h = n / 2;
    assert(n == 2 * h) by {
        vstd::arithmetic::div_mod::lemma_fundamental_div_mod(n, 2 * c);
        vstd::arithmetic::div_mod::lemma_fundamental_div_mod(n, 2);
        assert(n % 2 == 0) by {
            vstd::arithmetic::div_mod::lemma_mod_breakdown(n, 2, c);
        }
    }
    assert(c * q <= u) by {
        vstd::arithmetic::mul::lemma_mul_nonnegative(c, q);
    }
    assert(h % c == 0) by {
        vstd::arithmetic::div_mod::lemma_mod_breakdown(n, 2, c);
    }
    let w = h / c;
    vstd::arithmetic::div_mod::lemma_fundamental_div_mod(h, c);
    assert(q * c < w * c) by (nonlinear_arith)
        requires
            c * q <= u,
            u < h,
            h == c * w,
    ;
    vstd::arithmetic::mul::lemma_mul_strict_inequality_converse(q, w, c);
    assert(c * (q + 1) <= c * w) by (nonlinear_arith)
        requires
            q + 1 <= w,
            c >= 0,
    ;
    assert(i + 2 * c * q + c < 2 * h) by (nonlinear_arith)
        requires
            i < c,
            c * (q + 1) <= h,
            h == c * w,
            c * q >= 0,
            q >= 0,
            c > 0,
    ;
}

/// One ping-pong stage turns a comb of width `2 * c` into a comb of width
/// `c`.
proof fn lemma_cooley_stage_comb<T: LawfulSample>(c: int, n: int)
    requires
        1 <= c,
        2 * c <= n,
        n % (2 * c) == 0,
        exact_pow2(n as nat),
        n >= 2,
    ensures
        cooley_stage(comb::<T>(2 * c, n), c, n) == comb::<T>(c, n),
{
    let s = comb::<T>(2 * c, n);
    assert forall|t: int| 0 <= t < n implies cooley_stage(s, c, n)[t] == comb::<T>(c, n)[t] by {
        let h = n / 2;
        let u = if t < h { t } else { t - h };
        assert(n % 2 == 0) by {
            vstd::arithmetic::div_mod::lemma_mod_breakdown(n, 2, c);
        }
        lemma_cooley_position(u, c, n);
        let i = u % c;
        let q = u / c;
        let k = 2 * c * q;
        let w = T::omega_s(k, n);
        assert((i + k) % (2 * c) == i) by {
            vstd::arithmetic::div_mod::lemma_mod_multiples_vanish(q, i, 2 * c);
            vstd::arithmetic::div_mod::lemma_small_mod(i as nat, (2 * c) as nat);
        }
        assert((i + k + c) % (2 * c) == i + c) by {
            vstd::arithmetic::div_mod::lemma_mod_multiples_vanish(q, i + c, 2 * c);
            vstd::arithmetic::div_mod::lemma_small_mod((i + c) as nat, (2 * c) as nat);
        }
        T::law_mul_zero(w);
        if t < h {
            T::law_add_zero(s[i + k]);
        } else {
            T::law_sub_zero(s[i + k]);
        }
        assert(h % c == 0) by {
            vstd::arithmetic::div_mod::lemma_mod_breakdown(n, 2, c);
        }
        if t >= h {
            assert(t % c == u % c) by {
                vstd::arithmetic::div_mod::lemma_fundamental_div_mod(h, c);
                vstd::arithmetic::div_mod::lemma_mod_multiples_vanish(h / c, u, c);
                vstd::arithmetic::div_mod::lemma_mod_twice(u, c);
                vstd::arithmetic::div_mod::lemma_mod_bound(u, c);
                vstd::arithmetic::div_mod::lemma_small_mod((u % c) as nat, c as nat);
            }
        }
    }
    assert(cooley_stage(s, c, n) =~= comb::<T>(c, n));
}

/// Running the ping-pong stages from width `c` down over a comb of width
/// `2 * c` fills the spectrum with ones.
proof fn lemma_cooley_stages_comb<T: LawfulSample>(c: int, n: int)
    requires
        1 <= c,
        2 * c <= n,
        n % (2 * c) == 0,
        exact_pow2(c as nat),
        exact_pow2(n as nat),
        n >= 2,
    ensures
        cooley_stages(comb::<T>(2 * c, n), c, n) == all_ones::<T>(n),
    decreases c,
{
    lemma_cooley_stage_comb::<T>(c, n);
    if c == 1 {
        assert forall|i: int| 0 <= i < n implies comb::<T>(1, n)[i] == all_ones::<T>(n)[i] by {
            vstd::arithmetic::div_mod::lemma_mod_multiples_basic(i, 1);
            assert(i * 1 == i) by (nonlinear_arith);
        }
        assert(comb::<T>(1, n) =~= all_ones::<T>(n));
        assert(cooley_stages(comb::<T>(1, n), 0, n) == comb::<T>(1, n));
    } else {
        lemma_exact_pow2_half(c as nat);
        assert(n % (2 * (c / 2)) == 0) by {
            lemma_pow2_divides(c as nat, n as nat);
        }
        lemma_cooley_stages_comb::<T>(c / 2, n);
    }
}

/// Unit impulse response of the ping-pong transform: an impulse at index
/// zero transforms to one at every bin.
pub proof fn lemma_cooley_impulse<T: LawfulSample>(n: int)
    requires
        n >= 2,
        exact_pow2(n as nat),
    ensures
        cooley_model(impulse::<T>(n), n) == all_ones::<T>(n),
{
    assert forall|i: int| 0 <= i < n implies impulse::<T>(n)[i] == comb::<T>(n, n)[i] by {
        vstd::arithmetic::div_mod::lemma_small_mod(i as nat, n as nat);
    }
    assert(impulse::<T>(n) =~= comb::<T>(n, n));
    let c = n / 2;
    lemma_exact_pow2_half(n as nat);
    assert(n % (2 * c) == 0) by {
        vstd::arithmetic::div_mod::lemma_mod_self_0(n);
    }
    if c == 0 {
    } else {
        lemma_cooley_stages_comb::<T>(c, n);
    }
}

/// One ping-pong stage is linear in the stage input.
proof fn lemma_cooley_stage_linear<T: LawfulSample>(
    v: Seq<T>,
    e: Seq<T>,
    alpha: T,
    beta: T,
    c: int,
    n: int,
)
    requires
        v.len() == n,
        e.len() == n,
        1 <= c,
        2 * c <= n,
        n % (2 * c) == 0,
        n >= 2,
    ensures
        cooley_stage(lin_combo(v, e, alpha, beta), c, n) == lin_combo(
            cooley_stage(v, c, n),
            cooley_stage(e, c, n),
            alpha,
            beta,
        ),
{
    let s = lin_combo(v, e, alpha, beta);
    assert forall|t: int| 0 <= t < n implies cooley_stage(s, c, n)[t] == lin_combo(
        cooley_stage(v, c, n),
        cooley_stage(e, c, n),
        alpha,
        beta,
    )[t] by {
        let h = n / 2;
        let u = if t < h { t } else { t - h };
        assert(n % 2 == 0) by {
            vstd::arithmetic::div_mod::lemma_mod_breakdown(n, 2, c);
        }
        lemma_cooley_position(u, c, n);
        let i = u % c;
        let k = 2 * c * (u / c);
        let w = T::omega_s(k, n);
        let a = i + k;
        let b = i + k + c;
        let xv = T::mul_s(v[b], w);
        let xe = T::mul_s(e[b], w);
        T::law_distrib(T::mul_s(v[b], alpha), T::mul_s(e[b], beta), w);
        T::law_mul_rcomm(v[b], alpha, w);
        T::law_mul_rcomm(e[b], beta, w);
        if t < h {
            lemma_add_regroup::<T>(
                T::mul_s(v[a], alpha),
                T::mul_s(e[a], beta),
                T::mul_s(xv, alpha),
                T::mul_s(xe, beta),
            );
            T::law_distrib(v[a], xv, alpha);
            T::law_distrib(e[a], xe, beta);
        } else {
            lemma_sub_regroup::<T>(
                T::mul_s(v[a], alpha),
                T::mul_s(e[a], beta),
                T::mul_s(xv, alpha),
                T::mul_s(xe, beta),
            );
            T::law_sub_distrib(v[a], xv, alpha);
            T::law_sub_distrib(e[a], xe, beta);
        }
    }
    assert(cooley_stage(s, c, n) =~= lin_combo(
        cooley_stage(v, c, n),
        cooley_stage(e, c, n),
        alpha,
        beta,
    ));
}

/// Every ping-pong stage preserves linear combinations.
proof fn lemma_cooley_stages_linear<T: LawfulSample>(
    v: Seq<T>,
    e: Seq<T>,
    alpha: T,
    beta: T,
    c: int,
    n: int,
)
    requires
        v.len() == n,
        e.len() == n,
        0 <= c,
        2 * c <= n,
        exact_pow2(n as nat),
        c >= 1 ==> exact_pow2(c as nat),
        n >= 2,
    ensures
        cooley_stages(lin_combo(v, e, alpha, beta), c, n) == lin_combo(
            cooley_stages(v, c, n),
            cooley_stages(e, c, n),
            alpha,
            beta,
        ),
    decreases c,
{
    if c < 1 {
    } else {
        assert(n % (2 * c) == 0) by {
            if 2 * c == n {
                vstd::arithmetic::div_mod::lemma_mod_self_0(n);
            } else {
                crate::implementations::cooley_tukey::lemma_exact_pow2_double(c as nat);
                lemma_pow2_divides((2 * c) as nat, n as nat);
            }
        }
        lemma_cooley_stage_linear(v, e, alpha, beta, c, n);
        if c >= 2 {
            lemma_exact_pow2_half(c as nat);
        }
        lemma_cooley_stages_linear(
            cooley_stage(v, c, n),
            cooley_stage(e, c, n),
            alpha,
            beta,
            c / 2,
            n,
        );
    }
}

/// Linearity of the ping-pong transform: transforming a linear combination
/// of two signals gives the same linear combination of their transforms.
pub proof fn lemma_cooley_linear<T: LawfulSample>(v: Seq<T>, e: Seq<T>, alpha: T, beta: T, n: int)
    requires
        v.len() == n,
        e.len() == n,
        n >= 2,
        exact_pow2(n as nat),
    ensures
        cooley_model(lin_combo(v, e, alpha, beta), n) == lin_combo(
            cooley_model(v, n),
            cooley_model(e, n),
            alpha,
            beta,
        ),
{
    lemma_exact_pow2_half(n as nat);
    lemma_cooley_stages_linear(v, e, alpha, beta, n / 2, n);
}

} // verus!
