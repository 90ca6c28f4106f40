//! Linear resampler.
//!
//! Converts a waveform recorded at one sample rate to another rate by
//! linear interpolation.  For output index `i` the fractional source
//! position is `i * from / to`; the output sample interpolates between
//! the two neighbouring source samples, weighted by the fractional
//! part.  This is a simple resampler, not a band-limited one: aliasing
//! at rate reductions is an accepted approximation.

use vstd::prelude::*;
use vstd::arithmetic::div_mod::{
    lemma_div_multiples_vanish, lemma_div_pos_is_pos, lemma_fundamental_div_mod,
    lemma_mod_multiples_basic, lemma_mod_pos_bound, lemma_multiply_divide_lt,
    lemma_div_is_ordered,
};
use vstd::arithmetic::mul::{
    lemma_mul_inequality, lemma_mul_is_commutative, lemma_mul_nonnegative,
    lemma_mul_strictly_positive,
};

use crate::sample::{div_trunc, valid_sample};

verus! {

/// Number of output samples when `n` input samples at rate `from` are
/// converted to rate `to`: the floor of `n * to / from`.
pub open spec fn resample_len(n: int, from: int, to: int) -> int
    recommends
        n >= 0,
        from >= 1,
        to >= 1,
{
    n * to / from
}

/// Value of output sample `i`: linear interpolation between the source
/// samples on either side of the fractional source position
/// `i * from / to`; the source sample alone when it has no right
/// neighbour; zero when the position is past the end.
pub open spec fn interp_at(s: Seq<i64>, from: int, to: int, i: int) -> int
    recommends
        from >= 1,
        to >= 1,
        0 <= i,
{
    let pos = i * from;
    let idx = pos / to;
    let frac = pos % to;
    if idx + 1 < s.len() {
        s[idx] + div_trunc((s[idx + 1] - s[idx]) * frac, to)
    } else if idx < s.len() {
        s[idx] as int
    } else {
        0
    }
}

/// Least sample value of a non-empty waveform.
pub open spec fn seq_min(s: Seq<i64>) -> int
    recommends
        s.len() > 0,
    decreases s.len(),
{
    if s.len() <= 1 {
        if s.len() == 0 {
            0
        } else {
            s[0] as int
        }
    } else {
        let m = seq_min(s.drop_last());
        if (s.last() as int) < m {
            s.last() as int
        } else {
            m
        }
    }
}

/// Greatest sample value of a non-empty waveform.
pub open spec fn seq_max(s: Seq<i64>) -> int
    recommends
        s.len() > 0,
    decreases s.len(),
{
    if s.len() <= 1 {
        if s.len() == 0 {
            0
        } else {
            s[0] as int
        }
    } else {
        let m = seq_max(s.drop_last());
        if (s.last() as int) > m {
            s.last() as int
        } else {
            m
        }
    }
}

/// Every sample of a waveform lies between its least and greatest
/// sample.
pub proof fn lemma_seq_extremes(s: Seq<i64>, j: int)
    requires
        0 <= j < s.len(),
    ensures
        seq_min(s) <= s[j] <= seq_max(s),
    decreases s.len(),
{
    if s.len() > 1 && j < s.len() - 1 {
        lemma_seq_extremes(s.drop_last(), j);
    }
}

/// Scaling a difference by a fraction below one, with the quotient
/// rounded toward zero, never leaves the range between zero and the
/// difference.
pub proof fn lemma_div_trunc_scale_bounds(delta: int, frac: int, to: int)
    requires
        0 <= frac < to,
    ensures
        delta >= 0 ==> 0 <= div_trunc(delta * frac, to) <= delta,
        delta < 0 ==> delta <= div_trunc(delta * frac, to) <= 0,
{
    if delta >= 0 {
        lemma_mul_nonnegative(delta, frac);
        lemma_div_pos_is_pos(delta * frac, to);
        assert(delta * frac <= delta * to) by (nonlinear_arith)
            requires
                delta >= 0,
                frac < to,
        ;
        lemma_div_is_ordered(delta * frac, delta * to, to);
        lemma_mul_is_commutative(delta, to);
        lemma_div_multiples_vanish(delta, to);
    } else {
        let m = -delta;
        assert(delta * frac == -(m * frac)) by (nonlinear_arith)
            requires
                m == -delta,
        ;
        lemma_mul_nonnegative(m, frac);
        lemma_div_pos_is_pos(m * frac, to);
        assert(m * frac <= m * to) by (nonlinear_arith)
            requires
                m >= 0,
                frac < to,
        ;
        lemma_div_is_ordered(m * frac, m * to, to);
        lemma_mul_is_commutative(m, to);
        lemma_div_multiples_vanish(m, to);
        if m * frac == 0 {
            assert(div_trunc(delta * frac, to) == 0);
        } else {
            lemma_mul_strictly_positive(m, frac);
            assert(div_trunc(delta * frac, to) == -((m * frac) / to));
        }
    }
}

/// For every output index of a resampling run, the rounded source
/// position falls inside the input waveform.
pub proof fn lemma_source_index_in_bounds(n: int, from: int, to: int, i: int)
    requires
        n >= 0,
        from >= 1,
        to >= 1,
        0 <= i < resample_len(n, from, to),
    ensures
        0 <= i * from,
        i * from < n * to,
        0 <= i * from / to < n,
{
    let q = n * to / from;
    lemma_mul_nonnegative(i, from);
    lemma_mul_inequality(i, q - 1, from);
    assert((q - 1) * from == q * from - from) by (nonlinear_arith);
    lemma_fundamental_div_mod(n * to, from);
    lemma_mod_pos_bound(n * to, from);
    lemma_mul_is_commutative(q, from);
    assert(i * from < n * to);
    lemma_mul_is_commutative(n, to);
    lemma_multiply_divide_lt(i * from, to, n);
    lemma_div_pos_is_pos(i * from, to);
}

/// Bounds law: every interpolated output sample lies between the least
/// and the greatest input sample, with no overshoot, because linear
/// interpolation never leaves the range its endpoints span.
pub proof fn lemma_interp_in_range(s: Seq<i64>, from: int, to: int, i: int)
    requires
        from >= 1,
        to >= 1,
        0 <= i < resample_len(s.len() as int, from, to),
    ensures
        seq_min(s) <= interp_at(s, from, to, i) <= seq_max(s),
{
    let n = s.len() as int;
    lemma_source_index_in_bounds(n, from, to, i);
    let pos = i * from;
    let idx = pos / to;
    let frac = pos % to;
    lemma_mod_pos_bound(pos, to);
    if idx + 1 < n {
        let a = s[idx] as int;
        let b = s[idx + 1] as int;
        lemma_div_trunc_scale_bounds(b - a, frac, to);
        lemma_seq_extremes(s, idx);
        lemma_seq_extremes(s, idx + 1);
    } else {
        lemma_seq_extremes(s, idx);
    }
}

/// Bounds law over the whole output: no sample of the resampled
/// waveform lies outside the range the input samples span.
pub proof fn lemma_resample_bounds(s: Seq<i64>, from: int, to: int)
    requires
        from >= 1,
        to >= 1,
    ensures
        forall|i: int|
            0 <= i < resample_len(s.len() as int, from, to) ==> seq_min(s) <= #[trigger] interp_at(
                s,
                from,
                to,
                i,
            ) <= seq_max(s),
{
    assert forall|i: int| 0 <= i < resample_len(s.len() as int, from, to) implies seq_min(s)
        <= #[trigger] interp_at(s, from, to, i) <= seq_max(s) by {
        lemma_interp_in_range(s, from, to, i);
    }
}

/// Identity law: resampling at an unchanged rate returns the waveform
/// unchanged, sample for sample.
pub proof fn lemma_resample_identity(s: Seq<i64>, r: int)
    requires
        r >= 1,
    ensures
        resample_len(s.len() as int, r, r) == s.len(),
        forall|i: int| 0 <= i < s.len() ==> #[trigger] interp_at(s, r, r, i) == s[i],
{
    let n = s.len() as int;
    lemma_mul_is_commutative(n, r);
    lemma_div_multiples_vanish(n, r);
    assert forall|i: int| 0 <= i < n implies #[trigger] interp_at(s, r, r, i) == s[i] by {
        lemma_mul_is_commutative(i, r);
        lemma_div_multiples_vanish(i, r);
        lemma_mod_multiples_basic(i, r);
        assert(i * r / r == i);
        assert(i * r % r == 0);
        if i + 1 < n {
            assert((s[i + 1] - s[i]) * 0 == 0) by (nonlinear_arith);
            assert(div_trunc(0, r) == 0);
        }
    }
}

/// Length law: the number of output samples is the floor of
/// `n * to / from`, and an unchanged rate keeps the length.
pub proof fn lemma_resample_length(n: int, from: int, to: int)
    requires
        n >= 0,
        from >= 1,
        to >= 1,
    ensures
        resample_len(n, from, to) == n * to / from,
        from == to ==> resample_len(n, from, to) == n,
{
    if from == to {
        lemma_mul_is_commutative(n, from);
        lemma_div_multiples_vanish(n, from);
    }
}

/// Converts a waveform at rate `from_rate` to rate `to_rate` by linear
/// interpolation.
pub fn resample(samples: &Vec<i64>, from_rate: u32, to_rate: u32) -> (out: Vec<i64>)
    requires
        from_rate >= 1,
        to_rate >= 1,
        forall|j: int| 0 <= j < samples@.len() ==> valid_sample(#[trigger] samples@[j]),
        samples@.len() * to_rate <= usize::MAX,
    ensures
        out@.len() == resample_len(samples@.len() as int, from_rate as int, to_rate as int),
        forall|j: int|
            0 <= j < out@.len() ==> out@[j] == interp_at(
                samples@,
                from_rate as int,
                to_rate as int,
                j,
            ),
        forall|j: int| 0 <= j < out@.len() ==> valid_sample(#[trigger] out@[j]),
{
    let n = samples.len();
    let from = from_rate as usize;
    let to = to_rate as usize;
    let new_len = n * to / from;
    let mut out: Vec<i64> = Vec::new();
    let mut i: usize = 0;
    while i < new_len
        invariant
            from == from_rate,
            to == to_rate,
            n == samples@.len(),
            from >= 1,
            to >= 1,
            samples@.len() * to_rate <= usize::MAX,
            forall|j: int| 0 <= j < samples@.len() ==> valid_sample(#[trigger] samples@[j]),
            new_len == resample_len(n as int, from as int, to as int),
            0 <= i <= new_len,
            out@.len() == i,
            forall|j: int|
                0 <= j < i ==> out@[j] == interp_at(samples@, from as int, to as int, j),
            forall|j: int| 0 <= j < i ==> valid_sample(#[trigger] out@[j]),
        decreases new_len - i,
    {
        proof {
            lemma_source_index_in_bounds(n as int, from as int, to as int, i as int);
            lemma_mod_pos_bound((i * from) as int, to as int);
        }
        let pos = i * from;
        let idx = pos / to;
        let frac = pos % to;
        let val: i64 = if idx + 1 < n {
            let a = samples[idx];
            let b = samples[idx + 1];
            let delta = b - a;
            proof {
                let d: int = delta as int;
                let f: int = frac as int;
                assert(-0x10000000000000000 < d * f < 0x10000000000000000) by (nonlinear_arith)
                    requires
                        -0x100000000 <= d <= 0x100000000,
                        0 <= f < 0x100000000,
                ;
            }
            let num: i128 = (delta as i128) * (frac as i128);
            let q: i128 = if num >= 0 {
                num / (to as i128)
            } else {
                -((-num) / (to as i128))
            };
            proof {
                lemma_div_trunc_scale_bounds(delta as int, frac as int, to as int);
                assert(q == div_trunc(delta as int * frac as int, to as int));
            }
            a + (q as i64)
        } else if idx < n {
            samples[idx]
        } else {
            0
        };
        proof {
            assert(val == interp_at(samples@, from as int, to as int, i as int));
        }
        out.push(val);
        i = i + 1;
    }
    out
}

} // verus!
