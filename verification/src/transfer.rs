//! The analytic transfer function: the closed-form complex frequency
//! response of the zero-delay-feedback topology, parameterized identically
//! to the core's coefficients and sharing the mode dispatch convention, so
//! a plotted curve and a processed stationary sinusoid always agree.
//!
//! A response sample is kept as an exact ratio of two complex values in
//! the same fixed-point arithmetic as the audio path; the caller turns the
//! two squared magnitudes into decibels.

use vstd::prelude::*;
use vstd::arithmetic::mul::lemma_mul_cancels_negatives;
use crate::fixed::{
    fx_add, fx_sub, fx_mul, fx_div, is_floor_nth_root, qadd, qsub, qmul, FX_ONE,
    lemma_fx_square_nonneg, lemma_fx_mul_one,
};
use crate::svf::FilterMode;
use crate::smoother::{
    LogSmoother, log_tick, log_ticks, between, root_arg, lemma_log_smoother_convergence,
};

verus! {

/// A complex value in Q32.32 fixed point.
pub struct Complex {
    pub re: i64,
    pub im: i64,
}

/// A transfer-function sample `H = num / den`, kept as the exact pair.
pub struct Response {
    pub num: Complex,
    pub den: Complex,
}

/// The squared normalized frequency `w^2`.
pub open spec fn ww_of(w: int) -> int {
    fx_mul(w, w)
}

/// The resonance cross term `r*w`.
pub open spec fn rw_of(r: int, w: int) -> int {
    fx_mul(r, w)
}

/// Real part of the shared denominator `s^2 + r*s + 1` at `s = j*w`.
pub open spec fn den_re(w: int) -> int {
    fx_sub(FX_ONE as int, ww_of(w))
}

/// Imaginary part of the shared denominator at `s = j*w`.
pub open spec fn den_im(r: int, w: int) -> int {
    rw_of(r, w)
}

/// Real part of the selected mode's numerator at `s = j*w`.
pub open spec fn num_re(m: FilterMode, w: int, r: int, k: int) -> int {
    match m {
        FilterMode::Highpass => fx_sub(0, ww_of(w)),
        FilterMode::Lowpass => FX_ONE as int,
        FilterMode::Bandpass => 0,
        FilterMode::UnitBandpass => 0,
        FilterMode::Allpass => fx_sub(ww_of(w), FX_ONE as int),
        FilterMode::Notch => fx_sub(FX_ONE as int, ww_of(w)),
        FilterMode::HighShelf => fx_sub(FX_ONE as int, fx_mul(k, ww_of(w))),
        FilterMode::BandShelf => fx_sub(FX_ONE as int, ww_of(w)),
        FilterMode::LowShelf => fx_sub(k, ww_of(w)),
        FilterMode::Peaking => fx_add(FX_ONE as int, ww_of(w)),
    }
}

/// Imaginary part of the selected mode's numerator at `s = j*w`.
pub open spec fn num_im(m: FilterMode, w: int, r: int, k: int) -> int {
    match m {
        FilterMode::Highpass => 0,
        FilterMode::Lowpass => 0,
        FilterMode::Bandpass => w,
        FilterMode::UnitBandpass => rw_of(r, w),
        FilterMode::Allpass => rw_of(r, w),
        FilterMode::Notch => 0,
        FilterMode::HighShelf => rw_of(r, w),
        FilterMode::BandShelf => fx_mul(k, rw_of(r, w)),
        FilterMode::LowShelf => rw_of(r, w),
        FilterMode::Peaking => 0,
    }
}

/// The squared magnitude `re^2 + im^2`, in the same truncating arithmetic.
pub open spec fn mag_sqr_spec(re: int, im: int) -> int {
    fx_add(fx_mul(re, re), fx_mul(im, im))
}

/// Evaluates the selected mode's response at normalized angular frequency
/// `w` (the frequency's prewarped tangent over the cutoff's), resonance
/// coefficient `r` and linear gain `k`.
pub fn evaluate(m: FilterMode, w: i64, r: i64, k: i64) -> (h: Response)
    ensures
        h.num.re as int == num_re(m, w as int, r as int, k as int),
        h.num.im as int == num_im(m, w as int, r as int, k as int),
        h.den.re as int == den_re(w as int),
        h.den.im as int == den_im(r as int, w as int),
{
    let ww: i64 = qmul(w, w);
    let rw: i64 = qmul(r, w);
    let den = Complex { re: qsub(FX_ONE, ww), im: rw };
    let num = match m {
        FilterMode::Highpass => Complex { re: qsub(0, ww), im: 0 },
        FilterMode::Lowpass => Complex { re: FX_ONE, im: 0 },
        FilterMode::Bandpass => Complex { re: 0, im: w },
        FilterMode::UnitBandpass => Complex { re: 0, im: rw },
        FilterMode::Allpass => Complex { re: qsub(ww, FX_ONE), im: rw },
        FilterMode::Notch => Complex { re: qsub(FX_ONE, ww), im: 0 },
        FilterMode::HighShelf => Complex { re: qsub(FX_ONE, qmul(k, ww)), im: rw },
        FilterMode::BandShelf => Complex { re: qsub(FX_ONE, ww), im: qmul(k, rw) },
        FilterMode::LowShelf => Complex { re: qsub(k, ww), im: rw },
        FilterMode::Peaking => Complex { re: qadd(FX_ONE, ww), im: 0 },
    };
    Response { num, den }
}

/// The squared magnitude of a complex value.
pub fn mag_sqr(c: &Complex) -> (r: i64)
    ensures
        r as int == mag_sqr_spec(c.re as int, c.im as int),
{
    qadd(qmul(c.re, c.re), qmul(c.im, c.im))
}

/// Law: allpass magnitude flatness — at every normalized frequency and
/// every resonance and gain, the allpass numerator and the shared
/// denominator have exactly equal squared magnitudes, so the allpass
/// response's magnitude is exactly one across the whole sweep.
pub proof fn lemma_allpass_flat(w: int, r: int, k: int)
    ensures
        mag_sqr_spec(
            num_re(FilterMode::Allpass, w, r, k),
            num_im(FilterMode::Allpass, w, r, k),
        ) == mag_sqr_spec(den_re(w), den_im(r, w)),
{
    lemma_fx_square_nonneg(w);
    let u = fx_sub(ww_of(w), FX_ONE as int);
    let v = fx_sub(FX_ONE as int, ww_of(w));
    assert(v == -u);
    lemma_mul_cancels_negatives(u, u);
    assert(u * u == v * v);
}

/// Law: unit-bandpass peak normalization — exactly at the cutoff
/// (normalized frequency one), the unit-bandpass numerator equals the
/// denominator, component for component, whatever the resonance: the
/// response there is exactly one, independent of the resonance value.
pub proof fn lemma_unit_bandpass_peak(r: int, k: int)
    ensures
        num_re(FilterMode::UnitBandpass, FX_ONE as int, r, k) == den_re(FX_ONE as int),
        num_im(FilterMode::UnitBandpass, FX_ONE as int, r, k) == den_im(r, FX_ONE as int),
{
    lemma_fx_mul_one(FX_ONE as int);
}

/// The ramp state a plot sweep starts from: resting at `lo`, aimed at
/// `hi` over `points` steps with per-step ratio `rt`.
pub open spec fn sweep_ramp(lo: i64, hi: i64, rt: i64, points: usize) -> LogSmoother {
    LogSmoother { current: lo, target: hi, ratio: rt, remaining: points }
}

/// The logarithmic frequency sweep of the response plot: `points + 1`
/// fixed-point frequencies running monotonically from `lo` to `hi`, both
/// endpoints exact, each point one tick of a logarithmic ramp whose
/// per-step ratio is the floor `points`-th root of `hi / lo`.
pub fn sweep_frequencies(lo: i64, hi: i64, points: usize) -> (freqs: Vec<i64>)
    requires
        lo > 0,
        hi > 0,
        points >= 1,
    ensures
        freqs@.len() == points + 1,
        freqs@[0] == lo,
        freqs@[points as int] == hi,
        forall|i: int| 0 <= i <= points ==> between(#[trigger] freqs@[i] as int, lo as int, hi as int),
        forall|i: int|
            0 <= i < points ==> between(freqs@[i + 1] as int, #[trigger] freqs@[i] as int, hi as int),
        exists|rt: i64|
            #[trigger] is_floor_nth_root(
                rt as int,
                root_arg(fx_div(hi as int, lo as int)),
                points as nat,
            ) && forall|j: int|
                0 <= j <= points ==> freqs@[j] == log_ticks(
                    sweep_ramp(lo, hi, rt, points),
                    j as nat,
                ).current,
{
    let mut s = LogSmoother::new(lo);
    s.set_target(hi, points);
    let ghost s1 = s;
    proof {
        lemma_log_smoother_convergence(s1);
    }
    let mut freqs: Vec<i64> = Vec::new();
    freqs.push(lo);
    let mut i: usize = 0;
    while i < points
        invariant
            i <= points,
            s1.current == lo,
            s1.target == hi,
            s1.remaining == points,
            s == log_ticks(s1, i as nat),
            freqs@.len() == i + 1,
            forall|j: int| 0 <= j <= i ==> #[trigger] freqs@[j] == log_ticks(s1, j as nat).current,
        decreases points - i,
    {
        proof {
            assert(log_ticks(s1, (i + 1) as nat) == log_tick(log_ticks(s1, i as nat)));
        }
        s.tick();
        let c: i64 = s.current();
        freqs.push(c);
        i = i + 1;
    }
    proof {
        lemma_log_smoother_convergence(s1);
        assert(freqs@[points as int] == log_ticks(s1, points as nat).current);
        assert forall|idx: int| 0 <= idx <= points implies between(
            #[trigger] freqs@[idx] as int,
            lo as int,
            hi as int,
        ) by {
            assert(freqs@[idx] == log_ticks(s1, idx as nat).current);
            assert(between(log_ticks(s1, idx as nat).current as int, s1.current as int, s1.target as int));
        }
        assert(s1 == sweep_ramp(lo, hi, s1.ratio, points));
        assert(is_floor_nth_root(
            s1.ratio as int,
            root_arg(fx_div(hi as int, lo as int)),
            points as nat,
        ) && forall|j: int|
            0 <= j <= points ==> freqs@[j] == log_ticks(
                sweep_ramp(lo, hi, s1.ratio, points),
                j as nat,
            ).current);
        assert forall|idx: int| 0 <= idx < points implies between(
            freqs@[idx + 1] as int,
            #[trigger] freqs@[idx] as int,
            hi as int,
        ) by {
            assert(freqs@[idx] == log_ticks(s1, idx as nat).current);
            assert(freqs@[idx + 1] == log_ticks(s1, (idx + 1) as nat).current);
            assert(between(
                log_ticks(s1, (idx as nat + 1) as nat).current as int,
                log_ticks(s1, idx as nat).current as int,
                s1.target as int,
            ));
        }
    }
    freqs
}

} // verus!
