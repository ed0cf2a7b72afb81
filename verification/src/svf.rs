//! The state-variable filter core: two integrators closed by an algebraic
//! zero-delay-feedback solve, and the ten-way output-mode dispatch over the
//! stored per-sample values.

use vstd::prelude::*;
use crate::fixed::{
    fx_add, fx_sub, fx_mul, fx_div, qadd, qsub, qmul, qdiv, FX_ONE, lemma_fx_mul_zero,
    lemma_fx_mul_nonneg, lemma_fx_div_zero,
};
use crate::integrator::{Integrator, integ_out, integ_next};

verus! {

/// The feedback coefficient `g1 = r + g`.
pub open spec fn g1_of(g: int, r: int) -> int {
    fx_add(r, g)
}

/// The feedback denominator `1 + g*g1`; at least one for nonnegative
/// coefficients.
pub open spec fn denom_of(g: int, r: int) -> int {
    fx_add(FX_ONE as int, fx_mul(g, g1_of(g, r)))
}

/// The closed-form solution of the implicit highpass node:
/// `hp = (x - s2 - g1*s1) / (1 + g*g1)`.
pub open spec fn hp_of(x: int, s1: int, s2: int, g: int, r: int) -> int {
    fx_div(fx_sub(fx_sub(x, s2), fx_mul(g1_of(g, r), s1)), denom_of(g, r))
}

/// The ten output modes, a fixed selector into pure formulas over the
/// core's stored values.
#[derive(Clone, Copy)]
pub enum FilterMode {
    Highpass,
    Lowpass,
    Bandpass,
    UnitBandpass,
    Allpass,
    Notch,
    HighShelf,
    BandShelf,
    LowShelf,
    Peaking,
}

/// Two integrators plus the last input and the per-sample highpass,
/// bandpass and lowpass values, stored for mode extraction.
pub struct SvfCore {
    pub stage1: Integrator,
    pub stage2: Integrator,
    /// Last input sample.
    pub x: i64,
    /// Last highpass value.
    pub hp: i64,
    /// Last bandpass value.
    pub bp: i64,
    /// Last lowpass value.
    pub lp: i64,
}

/// One sample of the core as a pure function: the zero-delay-feedback solve
/// for `hp`, then both integrators in series.
pub open spec fn core_step(c: SvfCore, x: int, g: int, r: int) -> SvfCore {
    let s1 = c.stage1.state as int;
    let s2 = c.stage2.state as int;
    let hp = hp_of(x, s1, s2, g, r);
    let bp = integ_out(s1, hp, g);
    let lp = integ_out(s2, bp, g);
    SvfCore {
        stage1: (Integrator { state: integ_next(s1, hp, g) as i64 }),
        stage2: (Integrator { state: integ_next(s2, bp, g) as i64 }),
        x: x as i64,
        hp: hp as i64,
        bp: bp as i64,
        lp: lp as i64,
    }
}

/// The selected mode's output formula over the core's stored values, with
/// resonance coefficient `r` and linear gain `k`.
pub open spec fn mode_output(m: FilterMode, c: SvfCore, r: int, k: int) -> int {
    let bp1 = fx_mul(r, c.bp as int);
    match m {
        FilterMode::Highpass => c.hp as int,
        FilterMode::Lowpass => c.lp as int,
        FilterMode::Bandpass => c.bp as int,
        FilterMode::UnitBandpass => bp1,
        FilterMode::Allpass => fx_sub(fx_add(bp1, bp1), c.x as int),
        FilterMode::Notch => fx_sub(c.x as int, bp1),
        FilterMode::HighShelf => fx_add(fx_mul(k, c.hp as int), fx_sub(c.x as int, c.hp as int)),
        FilterMode::BandShelf => fx_add(fx_mul(k, bp1), fx_sub(c.x as int, bp1)),
        FilterMode::LowShelf => fx_add(fx_mul(k, c.lp as int), fx_sub(c.x as int, c.lp as int)),
        FilterMode::Peaking => fx_sub(c.lp as int, c.hp as int),
    }
}

impl SvfCore {
    /// A quiescent core.
    pub fn new() -> (r: SvfCore)
        ensures
            r.stage1.state == 0,
            r.stage2.state == 0,
            r.x == 0,
            r.hp == 0,
            r.bp == 0,
            r.lp == 0,
    {
        SvfCore {
            stage1: Integrator::new(),
            stage2: Integrator::new(),
            x: 0,
            hp: 0,
            bp: 0,
            lp: 0,
        }
    }

    /// Zeroes both integrators; the stored per-sample values are left to be
    /// overwritten by the next processed sample.
    pub fn reset(&mut self)
        ensures
            final(self).stage1.state == 0,
            final(self).stage2.state == 0,
            final(self).x == old(self).x,
            final(self).hp == old(self).hp,
            final(self).bp == old(self).bp,
            final(self).lp == old(self).lp,
    {
        self.stage1.reset();
        self.stage2.reset();
    }

    /// Processes one sample with prewarped cutoff coefficient `g` and
    /// resonance coefficient `r`, solving the implicit feedback loop
    /// algebraically in one step.
    pub fn process(&mut self, x: i64, g: i64, r: i64)
        requires
            g >= 0,
            r >= 0,
        ensures
            *final(self) == core_step(*old(self), x as int, g as int, r as int),
    {
        let s1: i64 = self.stage1.previous_output();
        let s2: i64 = self.stage2.previous_output();
        let g1: i64 = qadd(r, g);
        let num: i64 = qsub(qsub(x, s2), qmul(g1, s1));
        let den: i64 = qadd(FX_ONE, qmul(g, g1));
        proof {
            lemma_fx_mul_nonneg(g as int, g1 as int);
        }
        let hp: i64 = qdiv(num, den);
        let bp: i64 = self.stage1.process(hp, g);
        let lp: i64 = self.stage2.process(bp, g);
        self.x = x;
        self.hp = hp;
        self.bp = bp;
        self.lp = lp;
    }
}

/// Applies the selected output formula to the core's stored values.
pub fn output(c: &SvfCore, m: FilterMode, r: i64, k: i64) -> (out: i64)
    ensures
        out as int == mode_output(m, *c, r as int, k as int),
{
    let bp1: i64 = qmul(r, c.bp);
    match m {
        FilterMode::Highpass => c.hp,
        FilterMode::Lowpass => c.lp,
        FilterMode::Bandpass => c.bp,
        FilterMode::UnitBandpass => bp1,
        FilterMode::Allpass => qsub(qadd(bp1, bp1), c.x),
        FilterMode::Notch => qsub(c.x, bp1),
        FilterMode::HighShelf => qadd(qmul(k, c.hp), qsub(c.x, c.hp)),
        FilterMode::BandShelf => qadd(qmul(k, bp1), qsub(c.x, bp1)),
        FilterMode::LowShelf => qadd(qmul(k, c.lp), qsub(c.x, c.lp)),
        FilterMode::Peaking => qsub(c.lp, c.hp),
    }
}

/// Law: the derived modes are, per sample and in the very fixed-point
/// representation the core computes with, exact combinations of the
/// primitive outputs: unit bandpass is `r` times bandpass, notch is the
/// input minus unit bandpass, allpass is twice unit bandpass minus the
/// input, and peaking is lowpass minus highpass.
pub proof fn lemma_mode_identities(c: SvfCore, r: int, k: int)
    ensures
        mode_output(FilterMode::UnitBandpass, c, r, k) == fx_mul(
            r,
            mode_output(FilterMode::Bandpass, c, r, k),
        ),
        mode_output(FilterMode::Notch, c, r, k) == fx_sub(
            c.x as int,
            mode_output(FilterMode::UnitBandpass, c, r, k),
        ),
        mode_output(FilterMode::Allpass, c, r, k) == fx_sub(
            fx_add(
                mode_output(FilterMode::UnitBandpass, c, r, k),
                mode_output(FilterMode::UnitBandpass, c, r, k),
            ),
            c.x as int,
        ),
        mode_output(FilterMode::Peaking, c, r, k) == fx_sub(
            mode_output(FilterMode::Lowpass, c, r, k),
            mode_output(FilterMode::Highpass, c, r, k),
        ),
{
}

/// Law: a quiescent core maps a zero sample to a quiescent core with all
/// stored values zero, for all nonnegative coefficients.
pub proof fn lemma_zero_step(c: SvfCore, g: int, r: int)
    requires
        c.stage1.state == 0,
        c.stage2.state == 0,
        g >= 0,
        r >= 0,
    ensures
        core_step(c, 0, g, r) == (SvfCore {
            stage1: (Integrator { state: 0 }),
            stage2: (Integrator { state: 0 }),
            x: 0,
            hp: 0,
            bp: 0,
            lp: 0,
        }),
{
    let g1 = g1_of(g, r);
    lemma_fx_mul_zero(g1);
    lemma_fx_mul_nonneg(g, g1);
    lemma_fx_div_zero(denom_of(g, r));
    lemma_fx_mul_zero(g);
}

/// Law: every mode's output of a core whose stored values are all zero is
/// exactly zero, whatever the resonance and gain coefficients.
pub proof fn lemma_mode_output_zero(m: FilterMode, c: SvfCore, r: int, k: int)
    requires
        c.x == 0,
        c.hp == 0,
        c.bp == 0,
        c.lp == 0,
    ensures
        mode_output(m, c, r, k) == 0,
{
    lemma_fx_mul_zero(r);
    lemma_fx_mul_zero(k);
}

} // verus!
