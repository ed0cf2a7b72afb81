//! The complete filter: the SVF core driven by three smoothed coefficient
//! ramps and a mode selector, with per-sample and per-block processing.
//!
//! The block entry point is, by construction and by proof, the per-sample
//! step iterated: there is no hidden per-block state beyond the ramp
//! lengths themselves.

use vstd::prelude::*;
use crate::fixed::{sat64, tdiv, is_floor_nth_root, fx_div};
use crate::svf::{
    SvfCore, FilterMode, core_step, mode_output, output, lemma_zero_step, lemma_mode_output_zero,
};
use crate::smoother::{
    LinearSmoother, LogSmoother, lin_tick, log_tick, between, root_arg,
};

verus! {

/// The filter: two-integrator core, cutoff/resonance/gain ramps, mode.
pub struct SvfFilter {
    pub core: SvfCore,
    /// Prewarped cutoff coefficient ramp; frequency-like, so logarithmic.
    pub g: LogSmoother,
    /// Resonance coefficient ramp; linear.
    pub res: LinearSmoother,
    /// Linear gain ramp; a mapped decibel value, so logarithmic.
    pub gain: LogSmoother,
    /// The output mode, read once per block.
    pub mode: FilterMode,
}

impl SvfFilter {
    /// Coefficient domains: the cutoff and gain ramps move between
    /// strictly positive values, the resonance ramp between nonnegative
    /// ones.
    pub open spec fn wf(self) -> bool {
        &&& self.g.current > 0
        &&& self.g.target > 0
        &&& self.gain.current > 0
        &&& self.gain.target > 0
        &&& self.res.current >= 0
        &&& self.res.target >= 0
    }
}

/// Both integrator memories are zero: the state of audio silence.
pub open spec fn quiescent(f: SvfFilter) -> bool {
    f.core.stage1.state == 0 && f.core.stage2.state == 0
}

/// One sample of the whole filter as a pure function: tick the three
/// ramps, run the core on the ticked coefficients, extract the selected
/// mode's output. Returns the stepped filter and the output sample.
pub open spec fn filter_step(f: SvfFilter, x: i64) -> (SvfFilter, i64) {
    let g2 = log_tick(f.g);
    let r2 = lin_tick(f.res);
    let k2 = log_tick(f.gain);
    let core2 = core_step(f.core, x as int, g2.current as int, r2.current as int);
    let out = mode_output(f.mode, core2, r2.current as int, k2.current as int);
    (SvfFilter { core: core2, g: g2, res: r2, gain: k2, mode: f.mode }, out as i64)
}

/// The filter state after processing a sequence of samples one by one.
pub open spec fn filter_run_state(f: SvfFilter, xs: Seq<i64>) -> SvfFilter
    decreases xs.len(),
{
    if xs.len() == 0 {
        f
    } else {
        filter_run_state(filter_step(f, xs[0]).0, xs.subrange(1, xs.len() as int))
    }
}

/// The outputs of processing a sequence of samples one by one.
pub open spec fn filter_run_out(f: SvfFilter, xs: Seq<i64>) -> Seq<i64>
    decreases xs.len(),
{
    if xs.len() == 0 {
        Seq::empty()
    } else {
        seq![filter_step(f, xs[0]).1] + filter_run_out(
            filter_step(f, xs[0]).0,
            xs.subrange(1, xs.len() as int),
        )
    }
}

/// A run produces exactly one output per input sample.
pub proof fn lemma_run_out_len(f: SvfFilter, xs: Seq<i64>)
    ensures
        filter_run_out(f, xs).len() == xs.len(),
    decreases xs.len(),
{
    if xs.len() > 0 {
        lemma_run_out_len(filter_step(f, xs[0]).0, xs.subrange(1, xs.len() as int));
    }
}

/// Extending a run by one trailing sample is one more step.
pub proof fn lemma_run_snoc(f: SvfFilter, xs: Seq<i64>, x: i64)
    ensures
        filter_run_state(f, xs.push(x)) == filter_step(filter_run_state(f, xs), x).0,
        filter_run_out(f, xs.push(x)) == filter_run_out(f, xs).push(
            filter_step(filter_run_state(f, xs), x).1,
        ),
    decreases xs.len(),
{
    if xs.len() == 0 {
        let e = xs.push(x).subrange(1, 1);
        assert(e =~= Seq::<i64>::empty());
        assert(xs.push(x)[0] == x);
        assert(filter_run_state(filter_step(f, x).0, e) == filter_step(f, x).0);
        assert(filter_run_out(filter_step(f, x).0, e) =~= Seq::<i64>::empty());
        assert(filter_run_state(f, xs.push(x)) == filter_step(f, x).0);
        assert(filter_run_out(f, xs.push(x)) == seq![filter_step(f, x).1] + filter_run_out(
            filter_step(f, x).0,
            e,
        ));
        assert(filter_run_out(f, xs.push(x)) =~= filter_run_out(f, xs).push(
            filter_step(filter_run_state(f, xs), x).1,
        ));
    } else {
        let tail = xs.subrange(1, xs.len() as int);
        let f1 = filter_step(f, xs[0]).0;
        assert(xs.push(x)[0] == xs[0]);
        assert(xs.push(x).subrange(1, xs.len() as int + 1) =~= tail.push(x));
        lemma_run_snoc(f1, tail, x);
        assert(filter_run_state(f, xs.push(x)) == filter_run_state(f1, tail.push(x)));
        assert(filter_run_state(f, xs) == filter_run_state(f1, tail));
        assert(filter_run_out(f, xs.push(x)) == seq![filter_step(f, xs[0]).1] + filter_run_out(
            f1,
            tail.push(x),
        ));
        assert(filter_run_out(f, xs) == seq![filter_step(f, xs[0]).1] + filter_run_out(f1, tail));
        assert(filter_run_out(f, xs.push(x)) =~= filter_run_out(f, xs).push(
            filter_step(filter_run_state(f, xs), x).1,
        ));
    }
}

/// Law: block-size independence — processing a concatenation is processing
/// its parts in order: the final state is the state after the first part
/// then the second, and the output sequence is the concatenation of the
/// two parts' outputs. Sample-by-sample and any block split therefore
/// produce identical output.
pub proof fn lemma_run_append(f: SvfFilter, xs: Seq<i64>, ys: Seq<i64>)
    ensures
        filter_run_state(f, xs + ys) == filter_run_state(filter_run_state(f, xs), ys),
        filter_run_out(f, xs + ys) == filter_run_out(f, xs) + filter_run_out(
            filter_run_state(f, xs),
            ys,
        ),
    decreases xs.len(),
{
    if xs.len() == 0 {
        assert(xs + ys =~= ys);
        assert(filter_run_out(f, xs) + filter_run_out(filter_run_state(f, xs), ys)
            =~= filter_run_out(f, ys));
    } else {
        let tail = xs.subrange(1, xs.len() as int);
        assert((xs + ys)[0] == xs[0]);
        assert((xs + ys).subrange(1, (xs + ys).len() as int) =~= tail + ys);
        lemma_run_append(filter_step(f, xs[0]).0, tail, ys);
        assert(filter_run_out(f, xs + ys) =~= filter_run_out(f, xs) + filter_run_out(
            filter_run_state(f, xs),
            ys,
        ));
    }
}

/// One step preserves the coefficient domains.
pub proof fn lemma_step_wf(f: SvfFilter, x: i64)
    requires
        f.wf(),
    ensures
        filter_step(f, x).0.wf(),
{
}

/// Law: zero fixed point — from a quiescent core, an all-zero input
/// sequence of any length produces an all-zero output sequence and leaves
/// the core quiescent, for every mode and all in-domain coefficient ramps.
pub proof fn lemma_zero_input_zero_output(f: SvfFilter, xs: Seq<i64>)
    requires
        f.wf(),
        quiescent(f),
        forall|i: int| 0 <= i < xs.len() ==> xs[i] == 0,
    ensures
        quiescent(filter_run_state(f, xs)),
        filter_run_state(f, xs).wf(),
        filter_run_out(f, xs).len() == xs.len(),
        forall|i: int| 0 <= i < xs.len() ==> filter_run_out(f, xs)[i] == 0,
    decreases xs.len(),
{
    lemma_run_out_len(f, xs);
    if xs.len() > 0 {
        let g2 = log_tick(f.g);
        let r2 = lin_tick(f.res);
        let k2 = log_tick(f.gain);
        lemma_step_wf(f, xs[0]);
        lemma_zero_step(f.core, g2.current as int, r2.current as int);
        lemma_mode_output_zero(
            f.mode,
            core_step(f.core, 0, g2.current as int, r2.current as int),
            r2.current as int,
            k2.current as int,
        );
        let f1 = filter_step(f, xs[0]).0;
        let tail = xs.subrange(1, xs.len() as int);
        lemma_zero_input_zero_output(f1, tail);
        assert forall|i: int| 0 <= i < xs.len() implies filter_run_out(f, xs)[i] == 0 by {
            if i > 0 {
                assert(filter_run_out(f, xs)[i] == filter_run_out(f1, tail)[i - 1]);
            }
        }
    }
}

/// Law: reset correctness — from a quiescent filter (the state a reset
/// leaves behind), processing one zero sample produces an exactly zero
/// output under every one of the ten modes, whatever energy the filter
/// held before its reset.
pub proof fn lemma_reset_then_zero(f: SvfFilter)
    requires
        f.wf(),
        quiescent(f),
    ensures
        filter_step(f, 0).1 == 0,
        quiescent(filter_step(f, 0).0),
        forall|m: FilterMode|
            mode_output(
                m,
                filter_step(f, 0).0.core,
                lin_tick(f.res).current as int,
                log_tick(f.gain).current as int,
            ) == 0,
{
    let g2 = log_tick(f.g);
    let r2 = lin_tick(f.res);
    let k2 = log_tick(f.gain);
    lemma_zero_step(f.core, g2.current as int, r2.current as int);
    let core2 = core_step(f.core, 0, g2.current as int, r2.current as int);
    lemma_mode_output_zero(f.mode, core2, r2.current as int, k2.current as int);
    assert forall|m: FilterMode|
        mode_output(m, core2, r2.current as int, k2.current as int) == 0 by {
        lemma_mode_output_zero(m, core2, r2.current as int, k2.current as int);
    }
}

/// The smoothing floor in samples: roughly one millisecond, never fewer
/// than sixteen samples.
pub open spec fn min_ramp_spec(sample_rate: u32) -> int {
    if sample_rate / 1000 >= 16 {
        (sample_rate / 1000) as int
    } else {
        16
    }
}

/// The smoothing floor: at least one millisecond of samples and at least
/// sixteen, so parameter changes are smoothed even on very short blocks.
pub fn minimum_ramp_samples(sample_rate: u32) -> (r: usize)
    ensures
        r as int == min_ramp_spec(sample_rate),
        r >= 16,
{
    let ms: u32 = sample_rate / 1000;
    if ms >= 16 {
        ms as usize
    } else {
        16
    }
}

/// The ramp length for one block: the block length, floored by the
/// minimum smoothing time.
pub fn ramp_length(block_len: usize, sample_rate: u32) -> (r: usize)
    ensures
        r as int == (if block_len as int >= min_ramp_spec(sample_rate) {
            block_len as int
        } else {
            min_ramp_spec(sample_rate)
        }),
        r >= block_len,
        r >= 16,
{
    let m: usize = minimum_ramp_samples(sample_rate);
    if block_len >= m {
        block_len
    } else {
        m
    }
}

impl SvfFilter {
    /// A quiescent filter with all three ramps resting at the given
    /// in-domain coefficients.
    pub fn new(g0: i64, res0: i64, gain0: i64, mode: FilterMode) -> (r: SvfFilter)
        requires
            g0 > 0,
            res0 >= 0,
            gain0 > 0,
        ensures
            r.wf(),
            quiescent(r),
            r.core.x == 0 && r.core.hp == 0 && r.core.bp == 0 && r.core.lp == 0,
            r.g.current == g0 && r.g.target == g0 && r.g.remaining == 0,
            r.res.current == res0 && r.res.target == res0 && r.res.remaining == 0,
            r.gain.current == gain0 && r.gain.target == gain0 && r.gain.remaining == 0,
            r.mode == mode,
    {
        SvfFilter {
            core: SvfCore::new(),
            g: LogSmoother::new(g0),
            res: LinearSmoother::new(res0),
            gain: LogSmoother::new(gain0),
            mode,
        }
    }

    /// Per-block update: aims the three coefficient ramps at the block's
    /// mapped parameter values over `steps` ticks and selects the mode.
    pub fn set_params(
        &mut self,
        g_target: i64,
        res_target: i64,
        gain_target: i64,
        mode: FilterMode,
        steps: usize,
    )
        requires
            old(self).wf(),
            g_target > 0,
            res_target >= 0,
            gain_target > 0,
            steps >= 1,
        ensures
            final(self).wf(),
            final(self).core == old(self).core,
            final(self).mode == mode,
            final(self).g.current == old(self).g.current,
            final(self).g.target == g_target,
            final(self).g.remaining == steps,
            is_floor_nth_root(
                final(self).g.ratio as int,
                root_arg(fx_div(g_target as int, old(self).g.current as int)),
                steps as nat,
            ),
            final(self).res.current == old(self).res.current,
            final(self).res.target == res_target,
            final(self).res.remaining == steps,
            final(self).res.increment as int == sat64(
                tdiv(res_target - old(self).res.current, steps as int),
            ),
            final(self).gain.current == old(self).gain.current,
            final(self).gain.target == gain_target,
            final(self).gain.remaining == steps,
            is_floor_nth_root(
                final(self).gain.ratio as int,
                root_arg(fx_div(gain_target as int, old(self).gain.current as int)),
                steps as nat,
            ),
    {
        self.g.set_target(g_target, steps);
        self.res.set_target(res_target, steps);
        self.gain.set_target(gain_target, steps);
        self.mode = mode;
    }

    /// Zeroes both integrator memories. Coefficient ramps and mode are
    /// untouched: a hard reset clears energy but does not restart
    /// in-flight parameter ramps.
    pub fn reset(&mut self)
        ensures
            quiescent(*final(self)),
            final(self).core.x == old(self).core.x,
            final(self).core.hp == old(self).core.hp,
            final(self).core.bp == old(self).core.bp,
            final(self).core.lp == old(self).core.lp,
            final(self).g == old(self).g,
            final(self).res == old(self).res,
            final(self).gain == old(self).gain,
            final(self).mode == old(self).mode,
    {
        self.core.reset();
    }

    /// Processes one sample: ticks the three ramps, runs the core on the
    /// ticked coefficients, and extracts the selected mode's output.
    pub fn process_sample(&mut self, x: i64) -> (out: i64)
        requires
            old(self).wf(),
        ensures
            final(self).wf(),
            *final(self) == filter_step(*old(self), x).0,
            out == filter_step(*old(self), x).1,
    {
        self.g.tick();
        self.res.tick();
        self.gain.tick();
        let gc: i64 = self.g.current();
        let rc: i64 = self.res.current();
        let kc: i64 = self.gain.current();
        self.core.process(x, gc, rc);
        output(&self.core, self.mode, rc, kc)
    }

    /// Processes a block in place, in strict temporal order: the buffer
    /// afterwards holds exactly the outputs of the per-sample step
    /// iterated over the buffer's former contents.
    pub fn process_block(&mut self, samples: &mut Vec<i64>)
        requires
            old(self).wf(),
        ensures
            final(self).wf(),
            *final(self) == filter_run_state(*old(self), old(samples)@),
            final(samples)@ == filter_run_out(*old(self), old(samples)@),
    {
        let ghost f0 = *old(self);
        let ghost xs0 = old(samples)@;
        let n: usize = samples.len();
        let mut i: usize = 0;
        while i < n
            invariant
                i <= n,
                n == xs0.len(),
                samples@.len() == n,
                self.wf(),
                *self == filter_run_state(f0, xs0.take(i as int)),
                samples@.subrange(0, i as int) == filter_run_out(f0, xs0.take(i as int)),
                samples@.subrange(i as int, n as int) == xs0.subrange(i as int, n as int),
            decreases n - i,
        {
            let x: i64 = samples[i];
            proof {
                assert(samples@.subrange(i as int, n as int)[0] == xs0.subrange(
                    i as int,
                    n as int,
                )[0]);
                assert(x == xs0[i as int]);
                assert(xs0.take(i + 1) =~= xs0.take(i as int).push(xs0[i as int]));
                lemma_run_snoc(f0, xs0.take(i as int), xs0[i as int]);
                lemma_run_out_len(f0, xs0.take(i as int));
            }
            let ghost pre = samples@;
            let y: i64 = self.process_sample(x);
            samples.set(i, y);
            proof {
                assert(samples@ == pre.update(i as int, y));
                assert(samples@.subrange(0, i + 1) =~= pre.subrange(0, i as int).push(y));
                assert forall|j: int| 0 <= j < n - i - 1 implies #[trigger] samples@.subrange(
                    i + 1,
                    n as int,
                )[j] == xs0.subrange(i + 1, n as int)[j] by {
                    assert(pre.subrange(i as int, n as int)[j + 1] == xs0.subrange(
                        i as int,
                        n as int,
                    )[j + 1]);
                }
                assert(samples@.subrange(i + 1, n as int) =~= xs0.subrange(i + 1, n as int));
            }
            i = i + 1;
        }
        proof {
            assert(xs0.take(n as int) =~= xs0);
            assert(samples@.subrange(0, n as int) =~= samples@);
        }
    }
}

} // verus!
