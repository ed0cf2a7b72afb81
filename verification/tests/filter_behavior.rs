//! The complete filter: zero fixed point, per-sample algebraic identities,
//! reset correctness, block-size independence, the smoothing floor, and
//! the lowpass step-response scenario.

use linear_svf::filter::{minimum_ramp_samples, ramp_length, SvfFilter};
use linear_svf::fixed::{qmul, qsub, qadd, FX_ONE};
use linear_svf::svf::FilterMode;

fn fx(v: f64) -> i64 {
    (v * 4294967296.0).round() as i64
}

fn all_modes() -> Vec<FilterMode> {
    vec![
        FilterMode::Highpass,
        FilterMode::Lowpass,
        FilterMode::Bandpass,
        FilterMode::UnitBandpass,
        FilterMode::Allpass,
        FilterMode::Notch,
        FilterMode::HighShelf,
        FilterMode::BandShelf,
        FilterMode::LowShelf,
        FilterMode::Peaking,
    ]
}

/// Prewarped cutoff coefficient `g = tan(pi * fc / sr)` in fixed point.
fn g_coeff(fc: f64, sr: f64) -> i64 {
    fx((std::f64::consts::PI * fc / sr).tan())
}

/// The exponential cutoff mapping of the host layer: 13 Hz to 21 kHz.
fn map_cutoff(norm: f64) -> f64 {
    13.0 * (21000.0_f64 / 13.0).powf(norm)
}

fn test_input(i: usize) -> i64 {
    fx(((i * 37) % 200) as f64 / 100.0 - 1.0)
}

#[test]
fn zero_in_zero_out_every_mode() {
    let g = g_coeff(map_cutoff(0.5), 44100.0);
    for mode in all_modes() {
        let mut f = SvfFilter::new(g, fx(2.0), fx(1.0), mode);
        // An active ramp must not disturb the zero fixed point.
        f.set_params(g_coeff(8000.0, 44100.0), fx(0.04), fx(31.6), mode, 32);
        for _ in 0..64 {
            assert_eq!(f.process_sample(0), 0);
        }
    }
}

#[test]
fn per_sample_identities_hold_exactly() {
    // The core's state evolution does not depend on the selected mode, so
    // filters fed identical samples stay in identical states and their
    // outputs can be compared sample for sample.
    let g = g_coeff(map_cutoff(0.7), 44100.0);
    let r = fx(0.8);
    let k = fx(2.0);
    let mk = |mode: FilterMode| SvfFilter::new(g, r, k, mode);
    let mut f_hp = mk(FilterMode::Highpass);
    let mut f_lp = mk(FilterMode::Lowpass);
    let mut f_bp = mk(FilterMode::Bandpass);
    let mut f_ubp = mk(FilterMode::UnitBandpass);
    let mut f_ap = mk(FilterMode::Allpass);
    let mut f_nt = mk(FilterMode::Notch);
    let mut f_pk = mk(FilterMode::Peaking);
    for i in 0..256 {
        let x = test_input(i);
        let hp = f_hp.process_sample(x);
        let lp = f_lp.process_sample(x);
        let bp = f_bp.process_sample(x);
        let ubp = f_ubp.process_sample(x);
        let ap = f_ap.process_sample(x);
        let nt = f_nt.process_sample(x);
        let pk = f_pk.process_sample(x);
        assert_eq!(ubp, qmul(r, bp));
        assert_eq!(nt, qsub(x, ubp));
        assert_eq!(ap, qsub(qadd(ubp, ubp), x));
        assert_eq!(pk, qsub(lp, hp));
    }
}

#[test]
fn reset_then_zero_sample_is_silent_every_mode() {
    let g = g_coeff(map_cutoff(0.9), 48000.0);
    for mode in all_modes() {
        let mut f = SvfFilter::new(g, fx(0.04), fx(10.0), mode);
        // Store some energy: an impulse followed by a burst.
        f.process_sample(fx(1.0));
        for i in 0..10 {
            f.process_sample(test_input(i));
        }
        f.reset();
        assert_eq!(f.process_sample(0), 0);
    }
}

#[test]
fn reset_clears_energy_but_not_ramp_progress() {
    // Documented semantics, deliberately pinned down here: a hard reset
    // zeroes the integrator memories but does not restart in-flight
    // parameter ramps.
    let g0 = g_coeff(map_cutoff(0.2), 44100.0);
    let g1 = g_coeff(map_cutoff(0.8), 44100.0);
    let mut f = SvfFilter::new(g0, fx(2.0), fx(1.0), FilterMode::Lowpass);
    f.set_params(g1, fx(2.0), fx(1.0), FilterMode::Lowpass, 100);
    for i in 0..10 {
        f.process_sample(test_input(i));
    }
    let g_mid = f.g.current;
    let rem_mid = f.g.remaining;
    f.reset();
    assert_eq!(f.g.current, g_mid);
    assert_eq!(f.g.remaining, rem_mid);
    // The energy, though, is gone.
    assert_eq!(f.process_sample(0), 0);
}

#[test]
fn block_equals_sample_by_sample() {
    let sr = 44100.0;
    let g0 = g_coeff(map_cutoff(0.5), sr);
    let mut blockwise = SvfFilter::new(g0, fx(2.0), fx(1.0), FilterMode::Lowpass);
    let mut samplewise = SvfFilter::new(g0, fx(2.0), fx(1.0), FilterMode::Lowpass);

    // A genuine ramp: new targets, smoothed across the block.
    let g1 = g_coeff(map_cutoff(0.8), sr);
    let steps = ramp_length(256, 44100);
    blockwise.set_params(g1, fx(0.5), fx(4.0), FilterMode::Lowpass, steps);
    samplewise.set_params(g1, fx(0.5), fx(4.0), FilterMode::Lowpass, steps);

    let mut buf: Vec<i64> = (0..256).map(test_input).collect();
    blockwise.process_block(&mut buf);
    for i in 0..256 {
        let y = samplewise.process_sample(test_input(i));
        assert_eq!(buf[i], y);
    }

    // And the states agree afterwards: further output stays identical.
    let mut tail: Vec<i64> = (256..512).map(test_input).collect();
    blockwise.process_block(&mut tail);
    for i in 256..512 {
        let y = samplewise.process_sample(test_input(i));
        assert_eq!(tail[i - 256], y);
    }
}

#[test]
fn empty_block_is_a_no_op() {
    let g = g_coeff(map_cutoff(0.3), 44100.0);
    let mut f = SvfFilter::new(g, fx(1.0), fx(1.0), FilterMode::Bandpass);
    let mut empty: Vec<i64> = Vec::new();
    f.process_block(&mut empty);
    assert!(empty.is_empty());
    // The state is untouched: the next sample matches a fresh twin's.
    let mut twin = SvfFilter::new(g, fx(1.0), fx(1.0), FilterMode::Bandpass);
    assert_eq!(f.process_sample(fx(0.5)), twin.process_sample(fx(0.5)));
}

#[test]
fn smoothing_floor() {
    assert_eq!(minimum_ramp_samples(44100), 44);
    assert_eq!(minimum_ramp_samples(48000), 48);
    assert_eq!(minimum_ramp_samples(8000), 16);
    assert_eq!(ramp_length(512, 44100), 512);
    assert_eq!(ramp_length(10, 44100), 44);
    assert_eq!(ramp_length(10, 8000), 16);
}

#[test]
fn lowpass_step_response_scenario() {
    // 44100 Hz, normalized cutoff 0.5 (about 522.5 Hz), default resonance
    // (coefficient 2), gain 0 dB, lowpass. Ten milliseconds of silence,
    // then a unit step, parameters smoothed over one 512-sample block:
    // the output rises monotonically toward one with no overshoot.
    let sr = 44100.0;
    let fc = map_cutoff(0.5);
    assert!((fc - 522.5).abs() < 0.1);
    let g = g_coeff(fc, sr);
    let mut f = SvfFilter::new(g, fx(2.0), fx(1.0), FilterMode::Lowpass);
    f.set_params(g, fx(2.0), fx(1.0), FilterMode::Lowpass, 512);

    for _ in 0..441 {
        assert_eq!(f.process_sample(0), 0);
    }
    let mut prev: i64 = 0;
    let mut last: i64 = 0;
    for _ in 0..4096 {
        let y = f.process_sample(FX_ONE);
        assert!(y >= prev, "lowpass step response must not fall back");
        assert!(y <= FX_ONE, "lowpass step response must not overshoot");
        prev = y;
        last = y;
    }
    assert!(last > fx(0.99), "lowpass step response must converge toward one");
}
