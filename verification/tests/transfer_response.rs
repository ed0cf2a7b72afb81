//! The analytic transfer function: allpass flatness, unit-bandpass peak
//! normalization, anchor values at zero frequency and at the cutoff, and
//! the logarithmic plot sweep.

use linear_svf::fixed::{qmul, FX_ONE};
use linear_svf::svf::FilterMode;
use linear_svf::transfer::{evaluate, mag_sqr, sweep_frequencies};

fn fx(v: f64) -> i64 {
    (v * 4294967296.0).round() as i64
}

fn to_f64(v: i64) -> f64 {
    v as f64 / 4294967296.0
}

/// Normalized angular frequency: the frequency's prewarped tangent over
/// the cutoff's, computed at the float boundary as the host layer does.
fn w_of(freq: f64, fc: f64, sr: f64) -> i64 {
    let tan_f = (std::f64::consts::PI * freq / sr).tan();
    let tan_c = (std::f64::consts::PI * fc / sr).tan();
    fx(tan_f / tan_c)
}

#[test]
fn allpass_is_flat_across_the_sweep() {
    let sr = 44100.0;
    let fc = 522.7;
    let r = fx(0.7);
    let k = fx(1.0);
    for freq_fx in sweep_frequencies(fx(13.0), fx(21000.0), 100) {
        let w = w_of(to_f64(freq_fx), fc, sr);
        let h = evaluate(FilterMode::Allpass, w, r, k);
        // Exactly equal squared magnitudes of numerator and denominator.
        assert_eq!(mag_sqr(&h.num), mag_sqr(&h.den));
        // And therefore a magnitude within float tolerance of one.
        let n = to_f64(mag_sqr(&h.num));
        let d = to_f64(mag_sqr(&h.den));
        assert!(d > 0.0);
        assert!((n / d - 1.0).abs() < 1e-5);
    }
}

#[test]
fn unit_bandpass_is_one_at_cutoff_for_every_resonance() {
    for r in [fx(0.04), fx(0.4), fx(1.0), fx(2.0)] {
        let h = evaluate(FilterMode::UnitBandpass, FX_ONE, r, fx(1.0));
        assert_eq!(h.num.re, h.den.re);
        assert_eq!(h.num.im, h.den.im);
        assert_eq!(h.num.re, 0);
        assert_eq!(h.num.im, r);
    }
}

#[test]
fn lowpass_is_one_at_zero_frequency() {
    let h = evaluate(FilterMode::Lowpass, 0, fx(2.0), fx(1.0));
    assert_eq!(h.num.re, FX_ONE);
    assert_eq!(h.num.im, 0);
    assert_eq!(h.den.re, FX_ONE);
    assert_eq!(h.den.im, 0);
}

#[test]
fn highpass_is_zero_at_zero_frequency() {
    let h = evaluate(FilterMode::Highpass, 0, fx(2.0), fx(1.0));
    assert_eq!(mag_sqr(&h.num), 0);
    assert!(mag_sqr(&h.den) > 0);
}

#[test]
fn notch_rejects_the_cutoff_completely() {
    let h = evaluate(FilterMode::Notch, FX_ONE, fx(0.5), fx(1.0));
    assert_eq!(mag_sqr(&h.num), 0);
    assert!(mag_sqr(&h.den) > 0);
}

#[test]
fn band_shelf_gain_at_cutoff_is_the_linear_gain() {
    let r = fx(2.0);
    let k = fx(2.0);
    let h = evaluate(FilterMode::BandShelf, FX_ONE, r, k);
    assert_eq!(h.num.re, 0);
    assert_eq!(h.den.re, 0);
    assert_eq!(h.num.im, qmul(k, r));
    assert_eq!(h.den.im, r);
    // |H|^2 at the cutoff is exactly k^2 for these exactly representable
    // values: 16 against 4.
    assert_eq!(mag_sqr(&h.num), fx(16.0));
    assert_eq!(mag_sqr(&h.den), fx(4.0));
}

#[test]
fn sweep_covers_the_audible_range() {
    let freqs = sweep_frequencies(fx(13.0), fx(21000.0), 700);
    assert_eq!(freqs.len(), 701);
    assert_eq!(freqs[0], fx(13.0));
    assert_eq!(freqs[700], fx(21000.0));
    for i in 0..700 {
        assert!(freqs[i + 1] >= freqs[i]);
        assert!(freqs[i] >= fx(13.0) && freqs[i] <= fx(21000.0));
    }
}
