//! The two coefficient ramps: exact landing after the declared number of
//! ticks, monotone motion, and holding after completion.

use linear_svf::smoother::{LinearSmoother, LogSmoother};

fn fx(v: f64) -> i64 {
    (v * 4294967296.0).round() as i64
}

#[test]
fn linear_ramp_lands_exactly() {
    let mut s = LinearSmoother::new(fx(0.0));
    s.set_target(fx(1.0), 7);
    let start = s.current();
    let mut prev = start;
    for _ in 0..7 {
        s.tick();
        let c = s.current();
        assert!(c >= prev);
        assert!(c >= start && c <= fx(1.0));
        prev = c;
    }
    assert_eq!(s.current(), fx(1.0));
}

#[test]
fn linear_ramp_strictly_monotone_on_wide_span() {
    // A span of at least one raw ulp per step never stalls: every tick
    // strictly advances the value.
    let mut s = LinearSmoother::new(fx(0.0));
    s.set_target(fx(1.0), 7);
    let mut prev = s.current();
    for _ in 0..7 {
        s.tick();
        assert!(s.current() > prev);
        prev = s.current();
    }
    assert_eq!(s.current(), fx(1.0));
}

#[test]
fn linear_ramp_narrow_span_stalls_then_lands() {
    // Three raw ulps over five steps: the truncated increment is zero, so
    // intermediate ticks hold (weak monotonicity) and the last tick still
    // lands exactly.
    let mut s = LinearSmoother::new(0);
    s.set_target(3, 5);
    for _ in 0..4 {
        s.tick();
        assert_eq!(s.current(), 0);
    }
    s.tick();
    assert_eq!(s.current(), 3);
}

#[test]
fn linear_ramp_descending() {
    let mut s = LinearSmoother::new(fx(2.0));
    s.set_target(fx(-1.0), 5);
    let mut prev = s.current();
    for _ in 0..5 {
        s.tick();
        let c = s.current();
        assert!(c <= prev);
        prev = c;
    }
    assert_eq!(s.current(), fx(-1.0));
}

#[test]
fn linear_ramp_holds_after_completion() {
    let mut s = LinearSmoother::new(fx(0.25));
    s.set_target(fx(0.75), 3);
    for _ in 0..3 {
        s.tick();
    }
    assert_eq!(s.current(), fx(0.75));
    for _ in 0..10 {
        s.tick();
        assert_eq!(s.current(), fx(0.75));
    }
}

#[test]
fn linear_set_instantly_jumps() {
    let mut s = LinearSmoother::new(fx(0.0));
    s.set_target(fx(1.0), 100);
    s.tick();
    s.set_instantly(fx(-3.5));
    assert_eq!(s.current(), fx(-3.5));
    s.tick();
    assert_eq!(s.current(), fx(-3.5));
}

#[test]
fn log_ramp_lands_exactly_ascending() {
    let mut s = LogSmoother::new(fx(13.0));
    s.set_target(fx(21000.0), 700);
    let mut prev = s.current();
    for _ in 0..700 {
        s.tick();
        let c = s.current();
        assert!(c >= prev);
        assert!(c >= fx(13.0) && c <= fx(21000.0));
        prev = c;
    }
    assert_eq!(s.current(), fx(21000.0));
}

#[test]
fn log_ramp_lands_exactly_descending() {
    let mut s = LogSmoother::new(fx(1000.0));
    s.set_target(fx(10.0), 50);
    let mut prev = s.current();
    for _ in 0..50 {
        s.tick();
        let c = s.current();
        assert!(c <= prev);
        assert!(c >= fx(10.0));
        prev = c;
    }
    assert_eq!(s.current(), fx(10.0));
}

#[test]
fn log_ramp_ratio_is_geometric() {
    // From 1 to 100 in two steps: the per-step ratio is the floor square
    // root of 100, which is exactly 10, so one tick lands exactly on 10.
    let mut s = LogSmoother::new(fx(1.0));
    s.set_target(fx(100.0), 2);
    s.tick();
    assert_eq!(s.current(), fx(10.0));
    s.tick();
    assert_eq!(s.current(), fx(100.0));
}

#[test]
fn log_ramp_stays_positive() {
    let mut s = LogSmoother::new(fx(21000.0));
    s.set_target(1, 20);
    for _ in 0..20 {
        s.tick();
        assert!(s.current() > 0);
    }
    assert_eq!(s.current(), 1);
}

#[test]
fn single_step_ramp_jumps_on_first_tick() {
    let mut lin = LinearSmoother::new(fx(0.0));
    lin.set_target(fx(5.0), 1);
    lin.tick();
    assert_eq!(lin.current(), fx(5.0));
    let mut log = LogSmoother::new(fx(1.0));
    log.set_target(fx(5.0), 1);
    log.tick();
    assert_eq!(log.current(), fx(5.0));
}

#[test]
fn log_constant_target_is_a_fixed_point() {
    let mut s = LogSmoother::new(fx(522.7));
    s.set_target(fx(522.7), 64);
    for _ in 0..64 {
        s.tick();
        assert_eq!(s.current(), fx(522.7));
    }
}
