//! Per-sample coefficient ramp generators.
//!
//! Two variants share one interface: a linear ramp (equal absolute
//! increments per step) and a logarithmic ramp (equal ratio per step, for
//! perceptually exponential parameters such as frequency). Both bias the
//! last step to land exactly on the target, and both clamp each step to the
//! closed interval between the pre-ramp value and the target, so rounding
//! can never overshoot and every ramp is monotone toward its target.

use vstd::prelude::*;
use vstd::arithmetic::div_mod::lemma_div_by_self;
use vstd::arithmetic::div_mod::lemma_div_is_ordered;
use vstd::arithmetic::div_mod::lemma_div_nonincreasing;
use vstd::arithmetic::div_mod::lemma_fundamental_div_mod;
use vstd::arithmetic::mul::lemma_mul_inequality;
use vstd::arithmetic::mul::lemma_mul_is_commutative;
use crate::fixed::{
    abs_int, fx_add, fx_mul, fx_div, sat64, tdiv, qadd, qmul, qdiv, qdiv_steps, fx_nth_root,
    is_floor_nth_root, FX_ONE,
};

verus! {

/// `v` lies in the closed interval spanned by `a` and `b`.
pub open spec fn between(v: int, a: int, b: int) -> bool {
    (a <= v <= b) || (b <= v <= a)
}

/// A stepped value, clamped so that it neither moves away from the old
/// value `c` nor past the target `t`.
pub open spec fn clamp_toward(stepped: int, c: int, t: int) -> int {
    if c <= t {
        if stepped < c {
            c
        } else if stepped > t {
            t
        } else {
            stepped
        }
    } else {
        if stepped > c {
            c
        } else if stepped < t {
            t
        } else {
            stepped
        }
    }
}

/// Executable clamp matching `clamp_toward`.
fn clamp_step(stepped: i64, c: i64, t: i64) -> (r: i64)
    ensures
        r as int == clamp_toward(stepped as int, c as int, t as int),
{
    if c <= t {
        if stepped < c {
            c
        } else if stepped > t {
            t
        } else {
            stepped
        }
    } else {
        if stepped > c {
            c
        } else if stepped < t {
            t
        } else {
            stepped
        }
    }
}

/// The linear ramp: equal absolute increments per step.
pub struct LinearSmoother {
    /// The value handed out between ticks.
    pub current: i64,
    /// Where the ramp is headed.
    pub target: i64,
    /// The per-step additive increment.
    pub increment: i64,
    /// Ticks left until the target is reached.
    pub remaining: usize,
}

/// One tick of the linear ramp as a pure function: a no-op once the ramp
/// has completed, an exact landing on the last step, a clamped additive
/// step otherwise.
pub open spec fn lin_tick(s: LinearSmoother) -> LinearSmoother {
    if s.remaining == 0 {
        s
    } else if s.remaining == 1 {
        LinearSmoother { current: s.target, target: s.target, increment: s.increment, remaining: 0 }
    } else {
        LinearSmoother {
            current: clamp_toward(
                fx_add(s.current as int, s.increment as int),
                s.current as int,
                s.target as int,
            ) as i64,
            target: s.target,
            increment: s.increment,
            remaining: (s.remaining - 1) as usize,
        }
    }
}

/// The linear ramp after `n` ticks.
pub open spec fn lin_ticks(s: LinearSmoother, n: nat) -> LinearSmoother
    decreases n,
{
    if n == 0 {
        s
    } else {
        lin_tick(lin_ticks(s, (n - 1) as nat))
    }
}

impl LinearSmoother {
    /// A ramp resting at `v`.
    pub fn new(v: i64) -> (r: LinearSmoother)
        ensures
            r.current == v,
            r.target == v,
            r.remaining == 0,
    {
        LinearSmoother { current: v, target: v, increment: 0, remaining: 0 }
    }

    /// Jumps to `v` with zero remaining ramp.
    pub fn set_instantly(&mut self, v: i64)
        ensures
            final(self).current == v,
            final(self).target == v,
            final(self).remaining == 0,
    {
        self.current = v;
        self.target = v;
        self.increment = 0;
        self.remaining = 0;
    }

    /// Starts a ramp from the current value to `v` over `steps` ticks, with
    /// increment `(v - current) / steps` truncated toward zero.
    pub fn set_target(&mut self, v: i64, steps: usize)
        requires
            steps >= 1,
        ensures
            final(self).current == old(self).current,
            final(self).target == v,
            final(self).remaining == steps,
            final(self).increment as int == sat64(tdiv(v - old(self).current, steps as int)),
    {
        self.increment = qdiv_steps(v, self.current, steps);
        self.target = v;
        self.remaining = steps;
    }

    /// Advances the ramp one step; a no-op once the ramp has completed.
    pub fn tick(&mut self)
        ensures
            *final(self) == lin_tick(*old(self)),
            between(final(self).current as int, old(self).current as int, old(self).target as int),
            final(self).target == old(self).target,
    {
        if self.remaining == 0 {
        } else if self.remaining == 1 {
            self.current = self.target;
            self.remaining = 0;
        } else {
            let stepped: i64 = qadd(self.current, self.increment);
            self.current = clamp_step(stepped, self.current, self.target);
            self.remaining = self.remaining - 1;
        }
    }

    /// The value the ramp currently holds.
    pub fn current(&self) -> (r: i64)
        ensures
            r == self.current,
    {
        self.current
    }
}

/// The logarithmic ramp: equal multiplicative ratio per step, for
/// frequency-like, strictly positive parameters.
pub struct LogSmoother {
    /// The value handed out between ticks; strictly positive.
    pub current: i64,
    /// Where the ramp is headed; strictly positive.
    pub target: i64,
    /// The per-step multiplicative ratio.
    pub ratio: i64,
    /// Ticks left until the target is reached.
    pub remaining: usize,
}

/// One tick of the logarithmic ramp as a pure function.
pub open spec fn log_tick(s: LogSmoother) -> LogSmoother {
    if s.remaining == 0 {
        s
    } else if s.remaining == 1 {
        LogSmoother { current: s.target, target: s.target, ratio: s.ratio, remaining: 0 }
    } else {
        LogSmoother {
            current: clamp_toward(
                fx_mul(s.current as int, s.ratio as int),
                s.current as int,
                s.target as int,
            ) as i64,
            target: s.target,
            ratio: s.ratio,
            remaining: (s.remaining - 1) as usize,
        }
    }
}

/// The logarithmic ramp after `n` ticks.
pub open spec fn log_ticks(s: LogSmoother, n: nat) -> LogSmoother
    decreases n,
{
    if n == 0 {
        s
    } else {
        log_tick(log_ticks(s, (n - 1) as nat))
    }
}

/// The quotient handed to the root search: capped one below the saturation
/// bound so that a root bracket always exists.
pub open spec fn root_arg(q: int) -> int {
    if q >= i64::MAX {
        i64::MAX - 1
    } else {
        q
    }
}

impl LogSmoother {
    /// A ramp resting at the strictly positive value `v`.
    pub fn new(v: i64) -> (r: LogSmoother)
        requires
            v > 0,
        ensures
            r.current == v,
            r.target == v,
            r.remaining == 0,
    {
        LogSmoother { current: v, target: v, ratio: FX_ONE, remaining: 0 }
    }

    /// Jumps to the strictly positive value `v` with zero remaining ramp.
    pub fn set_instantly(&mut self, v: i64)
        requires
            v > 0,
        ensures
            final(self).current == v,
            final(self).target == v,
            final(self).remaining == 0,
    {
        self.current = v;
        self.target = v;
        self.ratio = FX_ONE;
        self.remaining = 0;
    }

    /// Starts a ramp from the current value to `v` over `steps` ticks, with
    /// the per-step ratio the floor `steps`-th root of `v / current`.
    pub fn set_target(&mut self, v: i64, steps: usize)
        requires
            old(self).current > 0,
            v > 0,
            steps >= 1,
        ensures
            final(self).current == old(self).current,
            final(self).target == v,
            final(self).remaining == steps,
            is_floor_nth_root(
                final(self).ratio as int,
                root_arg(fx_div(v as int, old(self).current as int)),
                steps as nat,
            ),
    {
        let q: i64 = qdiv(v, self.current);
        let capped: i64 = if q >= i64::MAX {
            i64::MAX - 1
        } else {
            q
        };
        proof {
            crate::fixed::lemma_fx_div_zero(self.current as int);
            assert(capped >= 0);
        }
        self.ratio = fx_nth_root(capped, steps);
        self.target = v;
        self.remaining = steps;
    }

    /// Advances the ramp one step; a no-op once the ramp has completed.
    pub fn tick(&mut self)
        ensures
            *final(self) == log_tick(*old(self)),
            between(final(self).current as int, old(self).current as int, old(self).target as int),
            final(self).target == old(self).target,
    {
        if self.remaining == 0 {
        } else if self.remaining == 1 {
            self.current = self.target;
            self.remaining = 0;
        } else {
            let stepped: i64 = qmul(self.current, self.ratio);
            self.current = clamp_step(stepped, self.current, self.target);
            self.remaining = self.remaining - 1;
        }
    }

    /// The value the ramp currently holds.
    pub fn current(&self) -> (r: i64)
        ensures
            r == self.current,
    {
        self.current
    }
}

/// The linear ramp after `k <= remaining` ticks: target, increment and
/// countdown bookkeeping, the current value still between start and
/// target, and an exact landing once the countdown is spent.
proof fn lemma_lin_ticks_props(s: LinearSmoother, k: nat)
    requires
        k <= s.remaining,
    ensures
        lin_ticks(s, k).target == s.target,
        lin_ticks(s, k).increment == s.increment,
        lin_ticks(s, k).remaining == s.remaining - k,
        between(lin_ticks(s, k).current as int, s.current as int, s.target as int),
        k == s.remaining && k > 0 ==> lin_ticks(s, k).current == s.target,
    decreases k,
{
    if k > 0 {
        lemma_lin_ticks_props(s, (k - 1) as nat);
    }
}

/// Law: after exactly `remaining` ticks the linear ramp's current value
/// equals the target exactly; every intermediate value lies in the closed
/// interval between the pre-ramp value and the target; and each tick moves
/// the value monotonically toward the target.
pub proof fn lemma_linear_smoother_convergence(s: LinearSmoother)
    requires
        s.remaining >= 1,
    ensures
        lin_ticks(s, s.remaining as nat).current == s.target,
        forall|k: nat|
            k <= s.remaining ==> between(
                (#[trigger] lin_ticks(s, k)).current as int,
                s.current as int,
                s.target as int,
            ),
        forall|k: nat|
            k < s.remaining ==> between(
                lin_ticks(s, (k + 1) as nat).current as int,
                (#[trigger] lin_ticks(s, k)).current as int,
                s.target as int,
            ),
{
    lemma_lin_ticks_props(s, s.remaining as nat);
    assert forall|k: nat| k <= s.remaining implies between(
        (#[trigger] lin_ticks(s, k)).current as int,
        s.current as int,
        s.target as int,
    ) by {
        lemma_lin_ticks_props(s, k);
    }
    assert forall|k: nat| k < s.remaining implies between(
        lin_ticks(s, (k + 1) as nat).current as int,
        (#[trigger] lin_ticks(s, k)).current as int,
        s.target as int,
    ) by {
        lemma_lin_ticks_props(s, k);
        assert(lin_ticks(s, (k + 1) as nat) == lin_tick(lin_ticks(s, k)));
    }
}

/// The logarithmic ramp after `k <= remaining` ticks: bookkeeping, the
/// current value still between start and target, and an exact landing once
/// the countdown is spent.
proof fn lemma_log_ticks_props(s: LogSmoother, k: nat)
    requires
        k <= s.remaining,
    ensures
        log_ticks(s, k).target == s.target,
        log_ticks(s, k).ratio == s.ratio,
        log_ticks(s, k).remaining == s.remaining - k,
        between(log_ticks(s, k).current as int, s.current as int, s.target as int),
        k == s.remaining && k > 0 ==> log_ticks(s, k).current == s.target,
    decreases k,
{
    if k > 0 {
        lemma_log_ticks_props(s, (k - 1) as nat);
    }
}

/// `v` lies strictly inside the open interval spanned by `a` and `b`.
pub open spec fn strictly_between(v: int, a: int, b: int) -> bool {
    (a < v < b) || (b < v < a)
}

/// A ramp whose span admits at least one raw ulp per step has a nonzero
/// increment, and the increment times the step count never exceeds the
/// span.
proof fn lemma_lin_increment_facts(s: LinearSmoother)
    requires
        s.remaining >= 1,
        s.increment as int == sat64(tdiv(s.target - s.current, s.remaining as int)),
        s.remaining as int <= abs_int(s.target - s.current),
        abs_int(s.target - s.current) <= i64::MAX,
    ensures
        s.current < s.target ==> {
            &&& 1 <= s.increment as int
            &&& (s.increment as int) * (s.remaining as int) <= s.target - s.current
        },
        s.current > s.target ==> {
            &&& s.increment as int <= -1
            &&& (-(s.increment as int)) * (s.remaining as int) <= s.current - s.target
        },
        s.current != s.target,
{
    let rem = s.remaining as int;
    let d = s.target - s.current;
    if d >= 0 {
        lemma_div_is_ordered(rem, d, rem);
        lemma_div_by_self(rem);
        lemma_div_nonincreasing(d, rem);
        assert(1 <= d / rem <= d);
        lemma_fundamental_div_mod(d, rem);
        assert(d % rem >= 0) by (nonlinear_arith)
            requires
                rem > 0,
        ;
        lemma_mul_is_commutative(rem, d / rem);
    } else {
        let e = -d;
        lemma_div_is_ordered(rem, e, rem);
        lemma_div_by_self(rem);
        lemma_div_nonincreasing(e, rem);
        assert(1 <= e / rem <= e);
        lemma_fundamental_div_mod(e, rem);
        assert(e % rem >= 0) by (nonlinear_arith)
            requires
                rem > 0,
        ;
        lemma_mul_is_commutative(rem, e / rem);
    }
}

/// Before the landing step, an unclamped strict ramp sits exactly at the
/// start plus `k` increments: the clamp never engages.
proof fn lemma_lin_ticks_positions(s: LinearSmoother, k: nat)
    requires
        s.remaining >= 1,
        s.increment as int == sat64(tdiv(s.target - s.current, s.remaining as int)),
        s.remaining as int <= abs_int(s.target - s.current),
        abs_int(s.target - s.current) <= i64::MAX,
        k <= s.remaining - 1,
    ensures
        lin_ticks(s, k).current == s.current + k * s.increment,
    decreases k,
{
    let rem = s.remaining as int;
    let c = s.current as int;
    let t = s.target as int;
    let inc = s.increment as int;
    lemma_lin_increment_facts(s);
    if k == 0 {
        assert(k * inc == 0) by (nonlinear_arith)
            requires
                k == 0,
        ;
    } else {
        lemma_lin_ticks_positions(s, (k - 1) as nat);
        lemma_lin_ticks_props(s, (k - 1) as nat);
        let prev = lin_ticks(s, (k - 1) as nat);
        assert(prev.remaining == s.remaining - (k - 1) >= 2);
        assert(k * inc == (k - 1) * inc + inc) by (nonlinear_arith);
        if c < t {
            assert(0 <= (k - 1) * inc && 1 <= k * inc && k * inc <= inc * rem)
                by (nonlinear_arith)
                requires
                    inc >= 1,
                    1 <= k <= rem,
            ;
            assert(c <= prev.current as int <= t && c + k * inc <= t);
            assert(fx_add(prev.current as int, inc) == c + k * inc);
        } else {
            assert((k - 1) * inc == -((k - 1) * (-inc)) && k * inc == -(k * (-inc))
                && 0 <= (k - 1) * (-inc) && (k - 1) * (-inc) <= (c - t) - (-inc)
                && k * (-inc) <= c - t) by (nonlinear_arith)
                requires
                    -inc >= 1,
                    1 <= k <= rem - 1,
                    (-inc) * rem <= c - t,
            ;
            assert(prev.current as int > t);
            assert(prev.current as int <= c);
            assert(c + k * inc >= t);
            assert(fx_add(prev.current as int, inc) == c + k * inc);
        }
        assert(lin_ticks(s, k) == lin_tick(prev));
    }
}

/// Law: when the span of a linear ramp admits at least one raw ulp per
/// step, the ramp is strictly monotone: every intermediate value lies
/// strictly between the pre-ramp value and the target, and every tick
/// before the landing strictly advances the value toward the target. (A
/// narrower span can stall the truncated increment at zero, so there the
/// weak monotonicity of `lemma_linear_smoother_convergence` is all that
/// holds.)
pub proof fn lemma_linear_smoother_strictly_monotone(s: LinearSmoother)
    requires
        s.remaining >= 1,
        s.increment as int == sat64(tdiv(s.target - s.current, s.remaining as int)),
        s.remaining as int <= abs_int(s.target - s.current),
        abs_int(s.target - s.current) <= i64::MAX,
    ensures
        forall|k: nat|
            1 <= k <= s.remaining - 1 ==> strictly_between(
                (#[trigger] lin_ticks(s, k)).current as int,
                s.current as int,
                s.target as int,
            ),
        forall|k: nat|
            k < s.remaining ==> (if s.current < s.target {
                (#[trigger] lin_ticks(s, k)).current < lin_ticks(s, (k + 1) as nat).current
            } else {
                lin_ticks(s, (k + 1) as nat).current < lin_ticks(s, k).current
            }),
{
    let rem = s.remaining as int;
    let c = s.current as int;
    let t = s.target as int;
    let inc = s.increment as int;
    lemma_lin_increment_facts(s);
    assert forall|k: nat| 1 <= k <= s.remaining - 1 implies strictly_between(
        (#[trigger] lin_ticks(s, k)).current as int,
        s.current as int,
        s.target as int,
    ) by {
        lemma_lin_ticks_positions(s, k);
        if c < t {
            assert(1 <= k * inc && k * inc <= (t - c) - 1) by (nonlinear_arith)
                requires
                    inc >= 1,
                    1 <= k <= rem - 1,
                    inc * rem <= t - c,
            ;
        } else {
            assert(k * inc == -(k * (-inc)) && 1 <= k * (-inc) && k * (-inc) <= (c - t) - 1)
                by (nonlinear_arith)
                requires
                    -inc >= 1,
                    1 <= k <= rem - 1,
                    (-inc) * rem <= c - t,
            ;
        }
    }
    assert forall|k: nat| k < s.remaining implies (if s.current < s.target {
        (#[trigger] lin_ticks(s, k)).current < lin_ticks(s, (k + 1) as nat).current
    } else {
        lin_ticks(s, (k + 1) as nat).current < lin_ticks(s, k).current
    }) by {
        lemma_lin_ticks_positions(s, k);
        lemma_lin_ticks_props(s, (k + 1) as nat);
        if k + 1 <= s.remaining - 1 {
            lemma_lin_ticks_positions(s, (k + 1) as nat);
            assert((k + 1) * inc == k * inc + inc) by (nonlinear_arith);
        } else {
            // The landing step: the value before it is strictly short of
            // the target.
            if c < t {
                assert(k * inc <= (t - c) - 1) by (nonlinear_arith)
                    requires
                        inc >= 1,
                        k + 1 == rem,
                        inc * rem <= t - c,
                ;
            } else {
                assert(k * inc == -(k * (-inc)) && k * (-inc) <= (c - t) - 1)
                    by (nonlinear_arith)
                    requires
                        -inc >= 1,
                        k + 1 == rem,
                        (-inc) * rem <= c - t,
                ;
            }
        }
    }
}

/// Law: after exactly `remaining` ticks the logarithmic ramp's current
/// value equals the target exactly; every intermediate value lies in the
/// closed interval between the pre-ramp value and the target (so a ramp
/// between positive endpoints stays positive); and each tick moves the
/// value monotonically toward the target.
pub proof fn lemma_log_smoother_convergence(s: LogSmoother)
    requires
        s.remaining >= 1,
    ensures
        log_ticks(s, s.remaining as nat).current == s.target,
        forall|k: nat|
            k <= s.remaining ==> between(
                (#[trigger] log_ticks(s, k)).current as int,
                s.current as int,
                s.target as int,
            ),
        forall|k: nat|
            k < s.remaining ==> between(
                log_ticks(s, (k + 1) as nat).current as int,
                (#[trigger] log_ticks(s, k)).current as int,
                s.target as int,
            ),
{
    lemma_log_ticks_props(s, s.remaining as nat);
    assert forall|k: nat| k <= s.remaining implies between(
        (#[trigger] log_ticks(s, k)).current as int,
        s.current as int,
        s.target as int,
    ) by {
        lemma_log_ticks_props(s, k);
    }
    assert forall|k: nat| k < s.remaining implies between(
        log_ticks(s, (k + 1) as nat).current as int,
        (#[trigger] log_ticks(s, k)).current as int,
        s.target as int,
    ) by {
        lemma_log_ticks_props(s, k);
        assert(log_ticks(s, (k + 1) as nat) == log_tick(log_ticks(s, k)));
    }
}

} // verus!
