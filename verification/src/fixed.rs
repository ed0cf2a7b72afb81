//! Q32.32 fixed-point arithmetic: the number domain of the filter core.
//!
//! A sample or coefficient is an `i64` holding `value * 2^32`. Products and
//! quotients are computed in 128-bit intermediates, truncated toward zero,
//! and saturated to the `i64` range, so every operation is total and has an
//! exact mathematical description (`fx_add`, `fx_sub`, `fx_mul`, `fx_div`).

use vstd::prelude::*;
use vstd::arithmetic::div_mod::lemma_div_of0;
use vstd::arithmetic::div_mod::lemma_div_is_ordered;
use vstd::arithmetic::div_mod::lemma_div_pos_is_pos;
use vstd::arithmetic::div_mod::lemma_div_multiples_vanish;
use vstd::arithmetic::mul::lemma_mul_is_commutative;
use vstd::arithmetic::mul::lemma_mul_unary_negation;
use vstd::arithmetic::mul::lemma_mul_cancels_negatives;
use vstd::arithmetic::mul::lemma_mul_inequality;
use vstd::arithmetic::mul::lemma_mul_nonnegative;

verus! {

/// The Q32.32 representation of 1.0.
pub const FX_ONE: i64 = 0x1_0000_0000;

/// Absolute value of a mathematical integer.
pub open spec fn abs_int(a: int) -> int {
    if a < 0 {
        -a
    } else {
        a
    }
}

/// Saturation of a mathematical integer to the `i64` range.
pub open spec fn sat64(x: int) -> int {
    if x > i64::MAX {
        i64::MAX as int
    } else if x < i64::MIN {
        i64::MIN as int
    } else {
        x
    }
}

/// Division truncated toward zero, for a positive divisor.
pub open spec fn tdiv(n: int, d: int) -> int {
    if n >= 0 {
        n / d
    } else {
        -((-n) / d)
    }
}

/// Saturating fixed-point addition.
pub open spec fn fx_add(a: int, b: int) -> int {
    sat64(a + b)
}

/// Saturating fixed-point subtraction.
pub open spec fn fx_sub(a: int, b: int) -> int {
    sat64(a - b)
}

/// Fixed-point product: the wide product rescaled by one, truncated toward
/// zero and saturated.
pub open spec fn fx_mul(a: int, b: int) -> int {
    sat64(tdiv(a * b, FX_ONE as int))
}

/// Fixed-point quotient for a positive divisor: the dividend scaled up by
/// one, divided with truncation toward zero and saturated.
pub open spec fn fx_div(a: int, b: int) -> int {
    sat64(tdiv(a * (FX_ONE as int), b))
}

/// A signed product equals its magnitude product with the sign of the
/// operand signs.
proof fn lemma_mul_sign_split(a: int, b: int)
    ensures
        a * b == (if (a < 0) != (b < 0) {
            -(abs_int(a) * abs_int(b))
        } else {
            abs_int(a) * abs_int(b)
        }),
{
    lemma_mul_unary_negation(a, b);
    lemma_mul_unary_negation(-a, b);
    lemma_mul_cancels_negatives(a, b);
}

/// Magnitude of an `i64`, exact also for the most negative value.
pub fn mag64(a: i64) -> (r: u64)
    ensures
        r as int == abs_int(a as int),
{
    if a < 0 {
        let w: i128 = -(a as i128);
        w as u64
    } else {
        a as u64
    }
}

/// Reapplies a sign to an unsigned magnitude and saturates to `i64`.
pub(crate) fn from_mag(q: u128, neg: bool) -> (r: i64)
    ensures
        r as int == sat64(
            if neg {
                -(q as int)
            } else {
                q as int
            },
        ),
{
    if neg {
        if q >= 0x8000_0000_0000_0000u128 {
            i64::MIN
        } else {
            -(q as i64)
        }
    } else {
        if q > 0x7FFF_FFFF_FFFF_FFFFu128 {
            i64::MAX
        } else {
            q as i64
        }
    }
}

/// Saturating addition of two fixed-point values.
pub fn qadd(a: i64, b: i64) -> (r: i64)
    ensures
        r as int == fx_add(a as int, b as int),
{
    let s: i128 = a as i128 + b as i128;
    if s > i64::MAX as i128 {
        i64::MAX
    } else if s < i64::MIN as i128 {
        i64::MIN
    } else {
        s as i64
    }
}

/// Saturating subtraction of two fixed-point values.
pub fn qsub(a: i64, b: i64) -> (r: i64)
    ensures
        r as int == fx_sub(a as int, b as int),
{
    let s: i128 = a as i128 - b as i128;
    if s > i64::MAX as i128 {
        i64::MAX
    } else if s < i64::MIN as i128 {
        i64::MIN
    } else {
        s as i64
    }
}

/// Fixed-point product, computed on 128-bit magnitudes.
pub fn qmul(a: i64, b: i64) -> (r: i64)
    ensures
        r as int == fx_mul(a as int, b as int),
{
    let neg: bool = (a < 0) != (b < 0);
    let ma: u64 = mag64(a);
    let mb: u64 = mag64(b);
    proof {
        lemma_mul_sign_split(a as int, b as int);
        assert((ma as int) * (mb as int) < 0x100000000000000000000000000000000int) by (nonlinear_arith)
            requires
                ma as int <= 0x8000_0000_0000_0000int,
                mb as int <= 0x8000_0000_0000_0000int,
        ;
    }
    let p: u128 = (ma as u128) * (mb as u128);
    let q: u128 = p / (FX_ONE as u128);
    from_mag(q, neg)
}

/// Fixed-point quotient by a positive divisor, computed on 128-bit
/// magnitudes.
pub fn qdiv(a: i64, b: i64) -> (r: i64)
    requires
        b > 0,
    ensures
        r as int == fx_div(a as int, b as int),
{
    let neg: bool = a < 0;
    let ma: u64 = mag64(a);
    proof {
        lemma_mul_sign_split(a as int, FX_ONE as int);
    }
    let n: u128 = (ma as u128) * (FX_ONE as u128);
    let q: u128 = n / (b as u128);
    from_mag(q, neg)
}

/// Multiplying by zero gives exactly zero.
pub proof fn lemma_fx_mul_zero(a: int)
    ensures
        fx_mul(a, 0) == 0,
        fx_mul(0, a) == 0,
{
    assert(a * 0 == 0);
    assert(0 * a == 0);
    lemma_div_of0(FX_ONE as int);
}

/// Dividing zero by a positive value gives exactly zero.
pub proof fn lemma_fx_div_zero(b: int)
    requires
        b > 0,
    ensures
        fx_div(0, b) == 0,
{
    lemma_div_of0(b);
}

/// Multiplying by the fixed-point unit is exact.
pub proof fn lemma_fx_mul_one(a: int)
    requires
        i64::MIN <= a <= i64::MAX,
    ensures
        fx_mul(a, FX_ONE as int) == a,
        fx_mul(FX_ONE as int, a) == a,
{
    let s: int = FX_ONE as int;
    lemma_mul_is_commutative(a, s);
    if a >= 0 {
        lemma_div_multiples_vanish(a, s);
    } else {
        lemma_mul_unary_negation(a, s);
        lemma_div_multiples_vanish(-a, s);
    }
}

/// A product of nonnegative values is nonnegative.
pub proof fn lemma_fx_mul_nonneg(a: int, b: int)
    requires
        a >= 0,
        b >= 0,
    ensures
        fx_mul(a, b) >= 0,
{
    lemma_mul_nonnegative(a, b);
    lemma_div_pos_is_pos(a * b, FX_ONE as int);
}

/// A square is nonnegative.
pub proof fn lemma_fx_square_nonneg(a: int)
    ensures
        fx_mul(a, a) >= 0,
{
    assert(a * a >= 0) by (nonlinear_arith);
    lemma_div_pos_is_pos(a * a, FX_ONE as int);
}

/// Plain integer division of a difference by a positive step count,
/// truncated toward zero and saturated: the linear ramp increment.
pub fn qdiv_steps(a: i64, b: i64, steps: usize) -> (r: i64)
    requires
        steps >= 1,
    ensures
        r as int == sat64(tdiv(a - b, steps as int)),
{
    let d: i128 = a as i128 - b as i128;
    let neg: bool = d < 0;
    let mag: u128 = if neg {
        (-d) as u128
    } else {
        d as u128
    };
    let q: u128 = mag / (steps as u128);
    from_mag(q, neg)
}

/// Iterated fixed-point multiplication: `b` to the power `n`, computed with
/// the very truncating product the ramps use.
pub open spec fn fxpow(b: int, n: nat) -> int
    decreases n,
{
    if n == 0 {
        FX_ONE as int
    } else {
        fx_mul(b, fxpow(b, (n - 1) as nat))
    }
}

/// Every power of the fixed-point unit is the unit itself.
pub proof fn lemma_fxpow_one(n: nat)
    ensures
        fxpow(FX_ONE as int, n) == FX_ONE as int,
    decreases n,
{
    if n > 0 {
        lemma_fxpow_one((n - 1) as nat);
        lemma_fx_mul_one(FX_ONE as int);
    }
}

/// A power of zero with a positive exponent is zero.
pub proof fn lemma_fxpow_zero(n: nat)
    requires
        n >= 1,
    ensures
        fxpow(0, n) == 0,
{
    lemma_fx_mul_zero(fxpow(0, (n - 1) as nat));
}

/// For a base of at least one, a positive power is at least the base.
pub proof fn lemma_fxpow_lower(b: int, n: nat)
    requires
        FX_ONE as int <= b <= i64::MAX,
        n >= 1,
    ensures
        fxpow(b, n) >= b,
    decreases n,
{
    if n == 1 {
        assert(fxpow(b, 0nat) == FX_ONE as int);
        lemma_fx_mul_one(b);
    } else {
        lemma_fxpow_lower(b, (n - 1) as nat);
        lemma_fx_mul_ge_left(b, fxpow(b, (n - 1) as nat));
    }
}

/// Fixed-point power by repeated truncating multiplication.
pub fn qpow(b: i64, n: usize) -> (r: i64)
    requires
        b >= 0,
    ensures
        r as int == fxpow(b as int, n as nat),
{
    let mut acc: i64 = FX_ONE;
    let mut i: usize = 0;
    while i < n
        invariant
            i <= n,
            acc as int == fxpow(b as int, i as nat),
        decreases n - i,
    {
        acc = qmul(b, acc);
        i = i + 1;
    }
    acc
}

/// `r` is the floor `n`-th root of `q` in the truncating fixed-point
/// arithmetic: the largest value whose `n`-th power does not exceed `q`.
pub open spec fn is_floor_nth_root(r: int, q: int, n: nat) -> bool {
    &&& r >= 0
    &&& fxpow(r, n) <= q
    &&& fxpow(r + 1, n) > q
}

/// Binary search for the floor `n`-th root of a nonnegative fixed-point
/// value: the per-step ratio of a logarithmic ramp.
pub fn fx_nth_root(q: i64, n: usize) -> (r: i64)
    requires
        0 <= q < i64::MAX,
        n >= 1,
    ensures
        is_floor_nth_root(r as int, q as int, n as nat),
{
    let mut lo: u64 = 0;
    let mut hi: u64 = if q < FX_ONE {
        FX_ONE as u64
    } else {
        (q as u64) + 1
    };
    proof {
        lemma_fxpow_zero(n as nat);
        if q < FX_ONE {
            lemma_fxpow_one(n as nat);
        } else {
            lemma_fxpow_lower(q as int + 1, n as nat);
        }
    }
    while hi - lo > 1
        invariant
            lo < hi,
            hi <= i64::MAX as u64,
            n >= 1,
            q >= 0,
            fxpow(lo as int, n as nat) <= q as int,
            fxpow(hi as int, n as nat) > q as int,
        decreases hi - lo,
    {
        let mid: u64 = lo + (hi - lo) / 2;
        let p: i64 = qpow(mid as i64, n);
        if p <= q {
            lo = mid;
        } else {
            hi = mid;
        }
    }
    lo as i64
}

/// Scaling a nonnegative value by a factor of at least one does not shrink
/// it.
pub proof fn lemma_fx_mul_ge_left(b: int, c: int)
    requires
        0 <= b <= i64::MAX,
        c >= FX_ONE as int,
    ensures
        fx_mul(b, c) >= b,
{
    let s: int = FX_ONE as int;
    lemma_mul_inequality(s, c, b);
    lemma_mul_is_commutative(s, b);
    lemma_mul_is_commutative(c, b);
    lemma_div_is_ordered(b * s, b * c, s);
    lemma_div_multiples_vanish(b, s);
    lemma_mul_nonnegative(b, c);
    lemma_div_pos_is_pos(b * c, s);
}

} // verus!
