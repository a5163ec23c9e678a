//! Integer arithmetic of the vardiff control loop.
//!
//! The pool-wide difficulty modifier is a positive real in the design:
//! `max(1.0, speed_1m / 10.0)` where `speed_1m` is value-per-second over
//! the one-minute window.  With `total` the value mass in that window this
//! is exactly the rational `max(1, total / 600)`, so the engine keeps the
//! modifier as an exact numerator over the fixed denominator 600 and does
//! every product with truncation toward zero, saturating at `u64::MAX`:
//! a fixed rounding, so every prover observes the same targets.

use vstd::prelude::*;

verus! {

/// Fixed denominator of the global difficulty modifier: the one-minute
/// window (60 s) times the damping coefficient 10.
pub const MODIFIER_DENOM: u64 = 600;

/// `d * (g_num / 600)` truncated toward zero and saturated at `u64::MAX`.
pub open spec fn scale_spec(d: u64, g_num: u64) -> u64 {
    let wide = (d * g_num) / (MODIFIER_DENOM as int);
    if wide > u64::MAX { u64::MAX } else { wide as u64 }
}

/// Share target for a share difficulty: `u64::MAX / d`.
pub open spec fn target_spec(d: u64) -> u64
    recommends d >= 1,
{
    (u64::MAX as int / d as int) as u64
}

/// Per-prover difficulty from the two-minute window mass: value-per-second
/// times 20, truncated, floored at 1 and saturated at `u64::MAX`.
pub open spec fn vardiff_spec(total: u64) -> u64 {
    let t = (total * 20) / 120;
    if t > u64::MAX { u64::MAX } else if t < 1 { 1 } else { t as u64 }
}

/// Pool modifier numerator from the one-minute window mass:
/// `max(1.0, total / 600)` kept as `max(600, total)` over 600.
pub open spec fn modifier_spec(total: u64) -> u64 {
    if total < MODIFIER_DENOM { MODIFIER_DENOM } else { total }
}

/// PPLNS window size for a network target: `u64::MAX / target * 5`,
/// saturated at `u64::MAX`.
pub open spec fn pplns_spec(target: u64) -> u64
    recommends target >= 1,
{
    let n = (u64::MAX as int / target as int) * 5;
    if n > u64::MAX { u64::MAX } else { n as u64 }
}

/// Reported speed in thousandths of value-per-second over a window:
/// `total * 1000 / window_secs`, saturated at `u64::MAX`.
pub open spec fn speed_millis_spec(total: u64, window_secs: u64) -> u64
    recommends window_secs >= 1,
{
    let s = (total * 1000) / (window_secs as int);
    if s > u64::MAX { u64::MAX } else { s as u64 }
}

pub fn scale_difficulty(d: u64, g_num: u64) -> (r: u64)
    ensures
        r == scale_spec(d, g_num),
{
    proof {
        assert((d as int) * (g_num as int) <= (u64::MAX as int) * (u64::MAX as int))
            by (nonlinear_arith)
            requires d <= u64::MAX && g_num <= u64::MAX;
    }
    let wide: u128 = (d as u128) * (g_num as u128) / (MODIFIER_DENOM as u128);
    if wide > (u64::MAX as u128) {
        u64::MAX
    } else {
        wide as u64
    }
}

pub fn target_of(d: u64) -> (r: u64)
    requires
        d >= 1,
    ensures
        r == target_spec(d),
{
    u64::MAX / d
}

pub fn vardiff_difficulty(total: u64) -> (r: u64)
    ensures
        r == vardiff_spec(total),
        r >= 1,
{
    let t: u128 = (total as u128) * 20 / 120;
    if t > (u64::MAX as u128) {
        u64::MAX
    } else if t < 1 {
        1
    } else {
        t as u64
    }
}

pub fn modifier_numerator(total: u64) -> (r: u64)
    ensures
        r == modifier_spec(total),
        r >= MODIFIER_DENOM,
{
    if total < MODIFIER_DENOM {
        MODIFIER_DENOM
    } else {
        total
    }
}

pub fn pplns_n(target: u64) -> (r: u64)
    requires
        target >= 1,
    ensures
        r == pplns_spec(target),
{
    let n: u128 = ((u64::MAX / target) as u128) * 5;
    if n > (u64::MAX as u128) {
        u64::MAX
    } else {
        n as u64
    }
}

pub fn speed_millis(total: u64, window_secs: u64) -> (r: u64)
    requires
        window_secs >= 1,
    ensures
        r == speed_millis_spec(total, window_secs),
{
    let s: u128 = (total as u128) * 1000 / (window_secs as u128);
    if s > (u64::MAX as u128) {
        u64::MAX
    } else {
        s as u64
    }
}

/// Scaling by a modifier that is at least one never shrinks a difficulty,
/// so a scaled difficulty stays positive and the target division is safe.
pub proof fn lemma_scale_at_least(d: u64, g_num: u64)
    requires
        g_num >= MODIFIER_DENOM,
    ensures
        scale_spec(d, g_num) >= d,
{
    assert((d as int) * (g_num as int) >= (d as int) * (MODIFIER_DENOM as int))
        by (nonlinear_arith)
        requires g_num >= MODIFIER_DENOM && d >= 0;
    assert((d as int) * (MODIFIER_DENOM as int) / (MODIFIER_DENOM as int) == d as int)
        by (nonlinear_arith);
    vstd::arithmetic::div_mod::lemma_div_is_ordered(
        (d as int) * (MODIFIER_DENOM as int),
        (d as int) * (g_num as int),
        MODIFIER_DENOM as int,
    );
}

}
