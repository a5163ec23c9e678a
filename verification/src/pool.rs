//! Pool-wide state: aggregate speed estimators and the global difficulty
//! modifier, a rational kept as a numerator over the fixed denominator
//! `MODIFIER_DENOM`.  The pending modifier is recomputed from the
//! one-minute window after every accepted share and promoted once per
//! new block template, in lock-step with the per-prover promotion.

use vstd::prelude::*;
use crate::difficulty::{MODIFIER_DENOM, modifier_spec, modifier_numerator, speed_millis_spec};
use crate::speedometer::{Speedometer, SpeedometerView, spec_event};

verus! {

pub struct PoolState {
    pub speed_1m: Speedometer,
    pub speed_5m: Speedometer,
    pub speed_15m: Speedometer,
    pub speed_30m: Speedometer,
    pub speed_1h: Speedometer,
    pub current_global_difficulty_modifier: u64,
    pub next_global_difficulty_modifier: u64,
}

pub struct PoolView {
    pub s1m: SpeedometerView,
    pub s5m: SpeedometerView,
    pub s15m: SpeedometerView,
    pub s30m: SpeedometerView,
    pub s1h: SpeedometerView,
    pub current_global_difficulty_modifier: u64,
    pub next_global_difficulty_modifier: u64,
}

impl View for PoolState {
    type V = PoolView;

    open spec fn view(&self) -> PoolView {
        PoolView {
            s1m: self.speed_1m@,
            s5m: self.speed_5m@,
            s15m: self.speed_15m@,
            s30m: self.speed_30m@,
            s1h: self.speed_1h@,
            current_global_difficulty_modifier: self.current_global_difficulty_modifier,
            next_global_difficulty_modifier: self.next_global_difficulty_modifier,
        }
    }
}

impl PoolView {
    pub open spec fn wf(self) -> bool {
        &&& self.s1m.window_secs == 60
        &&& self.s5m.window_secs == 300
        &&& self.s15m.window_secs == 900
        &&& self.s30m.window_secs == 1800
        &&& self.s1h.window_secs == 3600
        &&& self.current_global_difficulty_modifier >= MODIFIER_DENOM
        &&& self.next_global_difficulty_modifier >= MODIFIER_DENOM
    }
}

/// A fresh pool: empty windows, both modifiers exactly one.
pub open spec fn spec_new_pool() -> PoolView {
    PoolView {
        s1m: SpeedometerView { window_secs: 60, entries: Seq::empty() },
        s5m: SpeedometerView { window_secs: 300, entries: Seq::empty() },
        s15m: SpeedometerView { window_secs: 900, entries: Seq::empty() },
        s30m: SpeedometerView { window_secs: 1800, entries: Seq::empty() },
        s1h: SpeedometerView { window_secs: 3600, entries: Seq::empty() },
        current_global_difficulty_modifier: MODIFIER_DENOM,
        next_global_difficulty_modifier: MODIFIER_DENOM,
    }
}

/// The pool after an accepted share: every window records the event and
/// the pending modifier is recomputed from the one-minute window.
pub open spec fn spec_pool_add_share(v: PoolView, now_ms: u64, value: u64) -> PoolView {
    let s1 = spec_event(v.s1m, now_ms, value);
    PoolView {
        s1m: s1,
        s5m: spec_event(v.s5m, now_ms, value),
        s15m: spec_event(v.s15m, now_ms, value),
        s30m: spec_event(v.s30m, now_ms, value),
        s1h: spec_event(v.s1h, now_ms, value),
        current_global_difficulty_modifier: v.current_global_difficulty_modifier,
        next_global_difficulty_modifier: modifier_spec(s1.mass(now_ms)),
    }
}

/// The pool after a template rotation: the pending modifier is promoted.
pub open spec fn spec_pool_promote(v: PoolView) -> PoolView {
    PoolView {
        s1m: v.s1m,
        s5m: v.s5m,
        s15m: v.s15m,
        s30m: v.s30m,
        s1h: v.s1h,
        current_global_difficulty_modifier: v.next_global_difficulty_modifier,
        next_global_difficulty_modifier: v.next_global_difficulty_modifier,
    }
}

impl PoolState {
    pub fn new() -> (r: Self)
        ensures
            r@ == spec_new_pool(),
            r@.wf(),
    {
        let r = PoolState {
            speed_1m: Speedometer::init(60),
            speed_5m: Speedometer::init(300),
            speed_15m: Speedometer::init(900),
            speed_30m: Speedometer::init(1800),
            speed_1h: Speedometer::init(3600),
            current_global_difficulty_modifier: MODIFIER_DENOM,
            next_global_difficulty_modifier: MODIFIER_DENOM,
        };
        proof {
            assert(r@.s1m.entries =~= Seq::<(u64, u64)>::empty());
            assert(r@ == spec_new_pool());
        }
        r
    }

    /// Credit an accepted share pool-wide; the pending modifier never
    /// falls below one.
    pub fn add_share(&mut self, now_ms: u64, value: u64)
        requires
            old(self)@.wf(),
        ensures
            final(self)@ == spec_pool_add_share(old(self)@, now_ms, value),
            final(self)@.wf(),
            final(self)@.next_global_difficulty_modifier >= MODIFIER_DENOM,
    {
        self.speed_1m.event(now_ms, value);
        self.speed_5m.event(now_ms, value);
        self.speed_15m.event(now_ms, value);
        self.speed_30m.event(now_ms, value);
        self.speed_1h.event(now_ms, value);
        let total = self.speed_1m.mass_now(now_ms);
        self.next_global_difficulty_modifier = modifier_numerator(total);
    }

    /// Promote the pending modifier and return its numerator.
    pub fn next_global_difficulty_modifier(&mut self) -> (r: u64)
        requires
            old(self)@.wf(),
        ensures
            final(self)@ == spec_pool_promote(old(self)@),
            final(self)@.wf(),
            r == old(self)@.next_global_difficulty_modifier,
    {
        self.current_global_difficulty_modifier = self.next_global_difficulty_modifier;
        self.current_global_difficulty_modifier
    }

    /// Numerator of the modifier the validation path currently uses.
    pub fn current_global_difficulty_modifier(&self) -> (r: u64)
        ensures
            r == self@.current_global_difficulty_modifier,
    {
        self.current_global_difficulty_modifier
    }

    /// Reported pool speeds (thousandths of value-per-second) of the four
    /// reporting windows: 5m, 15m, 30m, 1h.
    pub fn speed(&self, now_ms: u64) -> (r: Vec<u64>)
        requires
            self@.wf(),
        ensures
            r@.len() == 4,
            r@[0] == speed_millis_spec(self@.s5m.mass(now_ms), 300),
            r@[1] == speed_millis_spec(self@.s15m.mass(now_ms), 900),
            r@[2] == speed_millis_spec(self@.s30m.mass(now_ms), 1800),
            r@[3] == speed_millis_spec(self@.s1h.mass(now_ms), 3600),
    {
        let mut r: Vec<u64> = Vec::new();
        r.push(self.speed_5m.speed_millis_now(now_ms));
        r.push(self.speed_15m.speed_millis_now(now_ms));
        r.push(self.speed_30m.speed_millis_now(now_ms));
        r.push(self.speed_1h.speed_millis_now(now_ms));
        r
    }
}

}
