//! Per-connection mining state: the claimed prover address, five
//! sliding-window speed estimators and the vardiff difficulty pair.
//!
//! `next_difficulty` is recomputed from the two-minute window after every
//! accepted share; `current_difficulty` advances to it only when a new
//! job is sent, so the difficulty a prover is validated against is always
//! the one it was last told.
//!
//! Peers and addresses are identified by opaque integer tokens assigned
//! by the transport layer; the engine only ever compares them.

use vstd::prelude::*;
use crate::difficulty::{speed_millis_spec, vardiff_spec, speed_millis, vardiff_difficulty};
use crate::speedometer::{Speedometer, SpeedometerView, spec_event};

verus! {

pub struct ProverState {
    pub peer: u64,
    pub address: u64,
    pub speed_2m: Speedometer,
    pub speed_5m: Speedometer,
    pub speed_15m: Speedometer,
    pub speed_30m: Speedometer,
    pub speed_1h: Speedometer,
    pub current_difficulty: u64,
    pub next_difficulty: u64,
}

pub struct ProverView {
    pub peer: u64,
    pub address: u64,
    pub s2m: SpeedometerView,
    pub s5m: SpeedometerView,
    pub s15m: SpeedometerView,
    pub s30m: SpeedometerView,
    pub s1h: SpeedometerView,
    pub current_difficulty: u64,
    pub next_difficulty: u64,
}

impl View for ProverState {
    type V = ProverView;

    open spec fn view(&self) -> ProverView {
        ProverView {
            peer: self.peer,
            address: self.address,
            s2m: self.speed_2m@,
            s5m: self.speed_5m@,
            s15m: self.speed_15m@,
            s30m: self.speed_30m@,
            s1h: self.speed_1h@,
            current_difficulty: self.current_difficulty,
            next_difficulty: self.next_difficulty,
        }
    }
}

impl ProverView {
    pub open spec fn wf(self) -> bool {
        &&& self.s2m.window_secs == 120
        &&& self.s5m.window_secs == 300
        &&& self.s15m.window_secs == 900
        &&& self.s30m.window_secs == 1800
        &&& self.s1h.window_secs == 3600
        &&& self.current_difficulty >= 1
        &&& self.next_difficulty >= 1
    }
}

/// A freshly authenticated prover: empty windows, both difficulties 1.
pub open spec fn spec_new_prover(peer: u64, address: u64) -> ProverView {
    ProverView {
        peer,
        address,
        s2m: SpeedometerView { window_secs: 120, entries: Seq::empty() },
        s5m: SpeedometerView { window_secs: 300, entries: Seq::empty() },
        s15m: SpeedometerView { window_secs: 900, entries: Seq::empty() },
        s30m: SpeedometerView { window_secs: 1800, entries: Seq::empty() },
        s1h: SpeedometerView { window_secs: 3600, entries: Seq::empty() },
        current_difficulty: 1,
        next_difficulty: 1,
    }
}

/// The state after an accepted share of the given value: every window
/// records the event, and the pending difficulty is recomputed from the
/// two-minute window.
pub open spec fn spec_add_share(v: ProverView, now_ms: u64, value: u64) -> ProverView {
    let s2 = spec_event(v.s2m, now_ms, value);
    ProverView {
        peer: v.peer,
        address: v.address,
        s2m: s2,
        s5m: spec_event(v.s5m, now_ms, value),
        s15m: spec_event(v.s15m, now_ms, value),
        s30m: spec_event(v.s30m, now_ms, value),
        s1h: spec_event(v.s1h, now_ms, value),
        current_difficulty: v.current_difficulty,
        next_difficulty: vardiff_spec(s2.mass(now_ms)),
    }
}

/// The state after a job was sent: the pending difficulty is promoted.
pub open spec fn spec_promote(v: ProverView) -> ProverView {
    ProverView {
        peer: v.peer,
        address: v.address,
        s2m: v.s2m,
        s5m: v.s5m,
        s15m: v.s15m,
        s30m: v.s30m,
        s1h: v.s1h,
        current_difficulty: v.next_difficulty,
        next_difficulty: v.next_difficulty,
    }
}

impl ProverState {
    pub fn new(peer: u64, address: u64) -> (r: Self)
        ensures
            r@ == spec_new_prover(peer, address),
            r@.wf(),
    {
        let r = ProverState {
            peer,
            address,
            speed_2m: Speedometer::init(120),
            speed_5m: Speedometer::init(300),
            speed_15m: Speedometer::init(900),
            speed_30m: Speedometer::init(1800),
            speed_1h: Speedometer::init(3600),
            current_difficulty: 1,
            next_difficulty: 1,
        };
        proof {
            assert(r@.s2m.entries =~= Seq::<(u64, u64)>::empty());
            assert(r@ == spec_new_prover(peer, address));
        }
        r
    }

    /// Credit an accepted share and recompute the pending difficulty,
    /// which is never below 1.
    pub fn add_share(&mut self, now_ms: u64, value: u64)
        requires
            old(self)@.wf(),
        ensures
            final(self)@ == spec_add_share(old(self)@, now_ms, value),
            final(self)@.wf(),
            final(self)@.next_difficulty >= 1,
    {
        self.speed_2m.event(now_ms, value);
        self.speed_5m.event(now_ms, value);
        self.speed_15m.event(now_ms, value);
        self.speed_30m.event(now_ms, value);
        self.speed_1h.event(now_ms, value);
        let total = self.speed_2m.mass_now(now_ms);
        self.next_difficulty = vardiff_difficulty(total);
    }

    /// Promote the pending difficulty to the one the prover will now be
    /// told, and return it.
    pub fn next_difficulty(&mut self) -> (r: u64)
        requires
            old(self)@.wf(),
        ensures
            final(self)@ == spec_promote(old(self)@),
            final(self)@.wf(),
            r == old(self)@.next_difficulty,
    {
        self.current_difficulty = self.next_difficulty;
        self.current_difficulty
    }

    pub fn current_difficulty(&self) -> (r: u64)
        ensures
            r == self@.current_difficulty,
    {
        self.current_difficulty
    }

    pub fn address(&self) -> (r: u64)
        ensures
            r == self@.address,
    {
        self.address
    }

    /// Reported speeds (thousandths of value-per-second) of the four
    /// reporting windows: 5m, 15m, 30m, 1h.
    pub fn speed(&self, now_ms: u64) -> (r: Vec<u64>)
        requires
            self@.wf(),
        ensures
            r@.len() == 4,
            r@[0] == speed_millis_spec(self@.s5m.mass(now_ms), 300),
            r@[1] == speed_millis_spec(self@.s15m.mass(now_ms), 900),
            r@[2] == speed_millis_spec(self@.s30m.mass(now_ms), 1800),
            r@[3] == speed_millis_spec(self@.s1h.mass(now_ms), 3600),
    {
        let mut r: Vec<u64> = Vec::new();
        r.push(self.speed_5m.speed_millis_now(now_ms));
        r.push(self.speed_15m.speed_millis_now(now_ms));
        r.push(self.speed_30m.speed_millis_now(now_ms));
        r.push(self.speed_1h.speed_millis_now(now_ms));
        r
    }
}

}
