//! Sliding-window rate estimator.
//!
//! A speedometer records `(timestamp, value)` events and answers with the
//! value mass of the events that are still inside its window.  Events
//! older than the window are excluded from every answer and pruned on the
//! next event.  Time is supplied by the caller as milliseconds, so the
//! estimator itself is a pure data structure.

use vstd::prelude::*;
use vstd::seq_lib::*;

verus! {

pub struct Speedometer {
    pub window_secs: u64,
    pub entries: Vec<(u64, u64)>,
}

pub struct SpeedometerView {
    pub window_secs: u64,
    pub entries: Seq<(u64, u64)>,
}

impl View for Speedometer {
    type V = SpeedometerView;

    open spec fn view(&self) -> SpeedometerView {
        SpeedometerView { window_secs: self.window_secs, entries: self.entries@ }
    }
}

pub open spec fn sat_add_spec(a: u64, b: u64) -> u64 {
    if a + b > u64::MAX { u64::MAX } else { (a + b) as u64 }
}

/// Saturating value mass of the events whose timestamp is still inside
/// the window ending at `now`.
pub open spec fn window_mass(entries: Seq<(u64, u64)>, now: u64, window_ms: int) -> u64
    decreases entries.len(),
{
    if entries.len() == 0 {
        0u64
    } else {
        let rest = window_mass(entries.drop_last(), now, window_ms);
        let e = entries.last();
        if e.0 + window_ms > now { sat_add_spec(rest, e.1) } else { rest }
    }
}

/// The events still inside the window ending at `now`.
pub open spec fn kept_entries(entries: Seq<(u64, u64)>, now: u64, window_ms: int) -> Seq<(u64, u64)> {
    entries.filter(|e: (u64, u64)| e.0 + window_ms > now)
}

impl SpeedometerView {
    pub open spec fn wf(self) -> bool {
        1 <= self.window_secs <= 3600
    }

    pub open spec fn window_ms(self) -> int {
        self.window_secs * 1000
    }

    pub open spec fn mass(self, now: u64) -> u64 {
        window_mass(self.entries, now, self.window_ms())
    }
}

/// The estimator after one event: stale entries pruned, the event appended.
pub open spec fn spec_event(v: SpeedometerView, now_ms: u64, value: u64) -> SpeedometerView {
    SpeedometerView {
        window_secs: v.window_secs,
        entries: kept_entries(v.entries, now_ms, v.window_ms()).push((now_ms, value)),
    }
}

/// Pruning keeps the window mass: entries outside the window contribute
/// nothing.
pub proof fn lemma_mass_filter(entries: Seq<(u64, u64)>, now: u64, window_ms: int)
    ensures
        window_mass(kept_entries(entries, now, window_ms), now, window_ms)
            == window_mass(entries, now, window_ms),
    decreases entries.len(),
{
    reveal(Seq::filter);
    if entries.len() == 0 {
        assert(kept_entries(entries, now, window_ms) =~= entries);
    } else {
        let sub = entries.drop_last();
        lemma_mass_filter(sub, now, window_ms);
        let e = entries.last();
        if e.0 + window_ms > now {
            let f = kept_entries(sub, now, window_ms).push(e);
            assert(kept_entries(entries, now, window_ms) == f);
            assert(f.drop_last() =~= kept_entries(sub, now, window_ms));
            assert(f.last() == e);
        } else {
            assert(kept_entries(entries, now, window_ms) == kept_entries(sub, now, window_ms));
        }
    }
}

/// Appending an event inside the window adds its value to the mass.
pub proof fn lemma_mass_push(entries: Seq<(u64, u64)>, now: u64, window_ms: int, e: (u64, u64))
    ensures
        window_mass(entries.push(e), now, window_ms)
            == if e.0 + window_ms > now {
                sat_add_spec(window_mass(entries, now, window_ms), e.1)
            } else {
                window_mass(entries, now, window_ms)
            },
{
    assert(entries.push(e).drop_last() =~= entries);
    assert(entries.push(e).last() == e);
}

pub fn sat_add(a: u64, b: u64) -> (r: u64)
    ensures
        r == sat_add_spec(a, b),
{
    if b > u64::MAX - a {
        u64::MAX
    } else {
        a + b
    }
}

impl Speedometer {
    pub fn init(window_secs: u64) -> (r: Self)
        requires
            1 <= window_secs <= 3600,
        ensures
            r@.wf(),
            r@.window_secs == window_secs,
            r@.entries =~= Seq::<(u64, u64)>::empty(),
    {
        Speedometer { window_secs, entries: Vec::new() }
    }

    /// Record a value at the given time, pruning entries that have left
    /// the window.
    pub fn event(&mut self, now_ms: u64, value: u64)
        requires
            old(self)@.wf(),
        ensures
            final(self)@ == spec_event(old(self)@, now_ms, value),
            final(self)@.wf(),
    {
        let window_ms: u64 = self.window_secs * 1000;
        let ghost wms: int = self@.window_ms();
        let ghost pred = |e: (u64, u64)| e.0 + wms > now_ms;
        let mut kept: Vec<(u64, u64)> = Vec::new();
        let n = self.entries.len();
        let mut i: usize = 0;
        proof {
            reveal(Seq::filter);
            assert(self.entries@.take(0).filter(pred) =~= Seq::<(u64, u64)>::empty());
        }
        while i < n
            invariant
                i <= n,
                n == self.entries.len(),
                window_ms == wms,
                wms == self@.window_ms(),
                self@.wf(),
                pred == (|e: (u64, u64)| e.0 + wms > now_ms),
                kept@ == self.entries@.take(i as int).filter(pred),
            decreases n - i,
        {
            let e = self.entries[i];
            proof {
                reveal(Seq::filter);
                let t = self.entries@.take(i + 1);
                assert(t.drop_last() =~= self.entries@.take(i as int));
                assert(t.last() == e);
            }
            if (e.0 as u128) + (window_ms as u128) > (now_ms as u128) {
                kept.push(e);
            }
            i += 1;
        }
        proof {
            assert(self.entries@.take(n as int) =~= self.entries@);
        }
        kept.push((now_ms, value));
        self.entries = kept;
    }

    /// The value mass currently inside the window.
    pub fn mass_now(&self, now_ms: u64) -> (r: u64)
        requires
            self@.wf(),
        ensures
            r == self@.mass(now_ms),
    {
        let window_ms: u64 = self.window_secs * 1000;
        let n = self.entries.len();
        let mut total: u64 = 0;
        let mut i: usize = 0;
        proof {
            assert(window_mass(self.entries@.take(0), now_ms, self@.window_ms()) == 0);
        }
        while i < n
            invariant
                i <= n,
                n == self.entries.len(),
                window_ms == self@.window_ms(),
                self@.wf(),
                total == window_mass(self.entries@.take(i as int), now_ms, self@.window_ms()),
            decreases n - i,
        {
            let e = self.entries[i];
            proof {
                let t = self.entries@.take(i + 1);
                assert(t.drop_last() =~= self.entries@.take(i as int));
                assert(t.last() == e);
            }
            if (e.0 as u128) + (window_ms as u128) > (now_ms as u128) {
                total = sat_add(total, e.1);
            }
            i += 1;
        }
        proof {
            assert(self.entries@.take(n as int) =~= self.entries@);
        }
        total
    }

    /// Reported speed in thousandths of value-per-second.
    pub fn speed_millis_now(&self, now_ms: u64) -> (r: u64)
        requires
            self@.wf(),
        ensures
            r == crate::difficulty::speed_millis_spec(self@.mass(now_ms), self@.window_secs),
    {
        let total = self.mass_now(now_ms);
        crate::difficulty::speed_millis(total, self.window_secs)
    }
}

}
