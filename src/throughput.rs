use vstd::prelude::*;

use crate::units::{byte_label, bytes_with_unit};

verus! {

/// Length of one measuring window, in milliseconds.
pub const WINDOW_MS: i64 = 1000;

/// Relies on chrono's `From<SystemTime> for DateTime<Utc>` and
/// `DateTime::timestamp_millis`: the current wall-clock time as milliseconds
/// since the Unix epoch, negative for a clock set before it. Nothing is
/// promised of the value.
#[verifier::external_body]
fn now_millis() -> (r: i64) {
    chrono::DateTime::<chrono::Utc>::from(std::time::SystemTime::now()).timestamp_millis()
}

/// Folds size events from every worker into one rate: bytes gathered since
/// the current window opened, published once a whole second has passed.
#[derive(Clone, Copy, Debug, PartialEq, Eq, Structural)]
pub struct ThroughputAggregator {
    pub window_start_ms: i64,
    pub accumulated: u64,
}

/// Whether at least one second has passed since the window opened.
pub open spec fn window_elapsed(start: i64, now: i64) -> bool {
    now - start >= WINDOW_MS
}

/// The rate over a window, in bytes per second: the bytes gathered divided
/// by the time that has passed, counted in milliseconds.
pub open spec fn rate_of(bytes: u64, start: i64, now: i64) -> u64 {
    (bytes as int * (WINDOW_MS as int) / (now - start)) as u64
}

/// The bytes of a window after `bytes` more, held at `u64::MAX`.
pub open spec fn add_bytes(acc: u64, bytes: u64) -> u64 {
    if acc + bytes > u64::MAX { u64::MAX } else { (acc + bytes) as u64 }
}

/// A timer tick at `now`: publish and reopen the window if a second has
/// passed, else leave everything as it is.
pub open spec fn ticked(a: ThroughputAggregator, now: i64) -> (ThroughputAggregator, Option<u64>) {
    if window_elapsed(a.window_start_ms, now) {
        (
            ThroughputAggregator { window_start_ms: now, accumulated: 0 },
            Some(rate_of(a.accumulated, a.window_start_ms, now)),
        )
    } else {
        (a, None)
    }
}

/// A size event of `bytes` at `now`: gather them, then behave as a tick.
pub open spec fn recorded(a: ThroughputAggregator, bytes: u64, now: i64) -> (ThroughputAggregator, Option<u64>) {
    ticked(ThroughputAggregator { accumulated: add_bytes(a.accumulated, bytes), ..a }, now)
}

impl ThroughputAggregator {
    /// An empty window opened at `now`.
    pub fn new_at(now: i64) -> (r: Self)
        ensures
            r.window_start_ms == now,
            r.accumulated == 0,
    {
        ThroughputAggregator { window_start_ms: now, accumulated: 0 }
    }

    /// An empty window opened at the current time.
    pub fn new() -> (r: Self)
        ensures
            r.accumulated == 0,
    {
        Self::new_at(now_millis())
    }

    /// A timer tick at `now`; gives the rate to publish when the window has
    /// lasted a second (zero when no bytes came), and nothing otherwise.
    pub fn tick_at(&mut self, now: i64) -> (r: Option<u64>)
        ensures
            (*final(self), r) == ticked(*old(self), now),
    {
        let start = self.window_start_ms;
        if (now as i128) - (start as i128) >= WINDOW_MS as i128 {
            let elapsed: u128 = ((now as i128) - (start as i128)) as u128;
            let scaled: u128 = self.accumulated as u128 * (WINDOW_MS as u128);
            let quotient: u128 = scaled / elapsed;
            assert(quotient <= self.accumulated) by (nonlinear_arith)
                requires
                    elapsed >= 1000,
                    scaled == self.accumulated * 1000,
                    quotient == scaled / elapsed,
            ;
            let rate = quotient as u64;
            assert(rate == rate_of(self.accumulated, start, now));
            self.window_start_ms = now;
            self.accumulated = 0;
            Some(rate)
        } else {
            None
        }
    }

    /// A size event of `bytes` at `now`: the bytes join the window, and the
    /// rate is published when the window has lasted a second.
    pub fn record_at(&mut self, bytes: u64, now: i64) -> (r: Option<u64>)
        ensures
            (*final(self), r) == recorded(*old(self), bytes, now),
    {
        self.accumulated = self.accumulated.saturating_add(bytes);
        self.tick_at(now)
    }

    /// A timer tick at the current time. Whatever time the clock gave, the
    /// aggregator moved as a tick at that time does.
    pub fn tick(&mut self) -> (r: Option<u64>)
        ensures
            exists|now: i64| (*final(self), r) == ticked(*old(self), now),
    {
        let now = now_millis();
        self.tick_at(now)
    }

    /// A size event of `bytes` at the current time. Whatever time the clock
    /// gave, the aggregator moved as an event at that time does.
    pub fn record(&mut self, bytes: u64) -> (r: Option<u64>)
        ensures
            exists|now: i64| (*final(self), r) == recorded(*old(self), bytes, now),
    {
        let now = now_millis();
        self.record_at(bytes, now)
    }
}

/// A published rate as shown to the operator: the scaled value, its unit,
/// and `/s`.
pub fn throughput_label(rate: u64) -> (r: String)
    ensures
        r@ == byte_label(rate as nat) + "/s"@,
{
    let mut s = bytes_with_unit(rate);
    proof {
        reveal_strlit("/s");
    }
    s.append("/s");
    s
}

/// Zero floor: a window in which no bytes arrived publishes a rate of zero
/// at the first tick a second or more after it opened, and the tick returns
/// at once whether or not a second has passed.
pub proof fn lemma_idle_window_publishes_zero(a: ThroughputAggregator, now: i64)
    requires
        a.accumulated == 0,
    ensures
        window_elapsed(a.window_start_ms, now) ==> ticked(a, now).1 == Some(0u64),
        !window_elapsed(a.window_start_ms, now) ==> ticked(a, now) == (a, None::<u64>),
        window_elapsed(a.window_start_ms, now) ==> ticked(a, now).0.accumulated == 0,
{
    if window_elapsed(a.window_start_ms, now) {
        let elapsed = now - a.window_start_ms;
        assert(0int * (WINDOW_MS as int) / elapsed == 0) by (nonlinear_arith)
            requires
                elapsed >= 1000,
        ;
    }
}

} // verus!
