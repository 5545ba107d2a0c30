//! Measuring elapsed wall-clock time.
use vstd::prelude::*;
use std::time::{Duration, Instant};
use std::sync::Arc;
use std::sync::atomic::{AtomicBool, Ordering};

verus! {

#[verifier::external_type_specification]
#[verifier::external_body]
pub struct ExInstant(Instant);

/// `Instant::now`: the current reading of the monotonic clock. Nothing is
/// stated of it: it depends on the time of the call.
#[verifier::external_body]
fn instant_now() -> Instant {
    Instant::now()
}

/// `Instant::duration_since`: the time from `earlier` to `later`, zero when
/// `earlier` is the later one. Nothing is stated: the two readings are opaque.
#[verifier::external_body]
fn duration_since(later: &Instant, earlier: &Instant) -> Duration {
    later.duration_since(*earlier)
}

/// `Duration::as_millis`: the whole milliseconds of the duration. Nothing is
/// stated: the duration is opaque here.
#[verifier::external_body]
fn duration_as_millis(duration: &Duration) -> u128 {
    duration.as_millis()
}

/// A stopwatch started when it is made.
pub struct Timer {
    start_time: Instant,
}

impl Timer {
    /// Starts a stopwatch at the current time.
    pub fn new() -> (r: Timer) {
        Timer { start_time: instant_now() }
    }

    /// Milliseconds since the stopwatch was started.
    pub fn get_time_passed_millis(&self) -> (r: u128) {
        let now = instant_now();
        let passed = duration_since(&now, &self.start_time);
        duration_as_millis(&passed)
    }
}

/// When a search must stop: a flag that anyone may raise, and a time limit
/// counted from the last restart. It records whether a check ever found
/// that the search must stop; only a check can record that.
pub struct StopSignal {
    flag: Arc<AtomicBool>,
    timer: Timer,
    stop_time: Option<u128>,
    seen: Ghost<bool>,
}

impl StopSignal {
    /// A check since the last restart found that the search must stop.
    pub closed spec fn seen(&self) -> bool {
        self.seen@
    }

    /// The time limit, in milliseconds from the last restart.
    pub closed spec fn limit(&self) -> Option<u128> {
        self.stop_time
    }

    /// A signal on the given flag, without time limit.
    pub fn new(flag: Arc<AtomicBool>) -> (r: StopSignal)
        ensures
            !r.seen(),
            r.limit() is None,
    {
        StopSignal { flag, timer: Timer::new(), stop_time: None, seen: Ghost(false) }
    }

    /// A signal on the given flag with the given time limit, counted from now.
    pub fn new_with_limit(flag: Arc<AtomicBool>, stop_time: Option<u128>) -> (r: StopSignal)
        ensures
            !r.seen(),
            r.limit() == stop_time,
    {
        StopSignal { flag, timer: Timer::new(), stop_time, seen: Ghost(false) }
    }

    /// Whether the flag is raised or the time limit has passed; a stop
    /// found is recorded.
    pub fn check(&mut self) -> (r: bool)
        ensures
            final(self).seen() == (old(self).seen() || r),
            final(self).limit() == old(self).limit(),
    {
        let stop = if self.flag.load(Ordering::Relaxed) {
            true
        } else {
            match self.stop_time {
                Some(limit) => self.timer.get_time_passed_millis() >= limit,
                None => false,
            }
        };
        if stop {
            self.seen = Ghost(true);
        }
        stop
    }

    /// Lowers the flag, restarts the clock and sets the time limit.
    pub fn restart(&mut self, stop_time: Option<u128>)
        ensures
            !final(self).seen(),
            final(self).limit() == stop_time,
    {
        self.flag.store(false, Ordering::Relaxed);
        self.timer = Timer::new();
        self.stop_time = stop_time;
        self.seen = Ghost(false);
    }

    /// Raises the flag.
    pub fn raise(&self) {
        self.flag.store(true, Ordering::Relaxed);
    }

    /// The flag, to be raised from elsewhere.
    pub fn flag(&self) -> Arc<AtomicBool> {
        self.flag.clone()
    }

    /// The time limit, in milliseconds from the last restart.
    pub fn stop_time(&self) -> (r: Option<u128>)
        ensures
            r == self.limit(),
    {
        self.stop_time
    }

    /// Milliseconds since the last restart.
    pub fn time_passed_millis(&self) -> u128 {
        self.timer.get_time_passed_millis()
    }
}

} // verus!
