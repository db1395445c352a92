//! A start/stop timer over the system's monotonic clock.

use vstd::prelude::*;

verus! {

/// The standard library's monotonic instant, opaque to the verifier; only
/// the trusted wrappers below touch it.
#[verifier::external_type_specification]
#[verifier::external_body]
pub struct ExInstant(std::time::Instant);

/// Relies on std::time::Instant::now: a fresh reading of the monotonic
/// clock. Nothing can be promised of a clock reading.
#[verifier::external_body]
fn instant_now() -> std::time::Instant {
    std::time::Instant::now()
}

/// Relies on std::time::Instant::elapsed and Duration::as_millis: the
/// whole milliseconds since `start`, narrowed to 64 bits. Nothing can be
/// promised of a clock reading.
#[verifier::external_body]
fn elapsed_ms(start: &std::time::Instant) -> u64 {
    start.elapsed().as_millis() as u64
}

/// A timer that measures one span at a time: started, stopped (recording
/// the elapsed milliseconds), and reset to zero.
#[derive(Debug)]
pub struct Timer {
    pub running: bool,
    pub time: u64,
    pub now: std::time::Instant,
}

impl Timer {
    /// A stopped timer holding zero.
    pub fn new() -> (r: Timer)
        ensures
            !r.running,
            r.time == 0,
    {
        Timer { time: 0, running: false, now: instant_now() }
    }

    /// Start the clock from this moment; the recorded time is untouched.
    pub fn start(&mut self)
        ensures
            final(self).running,
            final(self).time == old(self).time,
    {
        self.now = instant_now();
        self.running = true;
    }

    /// Stop the clock, record the milliseconds since it started, and
    /// return them. What the clock read cannot be promised.
    pub fn stop(&mut self) -> (r: u64)
        ensures
            !final(self).running,
            final(self).time == r,
    {
        self.running = false;
        self.time = elapsed_ms(&self.now);
        self.time
    }

    /// Clear the recorded time; whether the clock runs is unchanged.
    pub fn reset(&mut self)
        ensures
            final(self).time == 0,
            final(self).running == old(self).running,
    {
        self.time = 0;
    }

    /// The milliseconds on the timer: a live reading while running, the
    /// recorded time while stopped.
    pub fn get_time(&self) -> (r: u64)
        ensures
            !self.running ==> r == self.time,
    {
        if self.running {
            elapsed_ms(&self.now)
        } else {
            self.time
        }
    }
}

} // verus!
