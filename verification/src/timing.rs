//! Per-span elapsed-time bookkeeping: a timestamp captured on the first
//! enter, and the elapsed milliseconds computed on close. Re-entering an
//! already-entered span never resets the timestamp, and a span that was never
//! entered reports zero.

use vstd::prelude::*;

verus! {

/// `std::time::Instant`, opaque to the verifier: one reading of the
/// monotonic clock.
#[verifier::external_type_specification]
#[verifier::external_body]
pub struct ExInstant(std::time::Instant);

/// Relies on std::time::Instant::now: a reading of the monotonic clock.
/// Nothing is promised of its value.
#[verifier::external_body]
fn instant_now() -> std::time::Instant {
    std::time::Instant::now()
}

/// Relies on std::time::Instant::elapsed and Duration::as_millis: the whole
/// milliseconds since `start`, truncated to 64 bits. The value depends on the
/// clock, so nothing is promised of it.
#[verifier::external_body]
fn millis_since(start: &std::time::Instant) -> u64 {
    start.elapsed().as_millis() as u64
}

/// A span's timing state: the instant of its first enter, if it was ever
/// entered.
pub struct SpanTiming {
    start: Option<std::time::Instant>,
}

impl SpanTiming {
    /// Whether the span was entered at least once.
    pub closed spec fn entered(&self) -> bool {
        self.start is Some
    }

    /// The timing state of a span that was not yet entered.
    pub fn new() -> (r: Self)
        ensures
            !r.entered(),
    {
        SpanTiming { start: None }
    }

    /// On span enter: the first enter captures the clock; an enter of a span
    /// whose timestamp is already set changes nothing.
    pub fn on_enter(&mut self)
        ensures
            final(self).entered(),
            old(self).entered() ==> *final(self) == *old(self),
    {
        if self.start.is_none() {
            self.start = Some(instant_now());
        }
    }

    /// On span close: the whole milliseconds since the first enter, and zero
    /// for a span that was never entered.
    pub fn elapsed_or_zero(&self) -> (ms: u64)
        ensures
            !self.entered() ==> ms == 0,
    {
        match &self.start {
            Some(start) => millis_since(start),
            None => 0,
        }
    }
}

} // verus!
