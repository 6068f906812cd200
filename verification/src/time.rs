//! A stopwatch on the machine's monotonic clock.

use std::time::{Duration, Instant};
use vstd::prelude::*;

verus! {

/// `std::time::Instant`, taken as opaque.
#[verifier::external_type_specification]
#[verifier::external_body]
pub struct ExInstant(Instant);

/// `Instant::now`: the present moment. Nothing is claimed of it.
#[verifier::external_body]
fn now() -> (r: Instant) {
    Instant::now()
}

/// `Instant::duration_since`: the time from `earlier` to `later`. Nothing
/// is claimed of it.
#[verifier::external_body]
fn duration_between(later: &Instant, earlier: &Instant) -> (r: Duration) {
    later.duration_since(*earlier)
}

/// `Duration::as_millis`: the whole milliseconds in `duration`. Nothing is
/// claimed of their number.
#[verifier::external_body]
fn whole_millis(duration: &Duration) -> (r: u128) {
    duration.as_millis()
}

/// The low sixty-four bits of a count of milliseconds.
pub open spec fn low_bits(millis: u128) -> u64 {
    (millis % 0x1_0000_0000_0000_0000) as u64
}

/// Keeps the low sixty-four bits of a count of milliseconds.
pub fn truncate_millis(millis: u128) -> (r: u64)
    ensures
        r == low_bits(millis),
        millis <= u64::MAX ==> r == millis,
{
    (millis % 0x1_0000_0000_0000_0000) as u64
}

/// Measures time from the moment it was made.
pub struct Timer {
    start: Instant,
}

impl Default for Timer {
    fn default() -> (r: Self) {
        Self { start: now() }
    }
}

impl Timer {
    /// The milliseconds since the timer was made, as the clock tells them.
    pub fn elapsed(&self) -> (r: u64) {
        let present = now();
        let passed = duration_between(&present, &self.start);
        truncate_millis(whole_millis(&passed))
    }
}

} // verus!
