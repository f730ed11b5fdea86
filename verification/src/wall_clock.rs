//! The wall-clock timer: two readings of the platform's monotonic clock,
//! and their distance as a nanosecond count. The clock readings themselves
//! are taken on trust from the standard library; the arithmetic that turns
//! them into one nanosecond count is verified in `units`.

use vstd::prelude::*;

use crate::units::nanos_from_parts;

verus! {

#[verifier::external_type_specification]
#[verifier::external_body]
pub struct ExInstant(std::time::Instant);

/// Relies on std::time::Instant::now: reads the monotonic clock.
#[verifier::external_body]
fn monotonic_now() -> std::time::Instant {
    std::time::Instant::now()
}

/// Relies on std::time::Instant::saturating_duration_since: the time between
/// the two readings, zero where the argument is the later one.
#[verifier::external_body]
fn elapsed_between(later: &std::time::Instant, earlier: &std::time::Instant) -> core::time::Duration {
    later.saturating_duration_since(*earlier)
}

/// Relies on core::time::Duration::as_secs: the whole-second part.
#[verifier::external_body]
fn duration_whole_secs(d: &core::time::Duration) -> u64 {
    d.as_secs()
}

/// Relies on core::time::Duration::subsec_nanos: the fractional part in
/// nanoseconds, documented to be below one billion.
#[verifier::external_body]
fn duration_subsec_nanos(d: &core::time::Duration) -> (r: u32)
    ensures
        r < 1_000_000_000,
{
    d.subsec_nanos()
}

/// A started wall-clock measurement: the monotonic instant at which it
/// began.
pub struct WallClockTimer {
    start: std::time::Instant,
}

impl WallClockTimer {
    /// Capture the current monotonic instant as the start of the window.
    pub fn start() -> WallClockTimer {
        WallClockTimer { start: monotonic_now() }
    }

    /// The nanoseconds of wall time since `start`, from a second reading of
    /// the monotonic clock. What the clock reports cannot be pinned down;
    /// the conversion of its reading into one count is `nanos_from_parts`.
    pub fn stop(&self) -> u64 {
        let now = monotonic_now();
        let elapsed = elapsed_between(&now, &self.start);
        let secs = duration_whole_secs(&elapsed);
        let subsec = duration_subsec_nanos(&elapsed);
        nanos_from_parts(secs, subsec)
    }
}

} // verus!
