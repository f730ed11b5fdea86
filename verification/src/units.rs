//! Time units. All durations in this library are integer counts of
//! nanoseconds or microseconds; conversions saturate at the top of `u64`
//! instead of overflowing.

use vstd::prelude::*;

verus! {

/// Nanoseconds in one second.
pub const NANOS_PER_SEC: u64 = 1_000_000_000;

/// Nanoseconds in one microsecond.
pub const NANOS_PER_MICRO: u64 = 1_000;

/// Microseconds in one second.
pub const MICROS_PER_SEC: u64 = 1_000_000;

/// The exact nanosecond count described by a whole-second part and a
/// sub-second nanosecond part.
pub open spec fn nanos_of_parts(secs: int, subsec_nanos: int) -> int {
    secs * (NANOS_PER_SEC as int) + subsec_nanos
}

/// Combine a whole-second count and a sub-second nanosecond count into one
/// nanosecond count, saturating at `u64::MAX`.
pub fn nanos_from_parts(secs: u64, subsec_nanos: u32) -> (r: u64)
    requires
        subsec_nanos < NANOS_PER_SEC,
    ensures
        r == if nanos_of_parts(secs as int, subsec_nanos as int) <= u64::MAX as int {
            nanos_of_parts(secs as int, subsec_nanos as int)
        } else {
            u64::MAX as int
        },
{
    match secs.checked_mul(NANOS_PER_SEC) {
        Some(whole) => match whole.checked_add(subsec_nanos as u64) {
            Some(total) => total,
            None => u64::MAX,
        },
        None => u64::MAX,
    }
}

/// The microsecond count that a raw `timeval`-style pair stands for, with a
/// negative seconds field clamped to zero and the microseconds field clamped
/// into `[0, 1_000_000)`; operating systems hand the fields out normalized,
/// so the clamping only shields against a hostile reading.
pub open spec fn clamped_micros(sec: int, usec: int) -> int {
    let s = if sec < 0 {
        0
    } else {
        sec
    };
    let u = if usec < 0 {
        0
    } else if usec >= MICROS_PER_SEC as int {
        (MICROS_PER_SEC - 1) as int
    } else {
        usec
    };
    s * (MICROS_PER_SEC as int) + u
}

/// Turn the raw seconds and microseconds fields of a resource-usage reading
/// into one microsecond count, saturating at `u64::MAX`.
pub fn usage_micros(sec: i64, usec: i64) -> (r: u64)
    ensures
        r == if clamped_micros(sec as int, usec as int) <= u64::MAX as int {
            clamped_micros(sec as int, usec as int)
        } else {
            u64::MAX as int
        },
{
    let s: u64 = if sec < 0 {
        0
    } else {
        sec as u64
    };
    let u: u64 = if usec < 0 {
        0
    } else if usec >= MICROS_PER_SEC as i64 {
        MICROS_PER_SEC - 1
    } else {
        usec as u64
    };
    match s.checked_mul(MICROS_PER_SEC) {
        Some(whole) => match whole.checked_add(u) {
            Some(total) => total,
            None => u64::MAX,
        },
        None => u64::MAX,
    }
}

/// How much a monotone microsecond counter advanced between two readings, in
/// nanoseconds: a reading that went backwards counts as no advance, and the
/// result saturates at `u64::MAX`.
pub open spec fn advance_nanos(before_micros: int, after_micros: int) -> int {
    let d = if after_micros >= before_micros {
        after_micros - before_micros
    } else {
        0
    };
    if d * (NANOS_PER_MICRO as int) <= u64::MAX as int {
        d * (NANOS_PER_MICRO as int)
    } else {
        u64::MAX as int
    }
}

/// Compute the nanoseconds a microsecond counter advanced between two
/// readings of it.
pub fn cpu_delta_nanos(before_micros: u64, after_micros: u64) -> (r: u64)
    ensures
        r == advance_nanos(before_micros as int, after_micros as int),
{
    let d: u64 = if after_micros >= before_micros {
        after_micros - before_micros
    } else {
        0
    };
    if d <= u64::MAX / NANOS_PER_MICRO {
        d * NANOS_PER_MICRO
    } else {
        proof {
            assert((d as int) * (NANOS_PER_MICRO as int) > u64::MAX) by (nonlinear_arith)
                requires
                    d as int > u64::MAX as int / (NANOS_PER_MICRO as int),
                    NANOS_PER_MICRO == 1_000,
            ;
        }
        u64::MAX
    }
}

} // verus!
