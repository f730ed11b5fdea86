use proctime::units::{cpu_delta_nanos, nanos_from_parts, usage_micros};

#[test]
fn nanos_from_parts_exact() {
    assert_eq!(nanos_from_parts(0, 0), 0);
    assert_eq!(nanos_from_parts(1, 500_000_000), 1_500_000_000);
    assert_eq!(nanos_from_parts(2, 1), 2_000_000_001);
}

#[test]
fn nanos_from_parts_saturates() {
    // 2^64 nanoseconds do not fit; the count saturates.
    assert_eq!(nanos_from_parts(u64::MAX, 999_999_999), u64::MAX);
    assert_eq!(nanos_from_parts(18_446_744_074, 0), u64::MAX);
}

#[test]
fn usage_micros_exact_and_clamped() {
    assert_eq!(usage_micros(1, 250_000), 1_250_000);
    assert_eq!(usage_micros(0, 0), 0);
    // A negative seconds or microseconds field is clamped to zero.
    assert_eq!(usage_micros(-5, 0), 0);
    assert_eq!(usage_micros(0, -3), 0);
    // An out-of-range microseconds field is clamped below one second.
    assert_eq!(usage_micros(0, 2_000_000), 999_999);
}

#[test]
fn cpu_delta_nanos_diffs() {
    assert_eq!(cpu_delta_nanos(100, 350), 250_000);
    // A counter that appears to go backwards counts as no advance.
    assert_eq!(cpu_delta_nanos(350, 100), 0);
    // The conversion to nanoseconds saturates.
    assert_eq!(cpu_delta_nanos(0, u64::MAX), u64::MAX);
}
