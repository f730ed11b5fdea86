use proctime::{
    build_timer_result, CommandOutputPolicy, CustomMetric, ExitInfo, HarnessError, ReapOutcome,
};

#[test]
fn output_policy_decides_capture() {
    assert!(CommandOutputPolicy::Report.wants_capture());
    assert!(!CommandOutputPolicy::Discard.wants_capture());
}

#[test]
fn exit_code_fidelity() {
    // A child exiting with code 7 yields Some(7); a signaled child yields
    // no exit code at all.
    assert_eq!(ExitInfo::Code(7).code(), Some(7));
    assert_eq!(ExitInfo::Code(0).code(), Some(0));
    assert_eq!(ExitInfo::Signal(9).code(), None);
    assert_eq!(ExitInfo::Unknown.code(), None);
    assert!(ExitInfo::Code(0).success());
    assert!(!ExitInfo::Code(7).success());
    assert!(!ExitInfo::Signal(15).success());
}

#[test]
fn build_with_captured_metric() {
    let captured: Vec<u8> = b" 42.5\n".to_vec();
    let r = build_timer_result(
        1_000_000,
        2_000,
        3_000,
        ReapOutcome::Plain(ExitInfo::Code(0)),
        Some(&captured),
    );
    assert_eq!(r.time_real, 1_000_000);
    assert_eq!(r.time_user, 2_000);
    assert_eq!(r.time_system, 3_000);
    assert_eq!(r.status, ExitInfo::Code(0));
    assert_eq!(r.custom_metric, CustomMetric { negative: false, mantissa: 425, scale: 1 });
    assert_eq!(r.mem_usage, None);
}

#[test]
fn build_without_capture_has_zero_metric() {
    let r = build_timer_result(10, 0, 0, ReapOutcome::Plain(ExitInfo::Signal(9)), None);
    assert_eq!(r.custom_metric, CustomMetric { negative: false, mantissa: 0, scale: 0 });
    // A signaled child is not an error: the invocation still completes.
    assert_eq!(r.status, ExitInfo::Signal(9));
    assert_eq!(r.status.code(), None);
}

#[test]
fn build_with_unparsable_capture_has_zero_metric_and_no_error() {
    let captured: Vec<u8> = b"not-a-number".to_vec();
    let r = build_timer_result(10, 1, 2, ReapOutcome::Plain(ExitInfo::Code(0)), Some(&captured));
    assert_eq!(r.custom_metric, CustomMetric { negative: false, mantissa: 0, scale: 0 });
}

#[test]
fn memory_present_exactly_when_collected() {
    let with = build_timer_result(5, 1, 1, ReapOutcome::WithUsage(ExitInfo::Code(0), 4096), None);
    assert_eq!(with.mem_usage, Some(4096));
    let without = build_timer_result(5, 1, 1, ReapOutcome::Plain(ExitInfo::Code(0)), None);
    assert_eq!(without.mem_usage, None);
}

#[test]
fn harness_error_kinds_are_distinguishable() {
    assert_ne!(HarnessError::Spawn(2), HarnessError::Timer(2));
    assert_ne!(HarnessError::Timer(2), HarnessError::Reap(2));
    assert_ne!(HarnessError::Reap(2), HarnessError::Output(2));
    assert_eq!(HarnessError::Spawn(2), HarnessError::Spawn(2));
}
