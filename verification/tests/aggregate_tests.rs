use proctime::{BenchmarkResult, CustomMetric, ExitInfo, TimerResult};

fn result_with(time_real: u64, user: u64, system: u64, status: ExitInfo) -> TimerResult {
    TimerResult {
        time_real,
        time_user: user,
        time_system: system,
        status,
        custom_metric: CustomMetric { negative: false, mantissa: 0, scale: 0 },
        mem_usage: None,
    }
}

#[test]
fn aggregate_of_three_invocations() {
    let results = vec![
        result_with(10, 4, 2, ExitInfo::Code(0)),
        result_with(20, 6, 2, ExitInfo::Code(7)),
        result_with(60, 8, 2, ExitInfo::Signal(9)),
    ];
    let r = BenchmarkResult::from_measurements(
        "demo".to_string(),
        "demo".to_string(),
        &results,
        true,
        true,
        false,
        Vec::new(),
    );
    assert_eq!(r.command, "demo");
    assert_eq!(r.mean, 30);
    assert_eq!(r.median, 20);
    assert_eq!(r.min, 10);
    assert_eq!(r.max, 60);
    assert_eq!(r.user, 6);
    assert_eq!(r.system, 2);
    assert_eq!(r.stddev, Some(26));
    // One exit-code entry per invocation, in order, None where no normal
    // exit code exists.
    assert_eq!(r.exit_codes, vec![Some(0), Some(7), None]);
    assert_eq!(r.times, Some(vec![10, 20, 60]));
    assert!(r.custom_metrics.is_some());
    assert_eq!(r.custom_metrics.as_ref().unwrap().len(), 3);
    assert_eq!(r.mem_usage, None);
    assert!(r.parameters.is_empty());
}

#[test]
fn stddev_absent_below_two_invocations() {
    let results = vec![result_with(50, 1, 1, ExitInfo::Code(0))];
    let r = BenchmarkResult::from_measurements(
        "one".to_string(),
        "one".to_string(),
        &results,
        false,
        false,
        false,
        Vec::new(),
    );
    assert_eq!(r.stddev, None);
    assert_eq!(r.exit_codes.len(), 1);
    assert_eq!(r.times, None);
    assert!(r.custom_metrics.is_none());
    assert_eq!(r.mean, 50);
    assert_eq!(r.median, 50);
}

#[test]
fn memory_series_kept_when_collected() {
    let mut a = result_with(10, 1, 1, ExitInfo::Code(0));
    a.mem_usage = Some(2048);
    let mut b = result_with(20, 1, 1, ExitInfo::Code(0));
    b.mem_usage = Some(4096);
    let results = vec![a, b];
    let r = BenchmarkResult::from_measurements(
        "mem".to_string(),
        "mem".to_string(),
        &results,
        false,
        false,
        true,
        vec![("size".to_string(), "4k".to_string())],
    );
    assert_eq!(r.mem_usage, Some(vec![Some(2048), Some(4096)]));
    assert_eq!(r.parameters, vec![("size".to_string(), "4k".to_string())]);
    assert_eq!(r.stddev, Some(7));
}
