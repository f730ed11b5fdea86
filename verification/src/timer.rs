//! The result record of one measured invocation, the choices the caller
//! makes for it, and the errors that abort it.

use vstd::prelude::*;

use crate::exit_status::ExitInfo;
use crate::metric::{metric_of, zero_metric, CustomMetric};

verus! {

/// Why a single invocation failed. A failing child is not an error — only
/// the harness's own machinery failing is. Each variant carries the
/// operating system's error number where one was reported.
#[derive(Clone, Copy, Debug, PartialEq, Eq, Structural)]
pub enum HarnessError {
    /// The operating system refused or failed to create the child process.
    Spawn(i32),
    /// A timing primitive could not be read.
    Timer(i32),
    /// Waiting for the child or reading its resource usage failed.
    Reap(i32),
    /// Reading the child's captured standard output failed under the
    /// report policy, so no metric could be taken from it.
    Output(i32),
}

/// What to do with the child's standard output: drain and drop it, or
/// capture it as the custom-metric channel.
#[derive(Clone, Copy, Debug, PartialEq, Eq, Structural)]
pub enum CommandOutputPolicy {
    /// Stdout carries no measurement signal; drain it as cheaply as possible.
    Discard,
    /// Stdout is read fully and parsed as a custom metric.
    Report,
}

impl CommandOutputPolicy {
    /// Whether the child's standard output is the custom-metric channel and
    /// must be captured in full rather than discarded.
    pub fn wants_capture(&self) -> (r: bool)
        ensures
            r == (self matches CommandOutputPolicy::Report),
    {
        match self {
            CommandOutputPolicy::Report => true,
            CommandOutputPolicy::Discard => false,
        }
    }
}

/// How the child was reaped: a plain wait yields only how it ended, a
/// resource-usage-aware wait also yields its peak resident set size in
/// bytes.
#[derive(Clone, Copy, Debug, PartialEq, Eq, Structural)]
pub enum ReapOutcome {
    /// A plain wait: exit information only.
    Plain(ExitInfo),
    /// A resource-usage-aware wait: exit information and peak memory.
    WithUsage(ExitInfo, u64),
}

impl ReapOutcome {
    /// How the child ended.
    pub open spec fn exit_spec(self) -> ExitInfo {
        match self {
            ReapOutcome::Plain(e) => e,
            ReapOutcome::WithUsage(e, _) => e,
        }
    }

    /// The peak-memory reading, present exactly when the reap collected one.
    pub open spec fn mem_spec(self) -> Option<u64> {
        match self {
            ReapOutcome::Plain(_) => None,
            ReapOutcome::WithUsage(_, m) => Some(m),
        }
    }
}

/// The outcome of exactly one measured invocation. All times are integer
/// nanosecond counts, so every one of them is non-negative; wall time may
/// still fall short of user plus system time when the child used several
/// cores at once.
#[derive(Clone, Copy, Debug, PartialEq, Eq, Structural)]
pub struct TimerResult {
    /// Elapsed wall-clock time, in nanoseconds.
    pub time_real: u64,
    /// CPU time the child spent in user mode, in nanoseconds.
    pub time_user: u64,
    /// CPU time the child spent in kernel mode, in nanoseconds.
    pub time_system: u64,
    /// How the child ended.
    pub status: ExitInfo,
    /// The metric the child reported on stdout, or the zero metric.
    pub custom_metric: CustomMetric,
    /// Peak resident set size in bytes, when its collection was requested.
    pub mem_usage: Option<u64>,
}

/// Every completed invocation's three times are non-negative: they are
/// unsigned nanosecond counts, so no result can carry a negative wall, user
/// or system time. Wall time is still free to fall short of user plus system
/// time, as it does for multi-core children.
pub proof fn lemma_times_nonnegative(t: TimerResult)
    ensures
        t.time_real >= 0,
        t.time_user >= 0,
        t.time_system >= 0,
{
}

/// Assemble one invocation's measurements into its result record.
///
/// Every field comes from exactly one reading: the three timers are taken as
/// given, the exit information and the optional peak memory come from the
/// reap, and the custom metric is parsed from the captured stdout bytes —
/// absent capture, it is the zero metric. Peak memory is present exactly
/// when the reap collected it.
pub fn build_timer_result(
    time_real: u64,
    time_user: u64,
    time_system: u64,
    reap: ReapOutcome,
    captured: Option<&Vec<u8>>,
) -> (r: TimerResult)
    ensures
        r.time_real == time_real,
        r.time_user == time_user,
        r.time_system == time_system,
        r.status == reap.exit_spec(),
        r.mem_usage == reap.mem_spec(),
        r.custom_metric == match captured {
            Some(bytes) => metric_of(bytes@),
            None => zero_metric(),
        },
{
    let custom_metric = match captured {
        Some(bytes) => crate::metric::parse_custom_metric(bytes),
        None => CustomMetric { negative: false, mantissa: 0, scale: 0 },
    };
    let (status, mem_usage) = match reap {
        ReapOutcome::Plain(e) => (e, None),
        ReapOutcome::WithUsage(e, m) => (e, Some(m)),
    };
    TimerResult { time_real, time_user, time_system, status, custom_metric, mem_usage }
}

} // verus!
