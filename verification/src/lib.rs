//! Measurement primitives for timing a single run of an external command:
//! wall-clock and CPU timers, an output sink that either discards or captures
//! the child's standard output, a decimal custom-metric parser, and the value
//! objects that carry one invocation's measurements and their aggregate.

pub mod benchmark_result;
pub mod cpu_timer;
pub mod exit_status;
pub mod metric;
pub mod output;
pub mod stats;
pub mod timer;
pub mod units;
pub mod wall_clock;

pub use benchmark_result::BenchmarkResult;
pub use cpu_timer::CPUTimer;
pub use exit_status::ExitInfo;
pub use metric::CustomMetric;
pub use output::DiscardPump;
pub use timer::{build_timer_result, CommandOutputPolicy, HarnessError, ReapOutcome, TimerResult};
pub use units::NANOS_PER_SEC;
pub use wall_clock::WallClockTimer;
