//! The aggregated outcome of all invocations of one benchmarked command:
//! central tendency and dispersion of the wall times, the CPU-time means,
//! the extrema, and the per-invocation series that were asked for.

use vstd::prelude::*;

use crate::metric::CustomMetric;
use crate::stats::{
    max_seq, max_u64, mean_spec, mean_u64, median_spec, median_u64, min_seq, min_u64, stddev_spec,
    stddev_u64, MAX_MEASURED_NANOS, MAX_MEASUREMENTS,
};
use crate::timer::TimerResult;

verus! {

/// The wall times of a series of invocations, in order.
pub open spec fn times_of(rs: Seq<TimerResult>) -> Seq<u64> {
    Seq::new(rs.len(), |i: int| rs[i].time_real)
}

/// The user-mode CPU times of a series of invocations, in order.
pub open spec fn users_of(rs: Seq<TimerResult>) -> Seq<u64> {
    Seq::new(rs.len(), |i: int| rs[i].time_user)
}

/// The kernel-mode CPU times of a series of invocations, in order.
pub open spec fn systems_of(rs: Seq<TimerResult>) -> Seq<u64> {
    Seq::new(rs.len(), |i: int| rs[i].time_system)
}

/// The exit codes of a series of invocations, in order: one entry per
/// invocation, absent where the child did not exit normally.
pub open spec fn codes_of(rs: Seq<TimerResult>) -> Seq<Option<i32>> {
    Seq::new(rs.len(), |i: int| rs[i].status.code_spec())
}

/// The custom metrics of a series of invocations, in order.
pub open spec fn metrics_of(rs: Seq<TimerResult>) -> Seq<CustomMetric> {
    Seq::new(rs.len(), |i: int| rs[i].custom_metric)
}

/// The peak-memory readings of a series of invocations, in order.
pub open spec fn mems_of(rs: Seq<TimerResult>) -> Seq<Option<u64>> {
    Seq::new(rs.len(), |i: int| rs[i].mem_usage)
}

/// Parameter keys are unique.
pub open spec fn params_wf(ps: Seq<(String, String)>) -> bool {
    forall|i: int, j: int| 0 <= i < j < ps.len() ==> ps[i].0@ != ps[j].0@
}

/// The aggregated result of all invocations of one benchmarked command. All
/// times are integer nanosecond counts.
pub struct BenchmarkResult {
    /// The full command line of the program that was benchmarked.
    pub command: String,
    /// The command line including parameters the template left unused; kept
    /// only to tell otherwise identical runs apart, never exported.
    pub command_with_unused_parameters: String,
    /// The mean wall time.
    pub mean: u64,
    /// The sample standard deviation of the wall times; absent when fewer
    /// than two invocations were measured.
    pub stddev: Option<u64>,
    /// The median wall time.
    pub median: u64,
    /// The mean user-mode CPU time.
    pub user: u64,
    /// The mean kernel-mode CPU time.
    pub system: u64,
    /// The least measured wall time.
    pub min: u64,
    /// The greatest measured wall time.
    pub max: u64,
    /// Every wall time, in order, when detailed output was requested.
    pub times: Option<Vec<u64>>,
    /// The exit code of every invocation, in order.
    pub exit_codes: Vec<Option<i32>>,
    /// The custom metric of every invocation, in order, when requested.
    pub custom_metrics: Option<Vec<CustomMetric>>,
    /// The peak-memory reading of every invocation, in order, when peak
    /// memory was collected.
    pub mem_usage: Option<Vec<Option<u64>>>,
    /// Parameter name/value pairs of this parameterized run; keys unique.
    pub parameters: Vec<(String, String)>,
}

impl BenchmarkResult {
    /// Aggregate the ordered results of every invocation of one command.
    ///
    /// There is one exit-code entry per invocation, and the standard
    /// deviation is present exactly when at least two invocations were
    /// measured. The wall-time list, the metric list and the memory list are
    /// kept exactly when their flag asks for them, each in invocation order.
    /// The bounds asked of the caller keep the sums of squared deviations
    /// inside machine integers: each wall time at most `MAX_MEASURED_NANOS`
    /// (about 78 hours) and at most `MAX_MEASUREMENTS` invocations.
    pub fn from_measurements(
        command: String,
        command_with_unused_parameters: String,
        results: &Vec<TimerResult>,
        keep_times: bool,
        keep_metrics: bool,
        collect_mem_usage: bool,
        parameters: Vec<(String, String)>,
    ) -> (r: BenchmarkResult)
        requires
            results@.len() >= 1,
            results@.len() <= MAX_MEASUREMENTS,
            forall|i: int| 0 <= i < results@.len() ==> results@[i].time_real <= MAX_MEASURED_NANOS,
            params_wf(parameters@),
        ensures
            r.command == command,
            r.command_with_unused_parameters == command_with_unused_parameters,
            r.mean as int == mean_spec(times_of(results@)),
            r.median as int == median_spec(times_of(results@)),
            r.user as int == mean_spec(users_of(results@)),
            r.system as int == mean_spec(systems_of(results@)),
            r.min == min_seq(times_of(results@)),
            r.max == max_seq(times_of(results@)),
            r.stddev matches Some(s) <==> results@.len() >= 2,
            r.stddev matches Some(s) ==> s as int == stddev_spec(times_of(results@)),
            r.exit_codes@ == codes_of(results@),
            r.exit_codes@.len() == results@.len(),
            r.times matches Some(ts) ==> keep_times && ts@ == times_of(results@),
            r.times matches None ==> !keep_times,
            r.custom_metrics matches Some(ms) ==> keep_metrics && ms@ == metrics_of(results@),
            r.custom_metrics matches None ==> !keep_metrics,
            r.mem_usage matches Some(mu) ==> collect_mem_usage && mu@ == mems_of(results@),
            r.mem_usage matches None ==> !collect_mem_usage,
            r.parameters == parameters,
            params_wf(r.parameters@),
    {
        let n: usize = results.len();

        let mut times: Vec<u64> = Vec::new();
        let mut users: Vec<u64> = Vec::new();
        let mut systems: Vec<u64> = Vec::new();
        let mut exit_codes: Vec<Option<i32>> = Vec::new();
        let mut metrics: Vec<CustomMetric> = Vec::new();
        let mut mems: Vec<Option<u64>> = Vec::new();
        let mut i: usize = 0;
        while i < n
            invariant
                0 <= i <= n,
                n == results@.len(),
                times@.len() == i,
                users@.len() == i,
                systems@.len() == i,
                exit_codes@.len() == i,
                metrics@.len() == i,
                mems@.len() == i,
                forall|k: int| 0 <= k < i ==> times@[k] == results@[k].time_real,
                forall|k: int| 0 <= k < i ==> users@[k] == results@[k].time_user,
                forall|k: int| 0 <= k < i ==> systems@[k] == results@[k].time_system,
                forall|k: int| 0 <= k < i ==> exit_codes@[k] == results@[k].status.code_spec(),
                forall|k: int| 0 <= k < i ==> metrics@[k] == results@[k].custom_metric,
                forall|k: int| 0 <= k < i ==> mems@[k] == results@[k].mem_usage,
            decreases n - i,
        {
            let res = &results[i];
            times.push(res.time_real);
            users.push(res.time_user);
            systems.push(res.time_system);
            exit_codes.push(res.status.code());
            metrics.push(res.custom_metric);
            mems.push(res.mem_usage);
            i += 1;
        }
        proof {
            assert(times@ =~= times_of(results@));
            assert(users@ =~= users_of(results@));
            assert(systems@ =~= systems_of(results@));
            assert(exit_codes@ =~= codes_of(results@));
            assert(metrics@ =~= metrics_of(results@));
            assert(mems@ =~= mems_of(results@));
        }

        let mean = mean_u64(&times);
        let median = median_u64(&times);
        let user = mean_u64(&users);
        let system = mean_u64(&systems);
        let min = min_u64(&times);
        let max = max_u64(&times);
        let stddev: Option<u64> = if n >= 2 {
            Some(stddev_u64(&times, mean))
        } else {
            None
        };

        BenchmarkResult {
            command,
            command_with_unused_parameters,
            mean,
            stddev,
            median,
            user,
            system,
            min,
            max,
            times: if keep_times {
                Some(times)
            } else {
                None
            },
            exit_codes,
            custom_metrics: if keep_metrics {
                Some(metrics)
            } else {
                None
            },
            mem_usage: if collect_mem_usage {
                Some(mems)
            } else {
                None
            },
            parameters,
        }
    }
}

} // verus!
