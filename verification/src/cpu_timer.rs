//! The CPU timer: how much user and kernel CPU time the measured child
//! consumed. The platform accounts CPU time of terminated children into the
//! parent's `RUSAGE_CHILDREN` counters at the moment they are reaped, so the
//! timer snapshots those counters before the child is spawned and again
//! after it has been reaped, and reports the two differences. The snapshots
//! are taken on trust from the operating system; everything computed from
//! them is verified in `units`.

use vstd::prelude::*;

use crate::timer::HarnessError;
use crate::units::{cpu_delta_nanos, usage_micros};

verus! {

/// Relies on nix::sys::resource::getrusage with RUSAGE_CHILDREN: reads the
/// accumulated user and system CPU times of the children reaped so far, and
/// hands back the raw seconds and microseconds fields of the two readings,
/// or the error number when the platform refuses the call.
#[verifier::external_body]
fn rusage_children_raw() -> Result<(i64, i64, i64, i64), i32> {
    match nix::sys::resource::getrusage(nix::sys::resource::UsageWho::RUSAGE_CHILDREN) {
        Ok(usage) => {
            let user = usage.user_time();
            let system = usage.system_time();
            Ok((user.tv_sec(), user.tv_usec(), system.tv_sec(), system.tv_usec()))
        },
        Err(e) => Err(e as i32),
    }
}

/// A started CPU-time measurement: the children's CPU accounting counters
/// as they stood before the child was spawned, in microseconds.
pub struct CPUTimer {
    /// User-mode CPU microseconds accounted to children at the start.
    pub user_start_micros: u64,
    /// Kernel-mode CPU microseconds accounted to children at the start.
    pub system_start_micros: u64,
}

impl CPUTimer {
    /// A timer over explicit starting counters. The counters a running
    /// process reads cannot be pinned down; this constructor is where they
    /// enter, and everything after it is a function of them.
    pub fn from_snapshot(user_micros: u64, system_micros: u64) -> (r: CPUTimer)
        ensures
            r.user_start_micros == user_micros,
            r.system_start_micros == system_micros,
    {
        CPUTimer { user_start_micros: user_micros, system_start_micros: system_micros }
    }

    /// Snapshot the children's CPU accounting counters as the start of the
    /// measured window. Call this before spawning the child. A platform
    /// refusal is fatal to the invocation and reported as a timer error,
    /// never silently zeroed.
    pub fn start() -> (r: Result<CPUTimer, HarnessError>)
        ensures
            r matches Err(e) ==> e matches HarnessError::Timer(_),
    {
        match rusage_children_raw() {
            Ok((user_sec, user_usec, system_sec, system_usec)) => Ok(
                CPUTimer::from_snapshot(
                    usage_micros(user_sec, user_usec),
                    usage_micros(system_sec, system_usec),
                ),
            ),
            Err(errno) => Err(HarnessError::Timer(errno)),
        }
    }

    /// Re-read the counters after the child has been reaped and report how
    /// far each advanced, as `(user, system)` nanoseconds. Valid only once
    /// the child has been reaped through this process's own wait — before
    /// that, the platform has not yet accounted its CPU time. The counter
    /// readings cannot be pinned down; the differences are computed by
    /// `cpu_delta_nanos`, whose contract is exact.
    pub fn stop(&self) -> (r: Result<(u64, u64), HarnessError>)
        ensures
            r matches Err(e) ==> e matches HarnessError::Timer(_),
    {
        match rusage_children_raw() {
            Ok((user_sec, user_usec, system_sec, system_usec)) => {
                let user_now = usage_micros(user_sec, user_usec);
                let system_now = usage_micros(system_sec, system_usec);
                Ok(
                    (
                        cpu_delta_nanos(self.user_start_micros, user_now),
                        cpu_delta_nanos(self.system_start_micros, system_now),
                    ),
                )
            },
            Err(errno) => Err(HarnessError::Timer(errno)),
        }
    }
}

} // verus!
