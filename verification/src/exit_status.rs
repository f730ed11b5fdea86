//! How a child process ended: a normal exit code, a terminating signal, or
//! an ending the platform reported in neither form.

use vstd::prelude::*;

verus! {

/// The way one child process terminated.
#[derive(Clone, Copy, Debug, PartialEq, Eq, Structural)]
pub enum ExitInfo {
    /// The child exited normally with this code.
    Code(i32),
    /// The child was terminated by this signal and has no exit code.
    Signal(i32),
    /// The platform reported neither an exit code nor a signal.
    Unknown,
}

impl ExitInfo {
    /// The exit code an invocation contributes to an aggregate: the code of a
    /// normal exit, and nothing for a signaled or otherwise abnormal ending.
    pub open spec fn code_spec(self) -> Option<i32> {
        match self {
            ExitInfo::Code(c) => Some(c),
            ExitInfo::Signal(_) => None,
            ExitInfo::Unknown => None,
        }
    }

    /// The normal exit code, if the child exited normally.
    pub fn code(&self) -> (r: Option<i32>)
        ensures
            r == self.code_spec(),
    {
        match self {
            ExitInfo::Code(c) => Some(*c),
            ExitInfo::Signal(_) => None,
            ExitInfo::Unknown => None,
        }
    }

    /// Whether the child exited normally with code zero.
    pub fn success(&self) -> (r: bool)
        ensures
            r == (self.code_spec() == Some(0i32)),
    {
        match self {
            ExitInfo::Code(c) => *c == 0,
            ExitInfo::Signal(_) => false,
            ExitInfo::Unknown => false,
        }
    }
}

} // verus!
