use vstd::prelude::*;

verus! {

/// A plugin configuration entry was rejected.  The payload carries the
/// offending value so the operator can see which entry failed.
#[derive(Debug, Clone, PartialEq, Eq)]
pub enum ConfigError {
    /// The configured tracing library directory does not resolve to an
    /// existing directory.
    InvalidPath(String),
}

/// The tracing environment for a job could not be prepared safely.
/// Capture is abandoned for the job; the job itself still runs.
#[derive(Debug, Clone, PartialEq, Eq)]
pub enum EnvInjectionError {
    /// The job's owning user could not be resolved from its numeric id.
    UserNotFound(u32),
}

/// Outcome of looking up a job's execution trace.
#[derive(Debug, Clone, Copy, PartialEq, Eq)]
pub enum TraceLookupError {
    /// No trace file mentions the job: not a fault, but correlation is
    /// impossible and the remaining provenance phases are skipped.
    NotFound,
    /// The trace directory could not be read, or a trace file failed to
    /// parse.
    ReadError,
}

/// The external provenance tool exited abnormally.  Reported, and the
/// remaining phases of the current hook invocation are skipped.
#[derive(Debug, Clone, Copy, PartialEq, Eq)]
pub enum ToolInvocationError {
    /// The tool ran and returned the given non-zero status code.
    NonZeroExit(i32),
    /// The tool was killed before it could return a status code.
    AbnormalExit,
}

/// Classify an external tool's exit status: `None` stands for an abnormal
/// termination without a status code; anything but a zero status is a
/// reportable failure.
pub fn tool_outcome(status: Option<i32>) -> (r: Result<(), ToolInvocationError>)
    ensures
        r == match status {
            Some(0i32) => Result::<(), ToolInvocationError>::Ok(()),
            Some(c) => Result::<(), ToolInvocationError>::Err(ToolInvocationError::NonZeroExit(c)),
            None => Result::<(), ToolInvocationError>::Err(ToolInvocationError::AbnormalExit),
        },
{
    match status {
        Some(c) => {
            if c == 0 {
                Ok(())
            } else {
                Err(ToolInvocationError::NonZeroExit(c))
            }
        },
        None => Err(ToolInvocationError::AbnormalExit),
    }
}

} // verus!
