use vstd::prelude::*;

verus! {

/// What can go wrong while configuring, starting or stopping the profiler.
#[derive(Debug, Clone, Copy, PartialEq, Eq, Structural)]
pub enum Error {
    /// Registering or unregistering the timer or the signal handler failed,
    /// with the operating system's error number.
    OsError(i32),
    /// The profiler could not be created.
    CreatingError,
    /// The profiler is already running.
    Running,
    /// The profiler is not running.
    NotRunning,
}

impl Error {
    /// A short human-readable description of the error.
    pub fn message(&self) -> (r: &'static str) {
        match self {
            Error::OsError(_) => "operating system error",
            Error::CreatingError => "create profiler error",
            Error::Running => "start running cpu profiler error",
            Error::NotRunning => "stop running cpu profiler error",
        }
    }
}

/// The result of a profiler operation.
pub type Result<T> = core::result::Result<T, Error>;

} // verus!
