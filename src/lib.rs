//! An in-process sampling profiler.
//!
//! - `collector`: the bounded, allocation-free aggregation table that the
//!   signal handler feeds, with the overflow store that keeps what it evicts.
//! - `backtrace`: the frame-pointer stack walker.
//! - `addr_validate`: the decisions of the address validator.
//! - `profiler`: the profiler's state machine, the signal handler's
//!   decisions, and the builder's configuration.
//! - `frames`, `report`: captured stacks, symbols, and reports.
//! - `encode`, `decode`, `protos`: the pprof profile format.
//! - `flamegraph`: folded stacks for flame graphs.
//! - `perfmap`, `pyroscope`, `text`: perf maps, upload names, string helpers.
use vstd::prelude::*;

pub mod addr_validate;
pub mod backtrace;
pub mod collector;
pub mod decode;
pub mod encode;
pub mod error;
pub mod flamegraph;
pub mod frames;
pub mod perfmap;
pub mod profiler;
pub mod protos;
pub mod pyroscope;
pub mod report;
pub mod text;

pub use collector::{Collector, HashCounter};
pub use error::{Error, Result};
pub use frames::{Frames, Symbol};
pub use profiler::ProfilerGuardBuilder;
pub use report::{Report, UnresolvedReport};

verus! {

/// The deepest stack that a sample keeps.
pub const MAX_DEPTH: usize = 128;

/// The capacity of a thread name buffer, in bytes.
pub const MAX_THREAD_NAME: usize = 16;

} // verus!
