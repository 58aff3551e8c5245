//! The decisions of the address validator. An address is probed by writing
//! the memory it points to into a pipe: the kernel reads that memory, and an
//! unreadable address makes the write fail instead of faulting. The system
//! calls are made by the caller; these functions decide what each outcome
//! means.
use vstd::prelude::*;

verus! {

/// How a `read` or `write` on the validator's pipe ended.
#[derive(Debug, Clone, Copy, PartialEq, Eq, Structural)]
pub enum IoOutcome {
    /// The call transferred this many bytes.
    Done(usize),
    /// A signal interrupted the call.
    Interrupted,
    /// The non-blocking call had nothing to do.
    WouldBlock,
    /// Any other error.
    Failed,
}

/// What to do after draining the pipe's read end.
#[derive(Debug, Clone, Copy, PartialEq, Eq, Structural)]
pub enum DrainStep {
    /// Read again.
    Retry,
    /// The pipe works: go on to the probe.
    Proceed,
    /// The pipe is broken: close and reopen both ends before the probe.
    Reopen,
}

/// What to do after the probing write.
#[derive(Debug, Clone, Copy, PartialEq, Eq, Structural)]
pub enum ProbeStep {
    /// Write again.
    Retry,
    /// The address is readable (`true`) or not (`false`).
    Valid(bool),
}

/// A null address is never valid; any other address must be probed.
pub fn needs_probe(addr: usize) -> (r: bool)
    ensures
        r == (addr != 0),
{
    addr != 0
}

/// Draining the read end: bytes read, or nothing to read, mean the pipe
/// works; end of file or an error mean it is broken; an interrupt means
/// read again.
pub fn drain_step(outcome: IoOutcome) -> (r: DrainStep)
    ensures
        r == match outcome {
            IoOutcome::Done(n) => if n > 0 {
                DrainStep::Proceed
            } else {
                DrainStep::Reopen
            },
            IoOutcome::Interrupted => DrainStep::Retry,
            IoOutcome::WouldBlock => DrainStep::Proceed,
            IoOutcome::Failed => DrainStep::Reopen,
        },
{
    match outcome {
        IoOutcome::Done(n) => if n > 0 {
            DrainStep::Proceed
        } else {
            DrainStep::Reopen
        },
        IoOutcome::Interrupted => DrainStep::Retry,
        IoOutcome::WouldBlock => DrainStep::Proceed,
        IoOutcome::Failed => DrainStep::Reopen,
    }
}

/// The probing write: some bytes written means the address is readable; an
/// interrupt means write again; anything else means it is not.
pub fn probe_step(outcome: IoOutcome) -> (r: ProbeStep)
    ensures
        r == match outcome {
            IoOutcome::Done(n) => ProbeStep::Valid(n > 0),
            IoOutcome::Interrupted => ProbeStep::Retry,
            _ => ProbeStep::Valid(false),
        },
{
    match outcome {
        IoOutcome::Done(n) => ProbeStep::Valid(n > 0),
        IoOutcome::Interrupted => ProbeStep::Retry,
        _ => ProbeStep::Valid(false),
    }
}

} // verus!
