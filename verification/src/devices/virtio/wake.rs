//! What a worker does when one of the events it waits for has happened.

use vstd::prelude::*;

verus! {

/// The number that waiting gives for the first of the events.
pub const WAIT_OBJECT_0: u32 = 0;

/// The number that waiting gives when it failed.
pub const WAIT_FAILED: u32 = 0xFFFF_FFFF;

/// What a worker with a queue for each direction does next. It waits for its
/// transmit queue, for input and for the order to stop.
#[derive(Clone, Copy, Debug, PartialEq, Eq, Structural)]
pub enum DuplexStep {
    Transmit,
    Receive,
    Stop,
    Failed,
    /// Nothing that it waits for: it waits again.
    Unexpected,
}

/// What a worker with one queue does next. It waits for its queue and for the
/// order to stop.
#[derive(Clone, Copy, Debug, PartialEq, Eq, Structural)]
pub enum QueueStep {
    Serve,
    Stop,
    Failed,
    /// Nothing that it waits for: it waits again.
    Unexpected,
}

/// What a worker with two queues does when waiting gave `result`.
pub fn duplex_step(result: u32) -> (r: DuplexStep)
    ensures
        r == (if result == WAIT_OBJECT_0 {
            DuplexStep::Transmit
        } else if result == WAIT_OBJECT_0 + 1 {
            DuplexStep::Receive
        } else if result == WAIT_OBJECT_0 + 2 {
            DuplexStep::Stop
        } else if result == WAIT_FAILED {
            DuplexStep::Failed
        } else {
            DuplexStep::Unexpected
        }),
{
    match result {
        0 => DuplexStep::Transmit,
        1 => DuplexStep::Receive,
        2 => DuplexStep::Stop,
        WAIT_FAILED => DuplexStep::Failed,
        _ => DuplexStep::Unexpected,
    }
}

/// What a worker with one queue does when waiting gave `result`.
pub fn queue_step(result: u32) -> (r: QueueStep)
    ensures
        r == (if result == WAIT_OBJECT_0 {
            QueueStep::Serve
        } else if result == WAIT_OBJECT_0 + 1 {
            QueueStep::Stop
        } else if result == WAIT_FAILED {
            QueueStep::Failed
        } else {
            QueueStep::Unexpected
        }),
{
    match result {
        0 => QueueStep::Serve,
        1 => QueueStep::Stop,
        WAIT_FAILED => QueueStep::Failed,
        _ => QueueStep::Unexpected,
    }
}

} // verus!
