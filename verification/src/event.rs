//! The outcomes of single non-blocking reads and writes, as the relay sees
//! them, and the flow-control signals the stream machinery derives from them.

use vstd::prelude::*;

verus! {

/// Outcome of one non-blocking read from a source.
#[derive(Debug)]
pub enum ReadEvent {
    /// The source handed over these bytes.
    Data(Vec<u8>),
    /// The source reported end of stream: a zero-byte read.
    Eof,
    /// Nothing available right now; more may arrive later.
    WouldBlock,
    /// The read was interrupted and is to be retried at once.
    Interrupted,
    /// The read failed for good.
    Failed,
}

/// Outcome of one non-blocking write to a sink.
#[derive(Debug)]
pub enum WriteEvent {
    /// The sink accepted this many bytes of the offered remainder;
    /// zero means the sink is closed.
    Accepted(usize),
    /// No room right now; the rest is given up for this call.
    WouldBlock,
    /// The write was interrupted and is to be retried at once.
    Interrupted,
    /// The write failed for good.
    Failed,
}

/// What one stream step decided.
#[derive(Debug, PartialEq, Eq, Structural)]
pub enum StepStatus {
    /// Keep feeding outcomes.
    Going,
    /// The call is over; the flag says whether the stream is still open.
    Stop(bool),
    /// An unrecoverable failure ends the call.
    Error,
}

/// The relay's fatal errors.
#[derive(Debug, PartialEq, Eq, Structural)]
pub enum RelayError {
    /// An unrecoverable operating-system read or write failure.
    Io,
    /// A stream handed over bytes that are not valid UTF-8.
    Decode,
}

} // verus!
