//! An event-driven relay between a raw-mode terminal and the standard
//! input/output pipes of a child process.
//!
//! The crate holds the relay's whole decision logic: the framing of
//! non-blocking reads ([`reader`]), the draining of non-blocking writes
//! ([`writer`]), and the per-stream state machine that sequences them
//! ([`relay`]). The operating-system calls themselves — polling, reading,
//! writing — happen outside; their outcomes are handed in as plain events.

pub mod event;
pub mod reader;
pub mod relay;
pub mod writer;
