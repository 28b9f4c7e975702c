//! A driver core for a cellular modem behind one AT-command serial link:
//! virtual TCP streams that share the link, and command exchanges that bring
//! the link back to a line boundary after a failed wait.
//!
//! Nothing here waits, reads or writes. Each operation is cut at its waits
//! into steps: a step takes what the wait brought and says what to do next.
//! The caller owns the transport, the lock around it and the queues.

pub mod at_command;
pub mod buffer;
pub mod drain;
pub mod error;
pub mod executor;
pub mod serial;
pub mod tcp;
pub mod tcp_runs;
pub mod text;

pub use crate::error::Error;
pub use crate::serial::{AtModem, Serial, SerialReadTimeout, SerialWrite};
