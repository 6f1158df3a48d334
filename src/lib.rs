//! Connection and channel management for a client/server transport: client
//! identifiers, bounded per-channel message queues, the connection state
//! machine with keep-alive, one-shot certificate decisions, and the error
//! kinds they share. The transport itself and the background runtime that
//! drives it are outside this crate; they call in with plain values.

use vstd::prelude::*;

pub mod certificate;
pub mod channel;
pub mod config;
pub mod connection;
pub mod error;
pub mod registry;

pub use error::QuinnetError;

verus! {

/// Capacity of a data message channel.
pub const DEFAULT_MESSAGE_QUEUE_SIZE: usize = 150;

/// Capacity of the control channel that carries termination signals.
pub const DEFAULT_KILL_MESSAGE_QUEUE_SIZE: usize = 10;

/// Period, in seconds, of the keep-alive signal.
pub const DEFAULT_KEEP_ALIVE_INTERVAL_S: u64 = 4;

/// Identifier of a client connection on the server.
pub type ClientId = u64;

} // verus!
