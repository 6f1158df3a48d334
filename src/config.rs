use vstd::prelude::*;
use crate::{DEFAULT_KEEP_ALIVE_INTERVAL_S, DEFAULT_KILL_MESSAGE_QUEUE_SIZE, DEFAULT_MESSAGE_QUEUE_SIZE};

verus! {

/// Number of keep-alive intervals without any sign of the peer after which
/// a connection is considered lost. Three missed intervals leave room for
/// one or two delayed signals before a live peer is dropped.
pub const DEFAULT_KEEP_ALIVE_TIMEOUT_MULTIPLE: u64 = 3;

/// The recognised options of a connection.
#[derive(Debug, Clone, Copy, PartialEq, Eq, Structural)]
pub struct ConnectionConfig {
    /// Capacity of each data channel.
    pub message_queue_size: usize,
    /// Capacity of the control channel that carries termination signals.
    pub kill_message_queue_size: usize,
    /// Period, in seconds, of the keep-alive signal.
    pub keep_alive_interval_s: u64,
    /// Number of silent keep-alive intervals after which the peer is lost.
    pub keep_alive_timeout_multiple: u64,
}

impl ConnectionConfig {
    /// The configuration with every option at its default.
    pub fn new() -> (r: ConnectionConfig)
        ensures
            r.message_queue_size == DEFAULT_MESSAGE_QUEUE_SIZE,
            r.kill_message_queue_size == DEFAULT_KILL_MESSAGE_QUEUE_SIZE,
            r.keep_alive_interval_s == DEFAULT_KEEP_ALIVE_INTERVAL_S,
            r.keep_alive_timeout_multiple == DEFAULT_KEEP_ALIVE_TIMEOUT_MULTIPLE,
    {
        ConnectionConfig {
            message_queue_size: DEFAULT_MESSAGE_QUEUE_SIZE,
            kill_message_queue_size: DEFAULT_KILL_MESSAGE_QUEUE_SIZE,
            keep_alive_interval_s: DEFAULT_KEEP_ALIVE_INTERVAL_S,
            keep_alive_timeout_multiple: DEFAULT_KEEP_ALIVE_TIMEOUT_MULTIPLE,
        }
    }
}

impl Default for ConnectionConfig {
    fn default() -> (r: ConnectionConfig)
        ensures
            r.message_queue_size == DEFAULT_MESSAGE_QUEUE_SIZE,
            r.kill_message_queue_size == DEFAULT_KILL_MESSAGE_QUEUE_SIZE,
            r.keep_alive_interval_s == DEFAULT_KEEP_ALIVE_INTERVAL_S,
            r.keep_alive_timeout_multiple == DEFAULT_KEEP_ALIVE_TIMEOUT_MULTIPLE,
    {
        ConnectionConfig::new()
    }
}

} // verus!
