//! Connection state machine of the single worker endpoint.
//!
//! The state starts `Disconnected`, moves to `Connected` only on an explicit
//! handshake signal, and back to `Disconnected` only on a process-exit or
//! explicit-disconnect event. A repeated handshake re-arms `Connected`,
//! overwriting the carried metadata.

use vstd::prelude::*;

verus! {

/// Lifecycle of the connection to the worker process.
///
/// `version` is the worker's self-reported version string (UTF-8 bytes) from
/// the handshake; `pid` is its process id when the handshake carried one.
pub enum EngineConnection {
    Disconnected,
    Connected { version: Vec<u8>, pid: Option<u32> },
}

impl EngineConnection {
    /// Whether commands may be submitted.
    pub open spec fn is_connected_spec(&self) -> bool {
        self is Connected
    }

    /// The version bytes carried by the last handshake, if connected.
    pub open spec fn version_spec(&self) -> Option<Seq<u8>> {
        match self {
            EngineConnection::Disconnected => None,
            EngineConnection::Connected { version, .. } => Some(version@),
        }
    }

    /// The worker pid carried by the last handshake, if any.
    pub open spec fn pid_spec(&self) -> Option<u32> {
        match self {
            EngineConnection::Disconnected => None,
            EngineConnection::Connected { pid, .. } => *pid,
        }
    }
}

} // verus!
