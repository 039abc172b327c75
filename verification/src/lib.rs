//! Correlation-and-lifecycle layer for talking to a long-running worker
//! process over line-delimited JSON on its standard streams.
//!
//! The crate verifies the protocol core: request-id allocation, the
//! pending-request table, the connection state machine, the dispatcher's
//! bookkeeping on every exit path, classification of worker output into
//! handshake / correlated response / diagnostic text, and the instance-lock
//! verdict. Process spawning, the async runtime and the GUI surface live
//! outside the crate and call into it with plain values.

pub mod channel;
pub mod codec;
pub mod engine;
pub mod errors;
pub mod guard;
pub mod schema;
pub mod state;
pub mod table;
