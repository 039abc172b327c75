//! Reply shapes of the worker commands whose payloads are plain values.
//!
//! These are the presentation-facing record types the host reads out of a
//! response's `data` payload. The host owns their (de)serialization; here
//! they are plain data.

use vstd::prelude::*;

verus! {

/// Current authentication state of the brokerage session.
pub struct AuthStatus {
    pub auth_state: String,
    pub has_stored_credentials: bool,
    pub last_error: Option<String>,
}

/// Whether a saved brokerage session exists, and what to prompt for.
pub struct SessionCheck {
    pub has_session: bool,
    pub phone_number: Option<String>,
    pub prompt: String,
}

/// Outcome of a login or second-factor step.
pub struct AuthResponse {
    pub auth_state: String,
    pub message: String,
    pub countdown: Option<u32>,
}

/// Outcome of a logout.
pub struct LogoutResponse {
    pub auth_state: String,
    pub message: String,
}

/// One progress notification during a portfolio sync.
pub struct SyncProgress {
    pub status: String,
    pub progress: u8,
    pub message: String,
}

/// Outcome of a manual analytics-pipeline run.
pub struct PipelineResult {
    pub success: bool,
    pub errors: Vec<String>,
    pub duration_ms: u32,
}

} // verus!
