//! The plain record types a host reads out of response payloads.

use prism_ipc::schema::{
    AuthResponse, AuthStatus, LogoutResponse, PipelineResult, SessionCheck, SyncProgress,
};

#[test]
fn records_hold_their_fields() {
    let auth = AuthStatus {
        auth_state: "idle".to_string(),
        has_stored_credentials: false,
        last_error: Some("Python engine not connected".to_string()),
    };
    assert_eq!(auth.auth_state, "idle");
    assert!(!auth.has_stored_credentials);
    assert!(auth.last_error.is_some());

    let check = SessionCheck {
        has_session: false,
        phone_number: None,
        prompt: "login_required".to_string(),
    };
    assert_eq!(check.prompt, "login_required");

    let resp = AuthResponse {
        auth_state: "awaiting_2fa".to_string(),
        message: "code sent".to_string(),
        countdown: Some(30),
    };
    assert_eq!(resp.countdown, Some(30));

    let out = LogoutResponse {
        auth_state: "logged_out".to_string(),
        message: "bye".to_string(),
    };
    assert_eq!(out.auth_state, "logged_out");

    let progress = SyncProgress {
        status: "complete".to_string(),
        progress: 100,
        message: "Sync complete!".to_string(),
    };
    assert_eq!(progress.progress, 100);

    let pipeline = PipelineResult {
        success: true,
        errors: vec![],
        duration_ms: 1200,
    };
    assert!(pipeline.success);
    assert!(pipeline.errors.is_empty());
}
