//! The endpoint: connection gating, dispatch bookkeeping, routing.

use prism_ipc::codec::EngineResponse;
use prism_ipc::engine::{AwaitOutcome, PythonEngine, RouteOutcome};
use prism_ipc::errors::{CommandFailure, DispatchError};

#[test]
fn fresh_engine_is_disconnected() {
    let e = PythonEngine::new();
    assert!(!e.is_connected());
    assert!(e.get_version().is_none());
    assert_eq!(e.pending_count(), 0);
}

#[test]
fn send_is_refused_when_not_connected() {
    let mut e = PythonEngine::new();
    match e.begin_send(b"get_health", b"{}") {
        Err(DispatchError::NotConnected) => {}
        _ => panic!("a disconnected endpoint must refuse dispatch"),
    }
    assert_eq!(e.pending_count(), 0);
}

#[test]
fn set_connected_marks_the_endpoint_ready() {
    let mut e = PythonEngine::new();
    e.set_connected(b"9.9.9".to_vec());
    assert!(e.is_connected());
    assert_eq!(e.get_version(), Some(b"9.9.9".to_vec()));
}

#[test]
fn handshake_connects_and_reports_version() {
    let mut e = PythonEngine::new();
    let out = e.route_line(b"{\"status\":\"ready\",\"version\":\"1.2.3\",\"pid\":42}");
    assert_eq!(out, RouteOutcome::HandshakeAccepted);
    assert!(e.is_connected());
    assert_eq!(e.get_version(), Some(b"1.2.3".to_vec()));
}

#[test]
fn repeated_handshake_rearms_with_new_version() {
    let mut e = PythonEngine::new();
    e.route_line(b"{\"status\":\"ready\",\"version\":\"1.0.0\",\"pid\":1}");
    let out = e.route_line(b"{\"status\":\"ready\",\"version\":\"2.0.0\",\"pid\":2}");
    assert_eq!(out, RouteOutcome::HandshakeAccepted);
    assert!(e.is_connected());
    assert_eq!(e.get_version(), Some(b"2.0.0".to_vec()));
}

#[test]
fn malformed_line_changes_nothing() {
    let mut e = PythonEngine::new();
    e.route_line(b"{\"status\":\"ready\",\"version\":\"1.2.3\",\"pid\":42}");
    let ticket = e.begin_send(b"cmd", b"{}").unwrap();
    let out = e.route_line(b"not json at all");
    assert_eq!(out, RouteOutcome::Diagnostic);
    assert!(e.is_connected());
    assert_eq!(e.get_version(), Some(b"1.2.3".to_vec()));
    assert!(e.is_pending(ticket.id));
    assert_eq!(e.pending_count(), 1);
}

#[test]
fn round_trip_resolves_the_caller() {
    let mut e = PythonEngine::new();
    e.route_line(b"{\"status\":\"ready\",\"version\":\"1.2.3\",\"pid\":42}");
    let ticket = e.begin_send(b"get_health", b"{}").unwrap();
    assert_eq!(ticket.id, 1);
    assert_eq!(
        ticket.frame,
        b"{\"id\":1,\"command\":\"get_health\",\"payload\":{}}\n".to_vec()
    );
    assert!(e.is_pending(1));
    let out = e.route_line(b"{\"id\":1,\"status\":\"success\",\"data\":{\"ok\":true}}");
    assert_eq!(out, RouteOutcome::ResponseDelivered(true));
    assert!(!e.is_pending(1));
    let mut handle = ticket.handle;
    let resp = handle.try_recv().expect("the slot resolved");
    let done = e.finish_send(1, AwaitOutcome::Resolved(resp));
    let resp = done.expect("resolved dispatch succeeds");
    assert_eq!(resp.id, 1);
    match PythonEngine::extract_success_data(resp) {
        Ok(data) => assert_eq!(data, b"{\"ok\":true}".to_vec()),
        Err(_) => panic!("success with data"),
    }
}

#[test]
fn timeout_removes_slot_and_late_response_is_dropped() {
    let mut e = PythonEngine::new();
    e.route_line(b"{\"status\":\"ready\",\"version\":\"1\",\"pid\":1}");
    let ticket = e.begin_send(b"slow", b"{}").unwrap();
    let id = ticket.id;
    match e.finish_send(id, AwaitOutcome::TimedOut) {
        Err(DispatchError::Timeout) => {}
        _ => panic!("a timed-out dispatch reports Timeout"),
    }
    assert!(!e.is_pending(id));
    // the reply that arrives after the timeout is a silent no-op
    let out = e.route_line(b"{\"id\":1,\"status\":\"success\",\"data\":{}}");
    assert_eq!(out, RouteOutcome::ResponseDelivered(false));
    assert_eq!(e.pending_count(), 0);
}

#[test]
fn write_failure_cancels_registration() {
    let mut e = PythonEngine::new();
    e.route_line(b"{\"status\":\"ready\",\"version\":\"1\",\"pid\":1}");
    let ticket = e.begin_send(b"cmd", b"{}").unwrap();
    let err = e.fail_write(ticket.id);
    assert_eq!(err, DispatchError::WriteFailure);
    assert!(!e.is_pending(ticket.id));
}

#[test]
fn worker_exit_fails_all_pending_at_once() {
    let mut e = PythonEngine::new();
    e.route_line(b"{\"status\":\"ready\",\"version\":\"1\",\"pid\":1}");
    let t1 = e.begin_send(b"a", b"{}").unwrap();
    let t2 = e.begin_send(b"b", b"{}").unwrap();
    let t3 = e.begin_send(b"c", b"{}").unwrap();
    assert_eq!(e.pending_count(), 3);
    e.on_process_exit();
    assert!(!e.is_connected());
    assert!(e.get_version().is_none());
    assert_eq!(e.pending_count(), 0);
    // every waiter wakes with a closed channel, not its own timeout
    for t in [t1, t2, t3] {
        let mut handle = t.handle;
        assert!(handle.try_recv().is_err());
        match e.finish_send(t.id, AwaitOutcome::Closed) {
            Err(DispatchError::ChannelClosed) => {}
            _ => panic!("a closed channel reports ChannelClosed"),
        }
    }
}

#[test]
fn ids_stay_distinct_across_dispatches() {
    let mut e = PythonEngine::new();
    e.route_line(b"{\"status\":\"ready\",\"version\":\"1\",\"pid\":1}");
    let a = e.begin_send(b"x", b"{}").unwrap().id;
    let b = e.begin_send(b"x", b"{}").unwrap().id;
    let _ = e.finish_send(a, AwaitOutcome::TimedOut);
    let c = e.begin_send(b"x", b"{}").unwrap().id;
    assert!(a < b && b < c);
}

#[test]
fn responses_in_permuted_order_reach_their_callers() {
    let mut e = PythonEngine::new();
    e.route_line(b"{\"status\":\"ready\",\"version\":\"1\",\"pid\":1}");
    let t1 = e.begin_send(b"a", b"{\"n\":1}").unwrap();
    let t2 = e.begin_send(b"b", b"{\"n\":2}").unwrap();
    let t3 = e.begin_send(b"c", b"{\"n\":3}").unwrap();
    assert_eq!((t1.id, t2.id, t3.id), (1, 2, 3));
    // the worker answers out of order
    e.route_line(b"{\"id\":3,\"status\":\"success\",\"data\":{\"n\":3}}");
    e.route_line(b"{\"id\":1,\"status\":\"success\",\"data\":{\"n\":1}}");
    e.route_line(b"{\"id\":2,\"status\":\"success\",\"data\":{\"n\":2}}");
    let mut h1 = t1.handle;
    let mut h2 = t2.handle;
    let mut h3 = t3.handle;
    assert_eq!(h1.try_recv().unwrap().data, Some(b"{\"n\":1}".to_vec()));
    assert_eq!(h2.try_recv().unwrap().data, Some(b"{\"n\":2}".to_vec()));
    assert_eq!(h3.try_recv().unwrap().data, Some(b"{\"n\":3}".to_vec()));
}

#[test]
fn extract_failure_shapes() {
    let no_data = EngineResponse { id: 1, status: b"success".to_vec(), data: None, error: None };
    assert!(matches!(
        PythonEngine::extract_success_data(no_data),
        Err(CommandFailure::NoData)
    ));
    let reported = EngineResponse {
        id: 2,
        status: b"error".to_vec(),
        data: None,
        error: Some(prism_ipc::codec::EngineError {
            code: b"E1".to_vec(),
            message: b"boom".to_vec(),
        }),
    };
    match PythonEngine::extract_success_data(reported) {
        Err(CommandFailure::Reported(e)) => {
            assert_eq!(e.code, b"E1".to_vec());
            assert_eq!(e.message, b"boom".to_vec());
        }
        _ => panic!("expected the reported error"),
    }
    let unspecified = EngineResponse { id: 3, status: b"error".to_vec(), data: None, error: None };
    assert!(matches!(
        PythonEngine::extract_success_data(unspecified),
        Err(CommandFailure::Unspecified)
    ));
}

#[test]
fn invalid_payload_is_rejected_before_dispatch() {
    let mut e = PythonEngine::new();
    e.route_line(b"{\"status\":\"ready\",\"version\":\"1\",\"pid\":1}");
    // the host checks payload validity before begin_send
    assert!(!prism_ipc::codec::payload_is_valid(b"not json"));
    assert!(prism_ipc::codec::payload_is_valid(b"{\"ok\":1}"));
    let t = e.begin_send(b"cmd", b"{\"ok\":1}").unwrap();
    assert_eq!(
        t.frame,
        b"{\"id\":1,\"command\":\"cmd\",\"payload\":{\"ok\":1}}\n".to_vec()
    );
}
