//! The correlation table: allocation, single-use slots, cancellation.

use prism_ipc::codec::EngineResponse;
use prism_ipc::table::{CorrelationTable, RegisterError};

fn response(id: u64) -> EngineResponse {
    EngineResponse { id, status: b"success".to_vec(), data: None, error: None }
}

#[test]
fn allocate_is_strictly_increasing() {
    let mut t = CorrelationTable::new();
    let mut last = 0u64;
    for _ in 0..100 {
        let id = t.allocate();
        assert!(id > last || last == 0);
        if last != 0 {
            assert!(id > last);
        }
        last = id;
    }
}

#[test]
fn allocate_starts_at_one_and_never_reuses() {
    let mut t = CorrelationTable::new();
    let a = t.allocate();
    let b = t.allocate();
    assert_eq!(a, 1);
    assert_eq!(b, 2);
    // completion and cancellation do not recycle identifiers
    let _rx = t.register(a).unwrap();
    let _ = t.complete(a, response(a));
    t.cancel(b);
    let c = t.allocate();
    assert_eq!(c, 3);
}

#[test]
fn complete_resolves_exactly_once() {
    let mut t = CorrelationTable::new();
    let id = t.allocate();
    let mut rx = t.register(id).unwrap();
    assert!(t.is_pending(id));
    let first = t.complete(id, response(id));
    assert!(first);
    assert!(!t.is_pending(id));
    let got = rx.try_recv().expect("slot resolved");
    assert_eq!(got.id, id);
    // a second complete is a silent no-op
    let second = t.complete(id, response(id));
    assert!(!second);
}

#[test]
fn complete_after_cancel_is_noop() {
    let mut t = CorrelationTable::new();
    let id = t.allocate();
    let mut rx = t.register(id).unwrap();
    t.cancel(id);
    assert!(!t.is_pending(id));
    // the dropped slot wakes its waiter with a closed channel
    assert!(rx.try_recv().is_err());
    let delivered = t.complete(id, response(id));
    assert!(!delivered);
}

#[test]
fn complete_unknown_id_is_noop() {
    let mut t = CorrelationTable::new();
    let _ = t.allocate();
    assert!(!t.complete(999, response(999)));
    assert_eq!(t.pending_count(), 0);
}

#[test]
fn register_refuses_duplicate_id() {
    let mut t = CorrelationTable::new();
    let id = t.allocate();
    let _rx = t.register(id).unwrap();
    match t.register(id) {
        Err(RegisterError::AlreadyRegistered) => {}
        _ => panic!("duplicate registration must be refused"),
    }
    assert_eq!(t.pending_count(), 1);
}

#[test]
fn permuted_completions_reach_their_own_callers() {
    let mut t = CorrelationTable::new();
    let a = t.allocate();
    let b = t.allocate();
    let c = t.allocate();
    let mut rx_a = t.register(a).unwrap();
    let mut rx_b = t.register(b).unwrap();
    let mut rx_c = t.register(c).unwrap();
    assert_eq!(t.pending_count(), 3);
    // deliveries arrive out of send order
    assert!(t.complete(b, response(b)));
    assert!(t.complete(a, response(a)));
    assert!(t.complete(c, response(c)));
    assert_eq!(rx_a.try_recv().unwrap().id, a);
    assert_eq!(rx_b.try_recv().unwrap().id, b);
    assert_eq!(rx_c.try_recv().unwrap().id, c);
    assert_eq!(t.pending_count(), 0);
}

#[test]
fn cancel_all_wakes_every_waiter() {
    let mut t = CorrelationTable::new();
    let mut rxs = Vec::new();
    for _ in 0..5 {
        let id = t.allocate();
        rxs.push(t.register(id).unwrap());
    }
    assert_eq!(t.pending_count(), 5);
    t.cancel_all();
    assert_eq!(t.pending_count(), 0);
    for mut rx in rxs {
        assert!(rx.try_recv().is_err());
    }
}
