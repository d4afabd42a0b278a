use brightness_adapter::controller::Controller;
use brightness_adapter::request::{Command, Reply, RequestOutcome};

#[test]
fn set_value_returns_command_with_fresh_id() {
    let mut c = Controller::new(10);
    let a = c.set_value(3, 191, 0);
    let b = c.set_value(3, 20, 1);
    assert_eq!(a, Command { id: 0, slot: 3, raw: 191 });
    assert_eq!(b, Command { id: 1, slot: 3, raw: 20 });
    assert_ne!(a.id, b.id);
    assert_eq!(c.pending_count(), 2);
    assert!(c.is_pending(a.id));
    assert!(c.is_pending(b.id));
}

#[test]
fn reply_resolves_request_once() {
    let mut c = Controller::new(10);
    let cmd = c.set_value(3, 191, 0);
    let res = c.on_reply(cmd.id, Reply::Ack(vec![1, 2])).unwrap();
    assert_eq!(res.id, cmd.id);
    assert_eq!(res.slot, 3);
    assert!(matches!(res.outcome, RequestOutcome::Response(ref p) if p == &vec![1, 2]));
    assert!(!c.is_pending(cmd.id));
    assert!(c.on_reply(cmd.id, Reply::Ack(vec![])).is_none());
    assert!(c.on_tick(100).is_empty());
    assert_eq!(c.pending_count(), 0);
}

#[test]
fn transport_error_resolves_with_cause() {
    let mut c = Controller::new(10);
    let cmd = c.set_value(1, 0, 0);
    let res = c.on_reply(cmd.id, Reply::Failed(String::from("channel closed"))).unwrap();
    assert!(matches!(res.outcome, RequestOutcome::TransportError(ref m) if m == "channel closed"));
    assert_eq!(c.pending_count(), 0);
}

#[test]
fn timeout_resolves_and_late_reply_is_ignored() {
    let mut c = Controller::new(10);
    let cmd = c.set_value(2, 26, 5);
    assert!(c.on_tick(14).is_empty());
    assert!(c.is_pending(cmd.id));
    let expired = c.on_tick(15);
    assert_eq!(expired.len(), 1);
    assert_eq!(expired[0].id, cmd.id);
    assert_eq!(expired[0].slot, 2);
    assert!(matches!(expired[0].outcome, RequestOutcome::Timeout));
    assert!(!c.is_pending(cmd.id));
    assert!(c.on_reply(cmd.id, Reply::Ack(vec![])).is_none());
    assert!(c.on_tick(1000).is_empty());
}

#[test]
fn different_slots_resolve_independently() {
    let mut c = Controller::new(10);
    let a = c.set_value(1, 10, 0);
    let b = c.set_value(2, 20, 0);
    let res = c.on_reply(a.id, Reply::Failed(String::from("device unreachable"))).unwrap();
    assert_eq!(res.slot, 1);
    assert!(!c.is_pending(a.id));
    assert!(c.is_pending(b.id));
    let res = c.on_reply(b.id, Reply::Ack(vec![])).unwrap();
    assert_eq!(res.slot, 2);
    assert!(matches!(res.outcome, RequestOutcome::Response(_)));
}

#[test]
fn same_slot_requests_are_tracked_separately() {
    let mut c = Controller::new(10);
    let a = c.set_value(4, 10, 0);
    let b = c.set_value(4, 20, 3);
    let expired = c.on_tick(10);
    assert_eq!(expired.len(), 1);
    assert_eq!(expired[0].id, a.id);
    assert!(c.is_pending(b.id));
    let expired = c.on_tick(13);
    assert_eq!(expired.len(), 1);
    assert_eq!(expired[0].id, b.id);
}

#[test]
fn tick_expires_in_dispatch_order() {
    let mut c = Controller::new(2);
    let a = c.set_value(1, 1, 0);
    let b = c.set_value(2, 2, 1);
    let d = c.set_value(3, 3, 9);
    let expired = c.on_tick(5);
    let ids: Vec<u64> = expired.iter().map(|r| r.id).collect();
    assert_eq!(ids, vec![a.id, b.id]);
    assert!(c.is_pending(d.id));
    assert_eq!(c.pending_count(), 1);
}

#[test]
fn deadline_saturates_at_clock_end() {
    let mut c = Controller::new(10);
    let cmd = c.set_value(1, 1, u64::MAX - 3);
    assert!(c.on_tick(u64::MAX - 1).is_empty());
    let expired = c.on_tick(u64::MAX);
    assert_eq!(expired.len(), 1);
    assert_eq!(expired[0].id, cmd.id);
}

#[test]
fn zero_timeout_expires_on_next_tick() {
    let mut c = Controller::new(0);
    let cmd = c.set_value(1, 1, 7);
    let expired = c.on_tick(7);
    assert_eq!(expired.len(), 1);
    assert_eq!(expired[0].id, cmd.id);
}

#[test]
fn reply_for_unknown_id_changes_nothing() {
    let mut c = Controller::new(10);
    let cmd = c.set_value(1, 1, 0);
    assert!(c.on_reply(cmd.id + 1, Reply::Ack(vec![])).is_none());
    assert!(c.is_pending(cmd.id));
    assert_eq!(c.pending_count(), 1);
}
