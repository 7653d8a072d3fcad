use longpoll::cell::{Outcome, Reason, ReqPoll};
use longpoll::registry::Registry;

fn pairs(kvs: &[(&str, &str)]) -> Vec<(String, String)> {
    let mut v: Vec<(String, String)> = Vec::new();
    for (k, val) in kvs {
        v.push((k.to_string(), val.to_string()));
    }
    v
}

#[test]
fn fresh_cell_is_empty() {
    let mut c = ReqPoll::new();
    assert_eq!(c.take(), None);
}

#[test]
fn fulfill_stores_and_take_consumes() {
    let mut c = ReqPoll::new();
    assert!(c.fulfill(Outcome::Delivered(pairs(&[("x", "1")]))));
    assert_eq!(c.take(), Some(Outcome::Delivered(pairs(&[("x", "1")]))));
    assert_eq!(c.take(), None);
}

#[test]
fn second_fulfill_is_a_no_op() {
    let mut c = ReqPoll::new();
    assert!(c.fulfill(Outcome::Delivered(pairs(&[("first", "wins")]))));
    assert!(!c.fulfill(Outcome::Delivered(pairs(&[("second", "loses")]))));
    assert_eq!(c.take(), Some(Outcome::Delivered(pairs(&[("first", "wins")]))));
}

#[test]
fn fulfill_after_take_still_rejected() {
    let mut c = ReqPoll::new();
    assert!(c.fulfill(Outcome::Failed(Reason::CapacityExceeded)));
    assert_eq!(c.take(), Some(Outcome::Failed(Reason::CapacityExceeded)));
    assert!(!c.fulfill(Outcome::Delivered(pairs(&[("late", "value")]))));
    assert_eq!(c.take(), None);
}

#[test]
fn wait_then_notify_delivers() {
    let mut r = Registry::new(10);
    let (w, ev) = r.register_waiter("job".to_string());
    assert_eq!(ev, None);
    let delivered = r.notify(&"job".to_string(), &pairs(&[("x", "1")]));
    assert_eq!(delivered, vec![w]);
    assert_eq!(
        r.take_outcome(w),
        Some(Outcome::Delivered(pairs(&[("x", "1")])))
    );
}

#[test]
fn notify_without_waiters_is_a_no_op() {
    let mut r = Registry::new(10);
    let (w, _) = r.register_waiter("a".to_string());
    let delivered = r.notify(&"b".to_string(), &pairs(&[("y", "2")]));
    assert_eq!(delivered.len(), 0);
    // the waiter under "a" is unaffected and still pending
    assert_eq!(r.take_outcome(w), None);
    let delivered = r.notify(&"a".to_string(), &pairs(&[("x", "1")]));
    assert_eq!(delivered, vec![w]);
}

#[test]
fn notify_empty_registry_returns_zero_deliveries() {
    let mut r = Registry::new(10);
    let delivered = r.notify(&"missing".to_string(), &pairs(&[]));
    assert_eq!(delivered.len(), 0);
}

#[test]
fn broadcast_to_all_matching_waiters() {
    let mut r = Registry::new(10);
    let (w1, _) = r.register_waiter("t".to_string());
    let (w2, _) = r.register_waiter("t".to_string());
    let delivered = r.notify(&"t".to_string(), &pairs(&[("k", "v")]));
    assert_eq!(delivered, vec![w1, w2]);
    assert_eq!(r.take_outcome(w1), Some(Outcome::Delivered(pairs(&[("k", "v")]))));
    assert_eq!(r.take_outcome(w2), Some(Outcome::Delivered(pairs(&[("k", "v")]))));
}

#[test]
fn overflow_evicts_the_oldest() {
    let mut r = Registry::new(1);
    let (w1, ev1) = r.register_waiter("a".to_string());
    assert_eq!(ev1, None);
    let (_w2, ev2) = r.register_waiter("a".to_string());
    assert_eq!(ev2, None);
    let (_w3, ev3) = r.register_waiter("a".to_string());
    assert_eq!(ev3, Some(w1));
    assert_eq!(r.take_outcome(w1), Some(Outcome::Failed(Reason::CapacityExceeded)));
}

#[test]
fn capacity_two_scenario() {
    // max pending = 2; W1("a"), W2("a"), W3("b"), then W4("a") evicts W1.
    let mut r = Registry::new(2);
    let (w1, _) = r.register_waiter("a".to_string());
    let (w2, _) = r.register_waiter("a".to_string());
    let (w3, ev3) = r.register_waiter("b".to_string());
    assert_eq!(ev3, None);
    let (w4, ev4) = r.register_waiter("a".to_string());
    assert_eq!(ev4, Some(w1));
    assert_eq!(r.take_outcome(w1), Some(Outcome::Failed(Reason::CapacityExceeded)));

    let delivered = r.notify(&"a".to_string(), &pairs(&[("x", "1")]));
    assert_eq!(delivered, vec![w2, w4]);
    assert_eq!(r.take_outcome(w2), Some(Outcome::Delivered(pairs(&[("x", "1")]))));
    assert_eq!(r.take_outcome(w4), Some(Outcome::Delivered(pairs(&[("x", "1")]))));
    // W3 remains pending
    assert_eq!(r.take_outcome(w3), None);

    let delivered = r.notify(&"b".to_string(), &pairs(&[("y", "2")]));
    assert_eq!(delivered, vec![w3]);
    assert_eq!(r.take_outcome(w3), Some(Outcome::Delivered(pairs(&[("y", "2")]))));
}

#[test]
fn two_notifies_never_deliver_twice() {
    let mut r = Registry::new(10);
    let (w, _) = r.register_waiter("t".to_string());
    let first = r.notify(&"t".to_string(), &pairs(&[("n", "1")]));
    let second = r.notify(&"t".to_string(), &pairs(&[("n", "2")]));
    assert_eq!(first, vec![w]);
    assert_eq!(second.len(), 0);
    assert_eq!(r.take_outcome(w), Some(Outcome::Delivered(pairs(&[("n", "1")]))));
}
