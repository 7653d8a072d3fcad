use longpoll::cell::{Outcome, Reason};
use longpoll::response::{render_outcome, split_token, WaitReply};

fn pairs(kvs: &[(&str, &str)]) -> Vec<(String, String)> {
    let mut v: Vec<(String, String)> = Vec::new();
    for (k, val) in kvs {
        v.push((k.to_string(), val.to_string()));
    }
    v
}

#[test]
fn split_token_extracts_token_and_payload() {
    let params = pairs(&[("x", "1"), ("token", "job"), ("y", "2")]);
    let (tok, payload) = split_token(&params).expect("token present");
    assert_eq!(tok, "job");
    assert_eq!(payload, pairs(&[("x", "1"), ("y", "2")]));
}

#[test]
fn split_token_rejects_missing_token() {
    let params = pairs(&[("x", "1"), ("y", "2")]);
    assert!(split_token(&params).is_none());
}

#[test]
fn split_token_on_empty_input() {
    assert!(split_token(&pairs(&[])).is_none());
}

#[test]
fn split_token_keeps_first_token_value() {
    let params = pairs(&[("token", "first"), ("token", "second"), ("x", "1")]);
    let (tok, payload) = split_token(&params).expect("token present");
    assert_eq!(tok, "first");
    assert_eq!(payload, pairs(&[("x", "1")]));
}

#[test]
fn render_delivered_encodes_json_object() {
    let reply = render_outcome(&Outcome::Delivered(pairs(&[("x", "1")])));
    assert_eq!(reply, WaitReply::Body("{\"x\":\"1\"}".to_string()));
}

#[test]
fn render_delivered_empty_payload() {
    let reply = render_outcome(&Outcome::Delivered(pairs(&[])));
    assert_eq!(reply, WaitReply::Body("{}".to_string()));
}

#[test]
fn render_delivered_escapes_values() {
    let reply = render_outcome(&Outcome::Delivered(pairs(&[("msg", "a\"b")])));
    assert_eq!(reply, WaitReply::Body("{\"msg\":\"a\\\"b\"}".to_string()));
}

#[test]
fn render_failed_passes_reason_through() {
    let reply = render_outcome(&Outcome::Failed(Reason::CapacityExceeded));
    assert_eq!(reply, WaitReply::Error(Reason::CapacityExceeded));
    let reply = render_outcome(&Outcome::Failed(Reason::SerializationFailure));
    assert_eq!(reply, WaitReply::Error(Reason::SerializationFailure));
}

#[test]
fn render_agrees_with_serde_json() {
    let payload = pairs(&[("alpha", "1"), ("beta", "two words")]);
    let reply = render_outcome(&Outcome::Delivered(payload));
    let expected: std::collections::BTreeMap<&str, &str> =
        [("alpha", "1"), ("beta", "two words")].into_iter().collect();
    assert_eq!(
        reply,
        WaitReply::Body(serde_json::to_string(&expected).expect("string maps encode"))
    );
}
