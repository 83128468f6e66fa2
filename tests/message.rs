use sog::message::{handshake, reply, Body, Init, InitPayload, Message, NodeError};

fn msg<P>(src: &str, dst: &str, id: Option<usize>, payload: P) -> Message<P> {
    Message {
        src: src.to_string(),
        dst: dst.to_string(),
        body: Body { id, in_reply_to: None, payload },
    }
}

#[test]
fn into_reply_swaps_addresses_and_takes_counter() {
    let mut counter: usize = 7;
    let r = msg("c1", "n1", Some(3), 42u8).into_reply(Some(&mut counter));
    assert_eq!(r.src, "n1");
    assert_eq!(r.dst, "c1");
    assert_eq!(r.body.id, Some(7));
    assert_eq!(r.body.in_reply_to, Some(3));
    assert_eq!(r.body.payload, 42u8);
    assert_eq!(counter, 8);
}

#[test]
fn into_reply_without_counter_has_no_id() {
    let r = msg("c1", "n1", Some(5), "x").into_reply(None);
    assert_eq!(r.body.id, None);
    assert_eq!(r.body.in_reply_to, Some(5));
    assert_eq!(r.src, "n1");
}

#[test]
fn reply_carries_new_payload() {
    let mut counter: usize = 0;
    let r = reply(msg("a", "b", None, 1u8), &mut counter, "ok");
    assert_eq!(r.body.payload, "ok");
    assert_eq!(r.body.in_reply_to, None);
    assert_eq!(r.body.id, Some(0));
    assert_eq!(counter, 1);
}

#[test]
fn handshake_answers_init_with_init_ok() {
    let init = Init { node_id: "n1".to_string(), node_ids: vec!["n1".to_string(), "n2".to_string()] };
    let first = msg("c1", "n1", Some(1), InitPayload::Init(init.clone()));
    let (got, answer) = handshake(first).unwrap();
    assert_eq!(got, init);
    assert_eq!(answer.src, "n1");
    assert_eq!(answer.dst, "c1");
    assert_eq!(answer.body.in_reply_to, Some(1));
    assert_eq!(answer.body.id, Some(0));
    assert_eq!(answer.body.payload, InitPayload::InitOk);
}

#[test]
fn handshake_refuses_other_first_message() {
    let first = msg("c1", "n1", Some(1), InitPayload::InitOk);
    assert_eq!(handshake(first), Err(NodeError::ExpectedInit));
}
