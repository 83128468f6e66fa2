use sog::echo::{init, EchoNode, Payload as EchoPayload};
use sog::message::{Body, Init, Message, Node};
use sog::unique::{make_guid, Payload, UniqueNode};

#[test]
fn guid_joins_number_and_node() {
    assert_eq!(make_guid(0, &"n1".to_string()), "0_n1");
    assert_eq!(make_guid(1203, &"n7".to_string()), "1203_n7");
}

#[test]
fn generate_answers_with_guid() {
    let mut n = UniqueNode::from_init((), Init { node_id: "n3".to_string(), node_ids: vec![] }).unwrap();
    let req = Message {
        src: "c1".to_string(),
        dst: "n3".to_string(),
        body: Body { id: Some(5), in_reply_to: None, payload: Payload::Generate },
    };
    let out = n.step(req.clone(), 0).unwrap();
    assert_eq!(out.len(), 1);
    assert_eq!(out[0].body.in_reply_to, Some(5));
    assert_eq!(out[0].body.id, Some(1));
    assert_eq!(out[0].body.payload, Payload::GenerateOk { guid: "2_n3".to_string() });
    let out2 = n.step(req, 0).unwrap();
    assert_eq!(out2[0].body.id, Some(3));
    assert_eq!(out2[0].body.payload, Payload::GenerateOk { guid: "4_n3".to_string() });
    assert_eq!(n.id, 5);
    assert!(n.tick(0).unwrap().is_empty());
}

#[test]
fn echo_returns_same_text() {
    let mut n = EchoNode { id: 0 };
    let req = Message {
        src: "c1".to_string(),
        dst: "n1".to_string(),
        body: Body { id: Some(2), in_reply_to: None, payload: EchoPayload::Echo { echo: "hi".to_string() } },
    };
    let out = n.step(req).unwrap();
    assert_eq!(out.len(), 1);
    assert_eq!(out[0].body.payload, EchoPayload::EchoOk { echo: "hi".to_string() });
    assert_eq!(out[0].body.in_reply_to, Some(2));
    assert_eq!(out[0].dst, "c1");
    assert_eq!(n.id, 1);
}

#[test]
fn echo_answers_init() {
    let mut n = EchoNode { id: 4 };
    let req = Message {
        src: "c1".to_string(),
        dst: "n1".to_string(),
        body: Body {
            id: Some(1),
            in_reply_to: None,
            payload: EchoPayload::Init(init { node_id: "n1".to_string(), node_ids: vec!["n1".to_string()] }),
        },
    };
    let out = n.step(req).unwrap();
    assert_eq!(out[0].body.payload, EchoPayload::InitOk);
    assert_eq!(out[0].body.id, Some(4));
    let ignored = Message {
        src: "c1".to_string(),
        dst: "n1".to_string(),
        body: Body { id: None, in_reply_to: Some(1), payload: EchoPayload::InitOk },
    };
    assert!(n.step(ignored).unwrap().is_empty());
}

#[test]
fn generate_refuses_when_counter_is_full() {
    let mut n = UniqueNode { node: "n1".to_string(), id: usize::MAX - 1 };
    let req = Message {
        src: "c1".to_string(),
        dst: "n1".to_string(),
        body: Body { id: Some(1), in_reply_to: None, payload: Payload::Generate },
    };
    assert_eq!(n.step(req, 0), Err(sog::message::NodeError::IdsExhausted));
    assert_eq!(n.id, usize::MAX - 1);
}
