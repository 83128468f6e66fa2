use sog::gossip::{BroadcastNode, Payload, RETRY_INTERVAL};
use sog::message::{Body, Init, Message, Node, NodeError};

fn node(id: &str, ids: &[&str]) -> BroadcastNode {
    let init = Init { node_id: id.to_string(), node_ids: ids.iter().map(|s| s.to_string()).collect() };
    BroadcastNode::from_init((), init).unwrap()
}

fn msg(src: &str, dst: &str, id: Option<usize>, irt: Option<usize>, payload: Payload) -> Message<Payload> {
    Message {
        src: src.to_string(),
        dst: dst.to_string(),
        body: Body { id, in_reply_to: irt, payload },
    }
}

fn topology(entries: &[(&str, &[&str])]) -> Payload {
    Payload::Topology {
        topology: entries
            .iter()
            .map(|(k, v)| (k.to_string(), v.iter().map(|s| s.to_string()).collect()))
            .collect(),
    }
}

fn read_values(n: &mut BroadcastNode, id: usize) -> Vec<usize> {
    let out = n.step(msg("c1", &n.node.clone(), Some(id), None, Payload::Read), 0).unwrap();
    assert_eq!(out.len(), 1);
    match &out[0].body.payload {
        Payload::ReadOk { messages } => {
            let mut m = messages.clone();
            m.sort();
            m
        }
        other => panic!("unexpected {:?}", other),
    }
}

fn two_nodes() -> (BroadcastNode, BroadcastNode) {
    let t: &[(&str, &[&str])] = &[("n1", &["n2"]), ("n2", &["n1"])];
    let mut a = node("n1", &["n1", "n2"]);
    let mut b = node("n2", &["n1", "n2"]);
    a.step(msg("c1", "n1", Some(1), None, topology(t)), 0).unwrap();
    b.step(msg("c1", "n2", Some(1), None, topology(t)), 0).unwrap();
    (a, b)
}

#[test]
fn broadcast_then_read_and_gossip_reaches_neighbor() {
    let (mut a, mut b) = two_nodes();
    let out = a.step(msg("c1", "n1", Some(2), None, Payload::Broadcast { message: 10 }), 0).unwrap();
    assert_eq!(out.len(), 2);
    assert_eq!(out[0].body.payload, Payload::BroadcastOk);
    assert_eq!(out[0].body.in_reply_to, Some(2));
    assert_eq!(out[1].dst, "n2");
    assert_eq!(out[1].src, "n1");
    assert_eq!(out[1].body.in_reply_to, None);
    assert_eq!(out[1].body.payload, Payload::Broadcast { message: 10 });
    assert_eq!(read_values(&mut a, 3), vec![10]);
    // deliver the gossip to n2
    let back = b.step(out[1].clone(), 5).unwrap();
    assert_eq!(back.len(), 1);
    assert_eq!(back[0].dst, "n1");
    assert_eq!(back[0].body.payload, Payload::BroadcastOk);
    assert_eq!(back[0].body.in_reply_to, out[1].body.id);
    assert_eq!(read_values(&mut b, 4), vec![10]);
    // n2 learned it from n1, its only neighbor: nothing pending there
    assert!(b.pending.is_empty());
    // the acknowledgment clears n1's pending send
    assert_eq!(a.pending.len(), 1);
    let none = a.step(back[0].clone(), 6).unwrap();
    assert!(none.is_empty());
    assert!(a.pending.is_empty());
}

#[test]
fn duplicate_broadcast_fans_out_once() {
    let mut a = node("n1", &["n1", "n2", "n3"]);
    let t: &[(&str, &[&str])] = &[("n1", &["n2", "n3"])];
    a.step(msg("c1", "n1", Some(1), None, topology(t)), 0).unwrap();
    let first = a.step(msg("c1", "n1", Some(2), None, Payload::Broadcast { message: 10 }), 0).unwrap();
    let second = a.step(msg("c1", "n1", Some(3), None, Payload::Broadcast { message: 10 }), 0).unwrap();
    let mut dsts: Vec<String> = first[1..].iter().map(|m| m.dst.clone()).collect();
    dsts.sort();
    assert_eq!(dsts, vec!["n2".to_string(), "n3".to_string()]);
    assert_eq!(second.len(), 1);
    assert_eq!(second[0].body.payload, Payload::BroadcastOk);
    assert_eq!(a.pending.len(), 2);
}

#[test]
fn broadcast_twice_reads_as_once() {
    let mut once = node("n1", &["n1"]);
    let mut twice = node("n1", &["n1"]);
    once.step(msg("c1", "n1", Some(1), None, Payload::Broadcast { message: 4 }), 0).unwrap();
    twice.step(msg("c1", "n1", Some(1), None, Payload::Broadcast { message: 4 }), 0).unwrap();
    twice.step(msg("c1", "n1", Some(2), None, Payload::Broadcast { message: 4 }), 0).unwrap();
    assert_eq!(read_values(&mut once, 9), read_values(&mut twice, 9));
    assert_eq!(twice.messages, vec![4]);
}

#[test]
fn gossip_skips_sender_and_duplicate_neighbors() {
    let mut a = node("n1", &["n1", "n2", "n3"]);
    let t: &[(&str, &[&str])] = &[("n1", &["n2", "n3", "n2"])];
    a.step(msg("c1", "n1", Some(1), None, topology(t)), 0).unwrap();
    let out = a.step(msg("n2", "n1", Some(8), None, Payload::Broadcast { message: 1 }), 0).unwrap();
    assert_eq!(out.len(), 2);
    assert_eq!(out[0].dst, "n2");
    assert_eq!(out[1].dst, "n3");
}

#[test]
fn second_topology_is_refused() {
    let (mut a, _) = two_nodes();
    let before = a.neighborhood.clone();
    assert_eq!(before, Some(vec!["n2".to_string()]));
    let t: &[(&str, &[&str])] = &[("n1", &["n3"])];
    let r = a.step(msg("c1", "n1", Some(9), None, topology(t)), 0);
    assert_eq!(r, Err(NodeError::TopologyAlreadyAssigned));
    assert_eq!(a.neighborhood, before);
}

#[test]
fn topology_without_self_is_refused() {
    let mut a = node("n1", &["n1", "n2"]);
    let t: &[(&str, &[&str])] = &[("n2", &["n1"])];
    let r = a.step(msg("c1", "n1", Some(1), None, topology(t)), 0);
    assert_eq!(r, Err(NodeError::TopologyOmitsSelf));
    assert_eq!(a.neighborhood, None);
    assert_eq!(a.id, 1);
}

#[test]
fn topology_reply_correlates() {
    let mut a = node("n1", &["n1", "n2"]);
    let t: &[(&str, &[&str])] = &[("n1", &["n2"])];
    let out = a.step(msg("c7", "n1", Some(17), None, topology(t)), 0).unwrap();
    assert_eq!(out.len(), 1);
    assert_eq!(out[0].body.payload, Payload::TopologyOk);
    assert_eq!(out[0].body.in_reply_to, Some(17));
    assert_eq!(out[0].dst, "c7");
    assert_eq!(out[0].body.id, Some(1));
}

#[test]
fn ids_strictly_increase_across_calls() {
    let (mut a, _) = two_nodes();
    let mut ids: Vec<usize> = Vec::new();
    for (k, v) in [(2usize, 1usize), (3, 2), (4, 2)] {
        for m in a.step(msg("c1", "n1", Some(k), None, Payload::Broadcast { message: v }), 0).unwrap() {
            ids.push(m.body.id.unwrap());
        }
    }
    for m in a.tick(RETRY_INTERVAL).unwrap() {
        ids.push(m.body.id.unwrap());
    }
    assert!(ids.len() >= 6);
    for w in ids.windows(2) {
        assert!(w[0] < w[1]);
    }
}

#[test]
fn retry_waits_for_interval_then_resends() {
    let (mut a, _) = two_nodes();
    let out = a.step(msg("c1", "n1", Some(2), None, Payload::Broadcast { message: 10 }), 100).unwrap();
    let first_id = out[1].body.id;
    assert!(a.tick(100 + RETRY_INTERVAL - 1).unwrap().is_empty());
    let again = a.tick(100 + RETRY_INTERVAL).unwrap();
    assert_eq!(again.len(), 1);
    assert_eq!(again[0].dst, "n2");
    assert_eq!(again[0].body.payload, Payload::Broadcast { message: 10 });
    assert_eq!(again[0].body.in_reply_to, None);
    assert_ne!(again[0].body.id, first_id);
    assert_eq!(a.pending[0].since, 100 + RETRY_INTERVAL);
    assert_eq!(Some(a.pending[0].msg_id), again[0].body.id);
    // an acknowledgment of the earlier send settles the pair too
    let stale = msg("n2", "n1", Some(1), first_id, Payload::BroadcastOk);
    assert!(a.step(stale, 0).unwrap().is_empty());
    assert!(a.pending.is_empty());
    // a later acknowledgment of the resend finds nothing left to settle
    let fresh = msg("n2", "n1", Some(2), again[0].body.id, Payload::BroadcastOk);
    a.step(fresh, 0).unwrap();
    assert!(a.pending.is_empty());
    assert_eq!(a.sent.len(), 2);
    assert!(a.tick(10 * RETRY_INTERVAL).unwrap().is_empty());
}

#[test]
fn values_before_topology_stay_local() {
    let mut a = node("n1", &["n1", "n2"]);
    let out = a.step(msg("c1", "n1", Some(1), None, Payload::Broadcast { message: 3 }), 0).unwrap();
    assert_eq!(out.len(), 1);
    assert!(a.pending.is_empty());
    assert_eq!(read_values(&mut a, 2), vec![3]);
}

#[test]
fn responses_are_ignored() {
    let mut a = node("n1", &["n1"]);
    let out = a.step(msg("n2", "n1", None, Some(1), Payload::TopologyOk), 0).unwrap();
    assert!(out.is_empty());
    let out = a.step(msg("n2", "n1", None, Some(1), Payload::ReadOk { messages: vec![1] }), 0).unwrap();
    assert!(out.is_empty());
    assert_eq!(a.id, 1);
    assert!(a.messages.is_empty());
}

#[test]
fn exhausted_counter_is_reported() {
    let mut a = node("n1", &["n1"]);
    a.id = usize::MAX;
    let r = a.step(msg("c1", "n1", Some(1), None, Payload::Read), 0);
    assert_eq!(r, Err(NodeError::IdsExhausted));
    assert_eq!(a.id, usize::MAX);
}

#[test]
fn lost_gossip_is_retried_until_the_line_converges() {
    let t: &[(&str, &[&str])] = &[("n1", &["n2"]), ("n2", &["n1", "n3"]), ("n3", &["n2"])];
    let ids = ["n1", "n2", "n3"];
    let mut a = node("n1", &ids);
    let mut b = node("n2", &ids);
    let mut c = node("n3", &ids);
    for (n, name) in [(&mut a, "n1"), (&mut b, "n2"), (&mut c, "n3")] {
        n.step(msg("c1", name, Some(1), None, topology(t)), 0).unwrap();
    }
    let out = a.step(msg("c1", "n1", Some(2), None, Payload::Broadcast { message: 7 }), 0).unwrap();
    assert_eq!(out.len(), 2);
    // the gossip to n2 is lost; a later tick sends it again
    let again = a.tick(RETRY_INTERVAL).unwrap();
    assert_eq!(again.len(), 1);
    let from_b = b.step(again[0].clone(), RETRY_INTERVAL).unwrap();
    assert_eq!(from_b.len(), 2);
    assert_eq!(from_b[0].dst, "n1");
    assert_eq!(from_b[1].dst, "n3");
    let from_c = c.step(from_b[1].clone(), RETRY_INTERVAL).unwrap();
    assert_eq!(from_c.len(), 1);
    assert_eq!(from_c[0].dst, "n2");
    a.step(from_b[0].clone(), RETRY_INTERVAL).unwrap();
    b.step(from_c[0].clone(), RETRY_INTERVAL).unwrap();
    assert!(a.pending.is_empty() && b.pending.is_empty() && c.pending.is_empty());
    assert_eq!(read_values(&mut a, 10), vec![7]);
    assert_eq!(read_values(&mut b, 10), vec![7]);
    assert_eq!(read_values(&mut c, 10), vec![7]);
}

#[test]
fn acknowledgment_clears_only_its_own_pair() {
    let mut a = node("n1", &["n1", "n2"]);
    let t: &[(&str, &[&str])] = &[("n1", &["n2"])];
    a.step(msg("c1", "n1", Some(1), None, topology(t)), 0).unwrap();
    let o1 = a.step(msg("c1", "n1", Some(2), None, Payload::Broadcast { message: 1 }), 0).unwrap();
    a.step(msg("c1", "n1", Some(3), None, Payload::Broadcast { message: 2 }), 0).unwrap();
    assert_eq!(a.pending.len(), 2);
    // an answer from someone else, or to an id never sent there, settles nothing
    a.step(msg("n3", "n1", None, o1[1].body.id, Payload::BroadcastOk), 0).unwrap();
    a.step(msg("n2", "n1", None, Some(999), Payload::BroadcastOk), 0).unwrap();
    assert_eq!(a.pending.len(), 2);
    a.step(msg("n2", "n1", None, o1[1].body.id, Payload::BroadcastOk), 0).unwrap();
    assert_eq!(a.pending.len(), 1);
    assert_eq!(a.pending[0].value, 2);
}

#[test]
fn read_needs_only_one_id() {
    let (mut a, _) = two_nodes();
    a.id = usize::MAX - 1;
    let out = a.step(msg("c1", "n1", Some(1), None, Payload::Read), 0).unwrap();
    assert_eq!(out[0].body.id, Some(usize::MAX - 1));
    let r = a.step(msg("c1", "n1", Some(2), None, Payload::Broadcast { message: 1 }), 0);
    assert_eq!(r, Err(NodeError::IdsExhausted));
}
