//! Properties of the broadcast node that relate several calls.
use vstd::prelude::*;

use crate::gossip::{
    acked_value, answers_send, emits, first_entry, gossip_spec, has_name, settles, step_spec,
    unsettled, BroadcastNode, Payload, PendingAck,
};
use crate::message::{reply_spec, Message, NodeError};

verus! {

/// Broadcasting a value a second time leaves the node as the first
/// broadcast left it, but for the id counter: the same known values (so a
/// read answers the same), no new pending sends, and only the reply goes out.
pub proof fn lemma_broadcast_idempotent(
    n0: BroadcastNode,
    in1: Message<Payload>,
    in2: Message<Payload>,
    v: usize,
    now1: u64,
    now2: u64,
    r1: Result<Vec<Message<Payload>>, NodeError>,
    n1: BroadcastNode,
    r2: Result<Vec<Message<Payload>>, NodeError>,
    n2: BroadcastNode,
)
    requires
        n0.wf(),
        in1.body.payload == (Payload::Broadcast { message: v }),
        in2.body.payload == (Payload::Broadcast { message: v }),
        step_spec(n0, in1, now1, r1, n1),
        step_spec(n1, in2, now2, r2, n2),
        r1 is Ok,
        r2 is Ok,
    ensures
        n1.known() == n0.known().insert(v),
        n2.known() == n1.known(),
        n2.messages == n1.messages,
        n2.pending == n1.pending,
        n2.neighborhood == n1.neighborhood,
        r2->Ok_0@.len() == 1,
{
    if n0.messages@.contains(v) {
        assert(n1.messages == n0.messages);
        assert(n0.known().contains(v));
        assert(n1.known() =~= n0.known().insert(v));
    } else {
        assert(n1.messages@.last() == v);
        assert(n1.messages@.contains(v));
        assert forall|x: usize| n1.known().contains(x) <==> n0.known().insert(v).contains(x) by {
            if n1.known().contains(x) {
                let w = choose|w: int| 0 <= w < n1.messages@.len() && n1.messages@[w] == x;
                if w < n0.messages@.len() {
                    assert(n0.messages@[w] == x);
                }
            }
            if n0.known().contains(x) && x != v {
                let w = choose|w: int| 0 <= w < n0.messages@.len() && n0.messages@[w] == x;
                assert(n1.messages@[w] == x);
            }
        }
        assert(n1.known() =~= n0.known().insert(v));
    }
    assert(n1.messages@.contains(v));
}

/// Broadcasting a value the node already knows changes nothing but the id
/// counter: the known values, the neighbors, the pending sends and the log
/// stay as they are, and the only message out is the `broadcast_ok` reply.
pub proof fn lemma_known_value_changes_nothing(
    n0: BroadcastNode,
    input: Message<Payload>,
    v: usize,
    now: u64,
    r: Result<Vec<Message<Payload>>, NodeError>,
    n1: BroadcastNode,
)
    requires
        n0.wf(),
        n0.known().contains(v),
        input.body.payload == (Payload::Broadcast { message: v }),
        step_spec(n0, input, now, r, n1),
        r is Ok,
    ensures
        n1.messages == n0.messages,
        n1.known() == n0.known(),
        n1.neighborhood == n0.neighborhood,
        n1.pending == n0.pending,
        n1.sent == n0.sent,
        r->Ok_0@ == seq![reply_spec(input, Some(n0.id), Payload::BroadcastOk)],
{
    assert(n0.messages@.contains(v));
    assert(r->Ok_0@ =~= seq![reply_spec(input, Some(n0.id), Payload::BroadcastOk)]);
}

/// A value new to the node goes out to each neighbor but its sender exactly
/// once; broadcasting it again sends no gossip at all.
pub proof fn lemma_duplicate_suppressed(
    n0: BroadcastNode,
    in1: Message<Payload>,
    in2: Message<Payload>,
    v: usize,
    now1: u64,
    now2: u64,
    r1: Result<Vec<Message<Payload>>, NodeError>,
    n1: BroadcastNode,
    r2: Result<Vec<Message<Payload>>, NodeError>,
    n2: BroadcastNode,
    j: int,
)
    requires
        n0.wf(),
        !n0.known().contains(v),
        in1.body.payload == (Payload::Broadcast { message: v }),
        in2.body.payload == (Payload::Broadcast { message: v }),
        step_spec(n0, in1, now1, r1, n1),
        step_spec(n1, in2, now2, r2, n2),
        r1 is Ok,
        r2 is Ok,
        0 <= j < n0.neighbors().len(),
        n0.neighbors()[j]@ != in1.src@,
    ensures
        exists|k: int|
            1 <= k < r1->Ok_0@.len() && r1->Ok_0@[k].dst@ == n0.neighbors()[j]@ && r1->Ok_0@[k].body.payload
                == (Payload::Broadcast { message: v }) && forall|k2: int|
                1 <= k2 < r1->Ok_0@.len() && #[trigger] r1->Ok_0@[k2].dst@ == n0.neighbors()[j]@ ==> k2 == k,
        r2->Ok_0@.len() == 1,
{
    let out = r1->Ok_0@;
    assert(!n0.messages@.contains(v));
    assert(n0.neighbors()[j]@ == n0.neighbors()[j]@);
    let k = choose|k: int| 1 <= k < out.len() && (#[trigger] out[k]).dst@ == n0.neighbors()[j]@;
    assert(out[k].body.payload == (Payload::Broadcast { message: v }));
    assert forall|k2: int| 1 <= k2 < out.len() && #[trigger] out[k2].dst@ == n0.neighbors()[j]@ implies k2 == k by {
        if k2 < k {
            assert(out[k2].dst@ != out[k].dst@);
        } else if k < k2 {
            assert(out[k].dst@ != out[k2].dst@);
        }
    }
    assert(n1.messages@.last() == v);
    assert(n1.messages@.contains(v));
}

/// A request is answered first, by a reply addressed back to its sender
/// whose `in_reply_to` is the request's id; every later message of the same
/// call is a gossip send of a value to a neighbor.
pub proof fn lemma_reply_correlation(
    n0: BroadcastNode,
    input: Message<Payload>,
    now: u64,
    r: Result<Vec<Message<Payload>>, NodeError>,
    n1: BroadcastNode,
)
    requires
        step_spec(n0, input, now, r, n1),
        r is Ok,
        input.body.payload is Broadcast || input.body.payload is Read || input.body.payload is Topology,
    ensures
        r->Ok_0@.len() >= 1,
        r->Ok_0@[0].body.in_reply_to == input.body.id,
        r->Ok_0@[0].dst == input.src,
        r->Ok_0@[0].src == input.dst,
        r->Ok_0@[0].body.id == Some(n0.id),
        forall|k: int|
            1 <= k < r->Ok_0@.len() ==> (#[trigger] r->Ok_0@[k]).body.payload is Broadcast
                && r->Ok_0@[k].body.in_reply_to is None && has_name(n0.neighbors(), r->Ok_0@[k].dst@),
{
    let out = r->Ok_0@;
    if let Payload::Broadcast { message } = input.body.payload {
        if !n0.messages@.contains(message) {
            assert forall|k: int| 1 <= k < out.len() implies (#[trigger] out[k]).body.payload is Broadcast
                && out[k].body.in_reply_to is None && has_name(n0.neighbors(), out[k].dst@) by {
                assert(out[k] == gossip_spec(n0.node, out[k].dst, n0.id + k, message));
            }
        }
    }
}

/// Over any run of calls, each of which emits its messages with the ids
/// that follow the counter, the ids the node sends strictly increase: within
/// one call's messages and from one call to a later one.
pub proof fn lemma_ids_strictly_increase(
    run: Seq<BroadcastNode>,
    outs: Seq<Seq<Message<Payload>>>,
    i: int,
    a: int,
    j: int,
    b: int,
)
    requires
        run.len() == outs.len() + 1,
        forall|t: int| 0 <= t < outs.len() ==> emits(run[t], run[t + 1], #[trigger] outs[t]),
        0 <= i < outs.len(),
        0 <= j < outs.len(),
        0 <= a < outs[i].len(),
        0 <= b < outs[j].len(),
        i < j || (i == j && a < b),
    ensures
        outs[i][a].body.id is Some,
        outs[j][b].body.id is Some,
        outs[i][a].body.id->Some_0 < outs[j][b].body.id->Some_0,
{
    assert(emits(run[i], run[i + 1], outs[i]));
    assert(emits(run[j], run[j + 1], outs[j]));
    assert(outs[i][a].body.id == Some((run[i].id + a) as usize));
    assert(outs[j][b].body.id == Some((run[j].id + b) as usize));
    if i < j {
        lemma_counter_grows(run, outs, i + 1, j);
    }
}

/// Along such a run the id counter never goes down.
proof fn lemma_counter_grows(run: Seq<BroadcastNode>, outs: Seq<Seq<Message<Payload>>>, s: int, t: int)
    requires
        run.len() == outs.len() + 1,
        forall|u: int| 0 <= u < outs.len() ==> emits(run[u], run[u + 1], #[trigger] outs[u]),
        0 <= s <= t < run.len(),
    ensures
        run[s].id <= run[t].id,
    decreases t - s,
{
    if s < t {
        lemma_counter_grows(run, outs, s, t - 1);
        assert(emits(run[t - 1], run[t], outs[t - 1]));
    }
}

/// Once a topology has been accepted, the neighbor list is this node's
/// entry in it, and any later topology is refused with the node unchanged.
pub proof fn lemma_topology_exclusive(
    n0: BroadcastNode,
    in1: Message<Payload>,
    in2: Message<Payload>,
    now1: u64,
    now2: u64,
    r1: Result<Vec<Message<Payload>>, NodeError>,
    n1: BroadcastNode,
    r2: Result<Vec<Message<Payload>>, NodeError>,
    n2: BroadcastNode,
)
    requires
        in1.body.payload is Topology,
        in2.body.payload is Topology,
        step_spec(n0, in1, now1, r1, n1),
        step_spec(n1, in2, now2, r2, n2),
        r1 is Ok,
    ensures
        exists|i: int|
            first_entry(in1.body.payload->topology@, n0.node@, i) && n1.neighborhood == Some(
                in1.body.payload->topology@[i].1,
            ),
        r2 is Err,
        r2->Err_0 == NodeError::TopologyAlreadyAssigned,
        n2 == n1,
{
}

/// Values are never forgotten, and a pending send stays pending until an
/// acknowledgment from its neighbor answers it.
pub proof fn lemma_pending_until_acked(
    n0: BroadcastNode,
    input: Message<Payload>,
    now: u64,
    r: Result<Vec<Message<Payload>>, NodeError>,
    n1: BroadcastNode,
    e: PendingAck,
)
    requires
        step_spec(n0, input, now, r, n1),
        n0.pending@.contains(e),
        !(input.body.payload is BroadcastOk && settles(
            e,
            input.src@,
            acked_value(n0.sent@, input.src@, input.body.in_reply_to),
        )),
    ensures
        n0.known().subset_of(n1.known()),
        n1.pending@.contains(e),
{
    let w = choose|w: int| 0 <= w < n0.pending@.len() && n0.pending@[w] == e;
    assert forall|x: usize| n0.known().contains(x) implies n1.known().contains(x) by {
        let u = choose|u: int| 0 <= u < n0.messages@.len() && n0.messages@[u] == x;
        if n1.messages@ != n0.messages@ {
            assert(n1.messages@[u] == x);
        }
    }
    match input.body.payload {
        Payload::Broadcast { message } => {
            if !n0.exhausted() && !n0.messages@.contains(message) {
                assert(n1.pending@.subrange(0, n0.pending@.len() as int)[w] == e);
                assert(n1.pending@[w] == e);
            }
        },
        Payload::BroadcastOk => {
            lemma_unsettled_keeps(
                n0.pending@,
                input.src@,
                acked_value(n0.sent@, input.src@, input.body.in_reply_to),
                w,
            );
        },
        _ => {},
    }
}

/// An entry that an acknowledgment does not settle survives it.
proof fn lemma_unsettled_keeps(s: Seq<PendingAck>, from: Seq<char>, acked: Option<usize>, w: int)
    requires
        0 <= w < s.len(),
        !settles(s[w], from, acked),
    ensures
        unsettled(s, from, acked).contains(s[w]),
    decreases s.len(),
{
    let rest = s.drop_last();
    if w == s.len() - 1 {
        let u = unsettled(rest, from, acked).push(s.last());
        assert(u[u.len() - 1] == s[w]);
    } else {
        assert(rest[w] == s[w]);
        lemma_unsettled_keeps(rest, from, acked, w);
        let x = choose|x: int| 0 <= x < unsettled(rest, from, acked).len() && unsettled(rest, from, acked)[x] == s[w];
        if !settles(s.last(), from, acked) {
            assert(unsettled(s, from, acked)[x] == s[w]);
        }
    }
}

/// An acknowledgment from neighbor `n` answering any gossip send of `v` to
/// `n` removes the pending send of `v` to `n`, and nothing else.
pub proof fn lemma_ack_settles_its_pair(
    n0: BroadcastNode,
    input: Message<Payload>,
    now: u64,
    r: Result<Vec<Message<Payload>>, NodeError>,
    n1: BroadcastNode,
    k: int,
)
    requires
        n0.wf(),
        input.body.payload is BroadcastOk,
        0 <= k < n0.sent@.len(),
        n0.sent@[k].neighbor@ == input.src@,
        input.body.in_reply_to == Some(n0.sent@[k].msg_id),
        step_spec(n0, input, now, r, n1),
    ensures
        r is Ok,
        r->Ok_0@.len() == 0,
        n1.messages == n0.messages,
        n1.neighborhood == n0.neighborhood,
        forall|e: PendingAck|
            #![trigger n1.pending@.contains(e)]
            n1.pending@.contains(e) <==> (n0.pending@.contains(e) && !(e.neighbor@ == input.src@
                && e.value == n0.sent@[k].value)),
{
    let from = input.src@;
    let irt = input.body.in_reply_to;
    assert(answers_send(n0.sent@, from, irt));
    let c = choose|c: int| 0 <= c < n0.sent@.len() && (#[trigger] n0.sent@[c]).neighbor@ == from && irt == Some(n0.sent@[c].msg_id);
    if c < k {
        assert(n0.sent@[c].msg_id != n0.sent@[k].msg_id);
    } else if k < c {
        assert(n0.sent@[k].msg_id != n0.sent@[c].msg_id);
    }
    let acked = acked_value(n0.sent@, from, irt);
    assert(acked == Some(n0.sent@[k].value));
    assert forall|e: PendingAck|
        #![trigger n1.pending@.contains(e)]
        n1.pending@.contains(e) <==> (n0.pending@.contains(e) && !settles(e, from, acked)) by {
        if n1.pending@.contains(e) {
            lemma_unsettled_sub(n0.pending@, from, acked, e);
        }
        if n0.pending@.contains(e) && !settles(e, from, acked) {
            let w = choose|w: int| 0 <= w < n0.pending@.len() && n0.pending@[w] == e;
            lemma_unsettled_keeps(n0.pending@, from, acked, w);
        }
    }
}

/// What an acknowledgment leaves in place was there before and is not
/// settled by it.
proof fn lemma_unsettled_sub(s: Seq<PendingAck>, from: Seq<char>, acked: Option<usize>, e: PendingAck)
    requires
        unsettled(s, from, acked).contains(e),
    ensures
        s.contains(e),
        !settles(e, from, acked),
    decreases s.len(),
{
    let rest = s.drop_last();
    let u = unsettled(rest, from, acked);
    let x = choose|x: int| 0 <= x < unsettled(s, from, acked).len() && unsettled(s, from, acked)[x] == e;
    if !settles(s.last(), from, acked) && x == u.len() {
        assert(s[s.len() - 1] == e);
    } else {
        assert(u[x] == e);
        lemma_unsettled_sub(rest, from, acked, e);
        let y = choose|y: int| 0 <= y < rest.len() && rest[y] == e;
        assert(s[y] == e);
    }
}

} // verus!
