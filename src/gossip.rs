use vstd::prelude::*;

use crate::message::{reply, reply_spec, Body, Init, Message, Node, NodeError};

verus! {

/// How long, in milliseconds, a gossip send waits for its acknowledgment
/// before it is sent again.
pub const RETRY_INTERVAL: u64 = 500;

/// The payloads that a broadcast node sends and receives.
#[derive(Debug, Clone, PartialEq, Eq)]
pub enum Payload {
    Broadcast { message: usize },
    Read,
    Topology { topology: Vec<(String, Vec<String>)> },
    BroadcastOk,
    TopologyOk,
    ReadOk { messages: Vec<usize> },
}

/// A gossip send of `value` to `neighbor` that has not been acknowledged:
/// the id of its latest send and when that send was made.
#[derive(Debug, Clone, PartialEq, Eq)]
pub struct PendingAck {
    pub neighbor: String,
    pub value: usize,
    pub msg_id: usize,
    pub since: u64,
}

/// One gossip send made by this node: to whom, which value, and the id it
/// carried.
#[derive(Debug, Clone, PartialEq, Eq)]
pub struct SentGossip {
    pub neighbor: String,
    pub value: usize,
    pub msg_id: usize,
}

/// A node that stores the values broadcast to it and gossips each new one
/// to its neighbors until they acknowledge it.
#[derive(Debug, Clone)]
pub struct BroadcastNode {
    /// This node's own id.
    pub node: String,
    /// The members of the cluster.
    pub node_ids: Vec<String>,
    /// The id of the next message this node sends.
    pub id: usize,
    /// The values known here, each once.
    pub messages: Vec<usize>,
    /// The neighbors, once a topology has been accepted.
    pub neighborhood: Option<Vec<String>>,
    /// The gossip sends not yet acknowledged.
    pub pending: Vec<PendingAck>,
    /// Every gossip send made so far, so that an acknowledgment of any of
    /// them can be traced back to its value.
    pub sent: Vec<SentGossip>,
}

/// Whether some name in `ns` is `n`.
pub open spec fn has_name(ns: Seq<String>, n: Seq<char>) -> bool {
    exists|j: int| 0 <= j < ns.len() && #[trigger] ns[j]@ == n
}

/// The gossip message that carries `value` from `node` to `dst` with id `id`.
pub open spec fn gossip_spec(node: String, dst: String, id: int, value: usize) -> Message<Payload> {
    Message {
        src: node,
        dst,
        body: Body { id: Some(id as usize), in_reply_to: None, payload: Payload::Broadcast { message: value } },
    }
}

/// Whether the messages of `out` carry the ids `start`, `start + 1`, ... in order.
pub open spec fn ids_from(out: Seq<Message<Payload>>, start: int) -> bool {
    forall|k: int| 0 <= k < out.len() ==> (#[trigger] out[k]).body.id == Some((start + k) as usize)
}

/// Whether a call that took a node from `old` to `new` and returned `out`
/// gave those messages the ids that follow each other from `old.id` on, and
/// moved the counter past them.
pub open spec fn emits(old: BroadcastNode, new: BroadcastNode, out: Seq<Message<Payload>>) -> bool {
    &&& ids_from(out, old.id as int)
    &&& new.id == old.id + out.len()
}

/// Whether a pending send is due again at time `now`.
pub open spec fn is_due(e: PendingAck, now: u64) -> bool {
    e.since <= now && now - e.since >= RETRY_INTERVAL
}

/// Whether some gossip send in `log` went to `from` with the id `irt`.
pub open spec fn answers_send(log: Seq<SentGossip>, from: Seq<char>, irt: Option<usize>) -> bool {
    exists|k: int| 0 <= k < log.len() && (#[trigger] log[k]).neighbor@ == from && irt == Some(log[k].msg_id)
}

/// The value whose gossip send to `from` had the id `irt`, if there is one.
pub open spec fn acked_value(log: Seq<SentGossip>, from: Seq<char>, irt: Option<usize>) -> Option<usize> {
    if answers_send(log, from, irt) {
        let k = choose|k: int| 0 <= k < log.len() && (#[trigger] log[k]).neighbor@ == from && irt == Some(log[k].msg_id);
        Some(log[k].value)
    } else {
        None
    }
}

/// Whether an acknowledgment from `from` of a send of the value `acked`
/// settles `e`.
pub open spec fn settles(e: PendingAck, from: Seq<char>, acked: Option<usize>) -> bool {
    e.neighbor@ == from && acked == Some(e.value)
}

/// The pending sends of `s` that an acknowledgment from `from` answering
/// `irt` leaves in place, in order.
pub open spec fn unsettled(s: Seq<PendingAck>, from: Seq<char>, irt: Option<usize>) -> Seq<PendingAck>
    decreases s.len(),
{
    if s.len() == 0 {
        s
    } else if settles(s.last(), from, irt) {
        unsettled(s.drop_last(), from, irt)
    } else {
        unsettled(s.drop_last(), from, irt).push(s.last())
    }
}

/// How many of the pending sends of `s` are due at time `now`.
pub open spec fn due_count(s: Seq<PendingAck>, now: u64) -> nat
    decreases s.len(),
{
    if s.len() == 0 {
        0
    } else {
        due_count(s.drop_last(), now) + if is_due(s.last(), now) { 1nat } else { 0nat }
    }
}

/// Whether `i` is the first index of `t` whose entry is for `name`.
pub open spec fn first_entry(t: Seq<(String, Vec<String>)>, name: Seq<char>, i: int) -> bool {
    &&& 0 <= i < t.len()
    &&& t[i].0@ == name
    &&& forall|j: int| 0 <= j < i ==> (#[trigger] t[j]).0@ != name
}

impl BroadcastNode {
    /// The neighbors, empty before a topology is accepted.
    pub open spec fn neighbors(&self) -> Seq<String> {
        match self.neighborhood {
            Some(v) => v@,
            None => Seq::empty(),
        }
    }

    /// The set of known values.
    pub open spec fn known(&self) -> Set<usize> {
        self.messages@.to_set()
    }

    /// Known values are stored once; a pending send is for a known value
    /// and a neighbor; no two pending sends share a neighbor and a value;
    /// the gossip sends made so far have distinct ids, all below the counter.
    pub open spec fn wf(&self) -> bool {
        &&& forall|k: int| 0 <= k < self.sent@.len() ==> (#[trigger] self.sent@[k]).msg_id < self.id
        &&& forall|k1: int, k2: int|
            #![trigger self.sent@[k1], self.sent@[k2]]
            0 <= k1 < k2 < self.sent@.len() ==> self.sent@[k1].msg_id != self.sent@[k2].msg_id
        &&& self.messages@.no_duplicates()
        &&& forall|i: int|
            0 <= i < self.pending@.len() ==> self.messages@.contains(
                (#[trigger] self.pending@[i]).value,
            ) && has_name(self.neighbors(), self.pending@[i].neighbor@)
        &&& forall|i: int, j: int|
            #![trigger self.pending@[i], self.pending@[j]]
            0 <= i < j < self.pending@.len() ==> !(self.pending@[i].neighbor@
                == self.pending@[j].neighbor@ && self.pending@[i].value == self.pending@[j].value)
    }

    /// Whether the id counter lacks room for a reply and one gossip send
    /// to each neighbor.
    pub open spec fn exhausted(&self) -> bool {
        self.id + self.neighbors().len() >= usize::MAX
    }
}

fn contains_value(v: &Vec<usize>, x: usize) -> (r: bool)
    ensures
        r == v@.contains(x),
{
    let mut i: usize = 0;
    while i < v.len()
        invariant
            i <= v.len(),
            forall|j: int| 0 <= j < i ==> v@[j] != x,
        decreases v.len() - i,
    {
        if v[i] == x {
            return true;
        }
        i = i + 1;
    }
    false
}

fn copy_values(v: &Vec<usize>) -> (r: Vec<usize>)
    ensures
        r@ == v@,
{
    let mut r: Vec<usize> = Vec::new();
    let mut i: usize = 0;
    while i < v.len()
        invariant
            i <= v.len(),
            r@ == v@.take(i as int),
        decreases v.len() - i,
    {
        r.push(v[i]);
        i = i + 1;
        assert(r@ =~= v@.take(i as int));
    }
    assert(r@ =~= v@);
    r
}

fn pending_has(p: &Vec<PendingAck>, n: &String, v: usize) -> (r: bool)
    ensures
        r == exists|i: int| 0 <= i < p@.len() && (#[trigger] p@[i]).neighbor@ == n@ && p@[i].value == v,
{
    let mut i: usize = 0;
    while i < p.len()
        invariant
            i <= p.len(),
            forall|j: int| 0 <= j < i ==> !((#[trigger] p@[j]).neighbor@ == n@ && p@[j].value == v),
        decreases p.len() - i,
    {
        if p[i].value == v && p[i].neighbor == *n {
            return true;
        }
        i = i + 1;
    }
    false
}

fn find_entry(t: &Vec<(String, Vec<String>)>, name: &String) -> (r: Option<usize>)
    ensures
        r matches Some(i) ==> first_entry(t@, name@, i as int),
        r is None ==> forall|j: int| 0 <= j < t@.len() ==> (#[trigger] t@[j]).0@ != name@,
{
    let mut i: usize = 0;
    while i < t.len()
        invariant
            i <= t.len(),
            forall|j: int| 0 <= j < i ==> (#[trigger] t@[j]).0@ != name@,
        decreases t.len() - i,
    {
        if t[i].0 == *name {
            return Some(i);
        }
        i = i + 1;
    }
    None
}


/// Whether `p` is a `read_ok` that lists exactly the values `m`, in order.
pub open spec fn read_ok_of(p: Payload, m: Seq<usize>) -> bool {
    match p {
        Payload::ReadOk { messages } => messages@ == m,
        _ => false,
    }
}

/// Whether `a` and `b` agree in every field but the id counter.
pub open spec fn same_but_id(a: BroadcastNode, b: BroadcastNode) -> bool {
    &&& a.node == b.node
    &&& a.node_ids == b.node_ids
    &&& a.messages == b.messages
    &&& a.neighborhood == b.neighborhood
    &&& a.pending == b.pending
    &&& a.sent == b.sent
}

/// The gossip sends `out[1..]` that a new value `v` from `sender` causes,
/// and the pending sends `np` and the log of sends `ns` after them: one send, with a fresh id, to each
/// distinct neighbor but the sender, each recorded after the earlier pending
/// sends. Only the neighbors at indices below `upto` are owed a send.
pub open spec fn fanout_upto(
    old: BroadcastNode,
    sender: Seq<char>,
    v: usize,
    now: u64,
    out: Seq<Message<Payload>>,
    np: Seq<PendingAck>,
    ns: Seq<SentGossip>,
    upto: int,
) -> bool {
    let base = old.pending@.len();
    let sbase = old.sent@.len();
    &&& out.len() >= 1
    &&& np.len() == base + out.len() - 1
    &&& np.subrange(0, base as int) == old.pending@
    &&& ns.len() == sbase + out.len() - 1
    &&& ns.subrange(0, sbase as int) == old.sent@
    &&& forall|k: int|
        1 <= k < out.len() ==> {
            &&& #[trigger] out[k] == gossip_spec(old.node, out[k].dst, old.id + k, v)
            &&& np[base + k - 1] == PendingAck {
                neighbor: out[k].dst,
                value: v,
                msg_id: (old.id + k) as usize,
                since: now,
            }
            &&& ns[sbase + k - 1] == SentGossip { neighbor: out[k].dst, value: v, msg_id: (old.id + k) as usize }
            &&& has_name(old.neighbors(), out[k].dst@)
            &&& out[k].dst@ != sender
        }
    &&& forall|k1: int, k2: int|
        #![trigger out[k1], out[k2]]
        1 <= k1 < k2 < out.len() ==> out[k1].dst@ != out[k2].dst@
    &&& forall|j: int|
        0 <= j < upto && (#[trigger] old.neighbors()[j])@ != sender ==> exists|k: int|
            1 <= k < out.len() && (#[trigger] out[k]).dst@ == old.neighbors()[j]@
}

/// What a `broadcast` of `v` does: a `broadcast_ok` reply first; a known
/// value changes nothing more; a new value is stored and gossiped.
pub open spec fn broadcast_spec<P>(
    old: BroadcastNode,
    req: Message<P>,
    v: usize,
    now: u64,
    out: Seq<Message<Payload>>,
    new: BroadcastNode,
) -> bool {
    &&& out.len() >= 1
    &&& out[0] == reply_spec(req, Some(old.id), Payload::BroadcastOk)
    &&& new.id == old.id + out.len()
    &&& new.node == old.node
    &&& new.node_ids == old.node_ids
    &&& new.neighborhood == old.neighborhood
    &&& if old.messages@.contains(v) {
        &&& out.len() == 1
        &&& new.messages == old.messages
        &&& new.pending == old.pending
        &&& new.sent == old.sent
    } else {
        &&& new.messages@ == old.messages@.push(v)
        &&& fanout_upto(old, req.src@, v, now, out, new.pending@, new.sent@, old.neighbors().len() as int)
    }
}

/// What a `topology` message with entries `t` does: it is refused once a
/// topology is in place, or when `t` has no entry for this node; otherwise
/// this node's first entry becomes its neighbor list.
pub open spec fn topology_spec<P>(
    old: BroadcastNode,
    req: Message<P>,
    t: Seq<(String, Vec<String>)>,
    r: Result<Vec<Message<Payload>>, NodeError>,
    new: BroadcastNode,
) -> bool {
    if old.neighborhood is Some {
        r is Err && r->Err_0 == NodeError::TopologyAlreadyAssigned && new == old
    } else if forall|j: int| 0 <= j < t.len() ==> (#[trigger] t[j]).0@ != old.node@ {
        r is Err && r->Err_0 == NodeError::TopologyOmitsSelf && new == old
    } else {
        &&& r is Ok
        &&& r->Ok_0@ == seq![reply_spec(req, Some(old.id), Payload::TopologyOk)]
        &&& exists|i: int| first_entry(t, old.node@, i) && new.neighborhood == Some(t[i].1)
        &&& new.id == old.id + 1
        &&& new.node == old.node
        &&& new.node_ids == old.node_ids
        &&& new.messages == old.messages
        &&& new.pending == old.pending
        &&& new.sent == old.sent
    }
}

/// What a retry tick at time `now` does: each pending send that is due is
/// sent again, in order, with a fresh id, logged, and restarts its wait.
pub open spec fn retry_spec(old: BroadcastNode, now: u64, out: Seq<Message<Payload>>, new: BroadcastNode) -> bool {
    &&& out.len() == due_count(old.pending@, now)
    &&& ids_from(out, old.id as int)
    &&& new.id == old.id + out.len()
    &&& new.node == old.node
    &&& new.node_ids == old.node_ids
    &&& new.messages == old.messages
    &&& new.neighborhood == old.neighborhood
    &&& new.pending@.len() == old.pending@.len()
    &&& new.sent@.len() == old.sent@.len() + out.len()
    &&& new.sent@.subrange(0, old.sent@.len() as int) == old.sent@
    &&& forall|j: int| 0 <= j < old.pending@.len() ==> #[trigger] retry_entry(old, now, out, new, j)
}

/// What a retry tick does to pending send `j`: a due one is sent again as
/// `out[k]` with the id `old.id + k`, logged, and restarts its wait, `k`
/// the number of due sends before it; another one is left as it is.
pub open spec fn retry_entry(
    old: BroadcastNode,
    now: u64,
    out: Seq<Message<Payload>>,
    new: BroadcastNode,
    j: int,
) -> bool {
    if is_due(old.pending@[j], now) {
        let k = due_count(old.pending@.take(j), now);
        &&& new.sent@[(old.sent@.len() + k) as int] == SentGossip {
            neighbor: old.pending@[j].neighbor,
            value: old.pending@[j].value,
            msg_id: (old.id + k) as usize,
        }
        &&& new.pending@[j] == PendingAck {
            neighbor: old.pending@[j].neighbor,
            value: old.pending@[j].value,
            msg_id: (old.id + k) as usize,
            since: now,
        }
        &&& out[k as int] == gossip_spec(old.node, old.pending@[j].neighbor, old.id + k, old.pending@[j].value)
    } else {
        new.pending@[j] == old.pending@[j]
    }
}

impl BroadcastNode {
    fn accept_value(&mut self, req: Message<()>, v: usize, now: u64) -> (out: Vec<Message<Payload>>)
        requires
            old(self).wf(),
            !old(self).exhausted(),
        ensures
            broadcast_spec(*old(self), req, v, now, out@, *final(self)),
            final(self).wf(),
    {
        let ghost g_req = req;
        let sender = req.src.clone();
        let first = reply(req, &mut self.id, Payload::BroadcastOk);
        let mut out: Vec<Message<Payload>> = Vec::new();
        out.push(first);
        if contains_value(&self.messages, v) {
            return out;
        }
        self.messages.push(v);
        proof {
            assert(self.pending@.subrange(0, self.pending@.len() as int) =~= self.pending@);
            assert(self.sent@.subrange(0, self.sent@.len() as int) =~= self.sent@);
            assert forall|i: int| 0 <= i < self.pending@.len() implies self.messages@.contains(
                (#[trigger] self.pending@[i]).value,
            ) by {
                let w = choose|w: int| 0 <= w < old(self).messages@.len() && old(self).messages@[w] == self.pending@[i].value;
                assert(self.messages@[w] == self.pending@[i].value);
            }
        }
        let n_len: usize = match &self.neighborhood {
            Some(ns) => ns.len(),
            None => 0,
        };
        let mut i: usize = 0;
        while i < n_len
            invariant
                n_len == old(self).neighbors().len(),
                i <= n_len,
                old(self).id + n_len < usize::MAX,
                !old(self).messages@.contains(v),
                old(self).wf(),
                sender@ == g_req.src@,
                self.node == old(self).node,
                self.node_ids == old(self).node_ids,
                self.neighborhood == old(self).neighborhood,
                self.messages@ == old(self).messages@.push(v),
                out@.len() <= i + 1,
                out@[0] == reply_spec(g_req, Some(old(self).id), Payload::BroadcastOk),
                self.id == old(self).id + out@.len(),
                fanout_upto(*old(self), sender@, v, now, out@, self.pending@, self.sent@, i as int),
                self.wf(),
            decreases n_len - i,
        {
            let n: String = match &self.neighborhood {
                Some(ns) => ns[i].clone(),
                None => String::new(),
            };
            assert(n == old(self).neighbors()[i as int]);
            let ghost base = old(self).pending@.len();
            if !(n == sender) && !pending_has(&self.pending, &n, v) {
                let id = self.id;
                self.id = id + 1;
                let ghost prev_out = out@;
                let ghost prev_pending = self.pending@;
                let ghost prev_sent = self.sent@;
                self.pending.push(PendingAck { neighbor: n.clone(), value: v, msg_id: id, since: now });
                self.sent.push(SentGossip { neighbor: n.clone(), value: v, msg_id: id });
                out.push(
                    Message {
                        src: self.node.clone(),
                        dst: n,
                        body: Body { id: Some(id), in_reply_to: None, payload: Payload::Broadcast { message: v } },
                    },
                );
                proof {
                    let kn = out@.len() - 1;
                    assert(has_name(old(self).neighbors(), out@[kn].dst@));
                    assert(self.pending@.subrange(0, base as int) =~= prev_pending.subrange(0, base as int));
                    let sbase = old(self).sent@.len();
                    assert(self.sent@.subrange(0, sbase as int) =~= prev_sent.subrange(0, sbase as int));
                    assert forall|k: int| 0 <= k < self.sent@.len() implies (#[trigger] self.sent@[k]).msg_id < self.id by {
                        if k < prev_sent.len() {
                            assert(self.sent@[k] == prev_sent[k]);
                        }
                    }
                    assert forall|k1: int, k2: int|
                        #![trigger self.sent@[k1], self.sent@[k2]]
                        0 <= k1 < k2 < self.sent@.len() implies self.sent@[k1].msg_id != self.sent@[k2].msg_id by {
                        assert(self.sent@[k1] == prev_sent[k1]);
                        if k2 < prev_sent.len() {
                            assert(self.sent@[k2] == prev_sent[k2]);
                        }
                    }
                    assert forall|k1: int, k2: int|
                        #![trigger out@[k1], out@[k2]]
                        1 <= k1 < k2 < out@.len() implies out@[k1].dst@ != out@[k2].dst@ by {
                        if k2 == kn {
                            assert(prev_pending[base + k1 - 1].neighbor@ == out@[k1].dst@);
                        }
                    }
                    assert forall|j: int|
                        0 <= j < i + 1 && (#[trigger] old(self).neighbors()[j])@ != sender@ implies exists|k: int|
                        1 <= k < out@.len() && (#[trigger] out@[k]).dst@ == old(self).neighbors()[j]@ by {
                        if j == i {
                            assert(out@[kn].dst@ == old(self).neighbors()[j]@);
                        } else {
                            let k = choose|k: int| 1 <= k < prev_out.len() && (#[trigger] prev_out[k]).dst@ == old(self).neighbors()[j]@;
                            assert(out@[k] == prev_out[k]);
                        }
                    }
                    assert forall|a: int| 0 <= a < self.pending@.len() implies self.messages@.contains(
                        (#[trigger] self.pending@[a]).value,
                    ) && has_name(self.neighbors(), self.pending@[a].neighbor@) by {
                        if a == self.pending@.len() - 1 {
                            assert(self.messages@[self.messages@.len() - 1] == v);
                        } else {
                            assert(self.pending@[a] == prev_pending[a]);
                        }
                    }
                }
            } else {
                proof {
                    if !(n@ == sender@) {
                        let w = choose|w: int| 0 <= w < self.pending@.len() && (#[trigger] self.pending@[w]).neighbor@ == n@ && self.pending@[w].value == v;
                        if w < base {
                            assert(self.pending@[w] == old(self).pending@[w]);
                            assert(old(self).messages@.contains(old(self).pending@[w].value));
                        }
                        let k = w - base + 1;
                        assert(out@[k].dst@ == n@);
                    }
                }
            }
            i = i + 1;
        }
        out
    }
}

/// Whether entry `j` of the pending sends `p` has been handled by a retry at
/// time `now`, with ids drawn from `base`: `fresh[j]` is the entry after it and
/// a due entry was sent again as `out[k]` and logged as `sends[k]`, `k` the
/// number of due entries before it.
pub open spec fn retried_at(
    p: Seq<PendingAck>,
    now: u64,
    base: int,
    node: String,
    fresh: Seq<PendingAck>,
    out: Seq<Message<Payload>>,
    sends: Seq<SentGossip>,
    j: int,
) -> bool {
    if is_due(p[j], now) {
        let k = due_count(p.take(j), now);
        &&& k < out.len()
        &&& k < sends.len()
        &&& sends[k as int] == SentGossip { neighbor: p[j].neighbor, value: p[j].value, msg_id: (base + k) as usize }
        &&& fresh[j] == PendingAck {
            neighbor: p[j].neighbor,
            value: p[j].value,
            msg_id: (base + k) as usize,
            since: now,
        }
        &&& out[k as int] == gossip_spec(node, p[j].neighbor, base + k, p[j].value)
    } else {
        fresh[j] == p[j]
    }
}

/// Whether the entries of `p` below `i` have been handled by a retry.
pub open spec fn retried_upto(
    p: Seq<PendingAck>,
    now: u64,
    base: int,
    node: String,
    fresh: Seq<PendingAck>,
    out: Seq<Message<Payload>>,
    sends: Seq<SentGossip>,
    i: int,
) -> bool {
    forall|j: int| 0 <= j < i ==> #[trigger] retried_at(p, now, base, node, fresh, out, sends, j)
}

impl BroadcastNode {
    fn answer_read(&mut self, req: Message<()>) -> (out: Vec<Message<Payload>>)
        requires
            old(self).id < usize::MAX,
        ensures
            out@.len() == 1,
            out@[0].src == req.dst,
            out@[0].dst == req.src,
            out@[0].body.id == Some(old(self).id),
            out@[0].body.in_reply_to == req.body.id,
            read_ok_of(out@[0].body.payload, old(self).messages@),
            final(self).id == old(self).id + 1,
            same_but_id(*old(self), *final(self)),
    {
        let messages = copy_values(&self.messages);
        let r = reply(req, &mut self.id, Payload::ReadOk { messages });
        let mut out: Vec<Message<Payload>> = Vec::new();
        out.push(r);
        out
    }

    fn accept_topology(&mut self, req: Message<()>, topology: Vec<(String, Vec<String>)>) -> (r: Result<
        Vec<Message<Payload>>,
        NodeError,
    >)
        requires
            old(self).wf(),
            old(self).id < usize::MAX,
        ensures
            topology_spec(*old(self), req, topology@, r, *final(self)),
            final(self).wf(),
    {
        if self.neighborhood.is_some() {
            return Err(NodeError::TopologyAlreadyAssigned);
        }
        let mut topology = topology;
        match find_entry(&topology, &self.node) {
            None => Err(NodeError::TopologyOmitsSelf),
            Some(i) => {
                let ghost t = topology@;
                let entry = topology.remove(i);
                self.neighborhood = Some(entry.1);
                let r = reply(req, &mut self.id, Payload::TopologyOk);
                let mut out: Vec<Message<Payload>> = Vec::new();
                out.push(r);
                assert(out@ =~= seq![reply_spec(req, Some(old(self).id), Payload::TopologyOk)]);
                assert(first_entry(t, old(self).node@, i as int));
                Ok(out)
            },
        }
    }

    /// The value whose gossip send to `from` had the id `irt`, if any.
    fn acked_by(&self, from: &String, irt: Option<usize>) -> (r: Option<usize>)
        requires
            self.wf(),
        ensures
            r == acked_value(self.sent@, from@, irt),
    {
        let mut i: usize = 0;
        while i < self.sent.len()
            invariant
                self.wf(),
                i <= self.sent@.len(),
                forall|j: int|
                    0 <= j < i ==> !((#[trigger] self.sent@[j]).neighbor@ == from@ && irt == Some(
                        self.sent@[j].msg_id,
                    )),
            decreases self.sent@.len() - i,
        {
            let g = &self.sent[i];
            if g.neighbor == *from && irt == Some(g.msg_id) {
                proof {
                    let k = choose|k: int|
                        0 <= k < self.sent@.len() && (#[trigger] self.sent@[k]).neighbor@ == from@ && irt
                            == Some(self.sent@[k].msg_id);
                    if k < i {
                        assert(self.sent@[k].msg_id != self.sent@[i as int].msg_id);
                    } else if k > i {
                        assert(self.sent@[i as int].msg_id != self.sent@[k].msg_id);
                    }
                }
                return Some(g.value);
            }
            i = i + 1;
        }
        None
    }

    fn settle(&mut self, from: &String, acked: Option<usize>)
        requires
            old(self).wf(),
        ensures
            final(self).pending@ == unsettled(old(self).pending@, from@, acked),
            final(self).sent == old(self).sent,
            final(self).id == old(self).id,
            final(self).node == old(self).node,
            final(self).node_ids == old(self).node_ids,
            final(self).messages == old(self).messages,
            final(self).neighborhood == old(self).neighborhood,
            final(self).wf(),
    {
        let mut kept: Vec<PendingAck> = Vec::new();
        let mut i: usize = 0;
        while i < self.pending.len()
            invariant
                *self == *old(self),
                old(self).wf(),
                i <= self.pending@.len(),
                kept@ == unsettled(self.pending@.take(i as int), from@, acked),
                forall|k: int|
                    0 <= k < kept@.len() ==> exists|a: int|
                        0 <= a < i && (#[trigger] kept@[k]) == self.pending@[a],
                forall|k1: int, k2: int|
                    #![trigger kept@[k1], kept@[k2]]
                    0 <= k1 < k2 < kept@.len() ==> !(kept@[k1].neighbor@ == kept@[k2].neighbor@
                        && kept@[k1].value == kept@[k2].value),
            decreases self.pending@.len() - i,
        {
            let e = &self.pending[i];
            let ghost prev = kept@;
            assert(self.pending@.take(i + 1).drop_last() =~= self.pending@.take(i as int));
            if !(e.neighbor == *from && acked == Some(e.value)) {
                kept.push(PendingAck { neighbor: e.neighbor.clone(), value: e.value, msg_id: e.msg_id, since: e.since });
                proof {
                    assert forall|k: int| 0 <= k < kept@.len() implies exists|a: int|
                        0 <= a < i + 1 && (#[trigger] kept@[k]) == self.pending@[a] by {
                        if k == kept@.len() - 1 {
                            assert(kept@[k] == self.pending@[i as int]);
                        } else {
                            assert(kept@[k] == prev[k]);
                        }
                    }
                    assert forall|k1: int, k2: int|
                        #![trigger kept@[k1], kept@[k2]]
                        0 <= k1 < k2 < kept@.len() implies !(kept@[k1].neighbor@ == kept@[k2].neighbor@
                        && kept@[k1].value == kept@[k2].value) by {
                        if k2 == kept@.len() - 1 {
                            let a = choose|a: int| 0 <= a < i && (#[trigger] prev[k1]) == self.pending@[a];
                            assert(self.pending@[a] == kept@[k1]);
                            assert(!(self.pending@[a].neighbor@ == self.pending@[i as int].neighbor@
                                && self.pending@[a].value == self.pending@[i as int].value));
                        }
                    }
                }
            } else {
                proof {
                    assert(settles(self.pending@[i as int], from@, acked));
                }
            }
            i = i + 1;
        }
        assert(self.pending@.take(self.pending@.len() as int) =~= self.pending@);
        self.pending = kept;
        proof {
            assert forall|k: int| 0 <= k < self.pending@.len() implies self.messages@.contains(
                (#[trigger] self.pending@[k]).value,
            ) && has_name(self.neighbors(), self.pending@[k].neighbor@) by {
                let a = choose|a: int| 0 <= a < old(self).pending@.len() && (#[trigger] kept@[k]) == old(self).pending@[a];
                assert(old(self).pending@[a] == self.pending@[k]);
            }
        }
    }

    fn retry(&mut self, now: u64) -> (out: Vec<Message<Payload>>)
        requires
            old(self).wf(),
            old(self).id + old(self).pending@.len() < usize::MAX,
        ensures
            retry_spec(*old(self), now, out@, *final(self)),
            final(self).wf(),
    {
        let mut out: Vec<Message<Payload>> = Vec::new();
        let mut fresh: Vec<PendingAck> = Vec::new();
        let mut sends: Vec<SentGossip> = Vec::new();
        let mut next: usize = self.id;
        let mut i: usize = 0;
        let ghost p = self.pending@;
        while i < self.pending.len()
            invariant
                *self == *old(self),
                p == self.pending@,
                i <= p.len(),
                old(self).id + p.len() < usize::MAX,
                out@.len() == due_count(p.take(i as int), now),
                out@.len() <= i,
                next == self.id + out@.len(),
                ids_from(out@, self.id as int),
                fresh@.len() == i,
                sends@.len() == out@.len(),
                forall|k: int| 0 <= k < sends@.len() ==> (#[trigger] sends@[k]).msg_id == self.id + k,
                retried_upto(p, now, self.id as int, self.node, fresh@, out@, sends@, i as int),
            decreases p.len() - i,
        {
            let e = &self.pending[i];
            let ghost prev_out = out@;
            let ghost prev_fresh = fresh@;
            let ghost prev_sends = sends@;
            assert(p.take(i + 1).drop_last() =~= p.take(i as int));
            if e.since <= now && now - e.since >= RETRY_INTERVAL {
                fresh.push(PendingAck { neighbor: e.neighbor.clone(), value: e.value, msg_id: next, since: now });
                sends.push(SentGossip { neighbor: e.neighbor.clone(), value: e.value, msg_id: next });
                out.push(
                    Message {
                        src: self.node.clone(),
                        dst: e.neighbor.clone(),
                        body: Body { id: Some(next), in_reply_to: None, payload: Payload::Broadcast { message: e.value } },
                    },
                );
                next = next + 1;
            } else {
                fresh.push(PendingAck { neighbor: e.neighbor.clone(), value: e.value, msg_id: e.msg_id, since: e.since });
            }
            proof {
                let j = i as int;
                if is_due(p[j], now) {
                    assert(due_count(p.take(j), now) == prev_out.len());
                    assert(fresh@[j].msg_id == (self.id + prev_out.len()) as usize);
                    assert(out@[prev_out.len() as int] == gossip_spec(self.node, p[j].neighbor, self.id + prev_out.len(), p[j].value));
                } else {
                    assert(fresh@[j] == p[j]);
                }
                assert forall|k: int| 0 <= k < sends@.len() implies (#[trigger] sends@[k]).msg_id == self.id + k by {
                    if k < prev_sends.len() {
                        assert(sends@[k] == prev_sends[k]);
                    }
                }
                assert forall|j: int| 0 <= j < i + 1 implies retried_at(p, now, self.id as int, self.node, fresh@, out@, sends@, j) by {
                    if j < i {
                        assert(retried_at(p, now, self.id as int, self.node, prev_fresh, prev_out, prev_sends, j));
                    }
                }
            }
            i = i + 1;
        }
        assert(p.take(p.len() as int) =~= p);
        let ghost gs = sends@;
        self.pending = fresh;
        self.sent.append(&mut sends);
        self.id = next;
        proof {
            let base = old(self).id as int;
            let node = old(self).node;
            let sbase = old(self).sent@.len();
            assert(self.sent@.subrange(0, sbase as int) =~= old(self).sent@);
            assert forall|k: int| 0 <= k < self.sent@.len() implies (#[trigger] self.sent@[k]).msg_id < self.id by {
                if k >= sbase {
                    assert(self.sent@[k] == gs[k - sbase]);
                } else {
                    assert(self.sent@[k] == old(self).sent@[k]);
                }
            }
            assert forall|k1: int, k2: int|
                #![trigger self.sent@[k1], self.sent@[k2]]
                0 <= k1 < k2 < self.sent@.len() implies self.sent@[k1].msg_id != self.sent@[k2].msg_id by {
                if k2 >= sbase {
                    assert(self.sent@[k2] == gs[k2 - sbase]);
                    if k1 >= sbase {
                        assert(self.sent@[k1] == gs[k1 - sbase]);
                    } else {
                        assert(self.sent@[k1] == old(self).sent@[k1]);
                    }
                } else {
                    assert(self.sent@[k1] == old(self).sent@[k1]);
                    assert(self.sent@[k2] == old(self).sent@[k2]);
                }
            }
            assert forall|a: int| 0 <= a < self.pending@.len() implies self.messages@.contains(
                (#[trigger] self.pending@[a]).value,
            ) && has_name(self.neighbors(), self.pending@[a].neighbor@) by {
                assert(retried_at(p, now, base, node, self.pending@, out@, gs, a));
                assert(old(self).messages@.contains(p[a].value));
            }
            assert forall|a: int, b: int|
                #![trigger self.pending@[a], self.pending@[b]]
                0 <= a < b < self.pending@.len() implies !(self.pending@[a].neighbor@
                == self.pending@[b].neighbor@ && self.pending@[a].value == self.pending@[b].value) by {
                assert(retried_at(p, now, base, node, self.pending@, out@, gs, a));
                assert(retried_at(p, now, base, node, self.pending@, out@, gs, b));
                assert(!(p[a].neighbor@ == p[b].neighbor@ && p[a].value == p[b].value));
            }
        }
        assert forall|j: int| 0 <= j < old(self).pending@.len() implies #[trigger] retry_entry(*old(self), now, out@, *self, j) by {
            assert(retried_at(p, now, old(self).id as int, old(self).node, self.pending@, out@, gs, j));
            if is_due(p[j], now) {
                let k = due_count(p.take(j), now);
                assert(self.sent@[(old(self).sent@.len() + k) as int] == gs[k as int]);
            }
        }
        out
    }
}

/// Whether `out` answers `req` as a reply with id `id`.
pub open spec fn answers<P>(out: Message<Payload>, req: Message<P>, id: usize) -> bool {
    &&& out.src == req.dst
    &&& out.dst == req.src
    &&& out.body.id == Some(id)
    &&& out.body.in_reply_to == req.body.id
}

/// The outcome of handling `input` at time `now` on a node in state `old`:
/// the result `r` and the new state `new`.
pub open spec fn step_spec(
    old: BroadcastNode,
    input: Message<Payload>,
    now: u64,
    r: Result<Vec<Message<Payload>>, NodeError>,
    new: BroadcastNode,
) -> bool {
    match input.body.payload {
        Payload::Broadcast { message } => if old.exhausted() {
            r is Err && r->Err_0 == NodeError::IdsExhausted && new == old
        } else {
            r is Ok && broadcast_spec(old, input, message, now, r->Ok_0@, new)
        },
        Payload::Read => if old.id == usize::MAX {
            r is Err && r->Err_0 == NodeError::IdsExhausted && new == old
        } else {
            &&& r is Ok
            &&& r->Ok_0@.len() == 1
            &&& answers(r->Ok_0@[0], input, old.id)
            &&& read_ok_of(r->Ok_0@[0].body.payload, old.messages@)
            &&& new.id == old.id + 1
            &&& same_but_id(old, new)
        },
        Payload::Topology { topology } => if old.neighborhood is None && old.exhausted() {
            r is Err && r->Err_0 == NodeError::IdsExhausted && new == old
        } else {
            topology_spec(old, input, topology@, r, new)
        },
        Payload::BroadcastOk => {
            &&& r is Ok
            &&& r->Ok_0@.len() == 0
            &&& new.pending@ == unsettled(
                old.pending@,
                input.src@,
                acked_value(old.sent@, input.src@, input.body.in_reply_to),
            )
            &&& new.sent == old.sent
            &&& new.id == old.id
            &&& new.node == old.node
            &&& new.node_ids == old.node_ids
            &&& new.messages == old.messages
            &&& new.neighborhood == old.neighborhood
        },
        _ => r is Ok && r->Ok_0@.len() == 0 && new == old,
    }
}

/// The outcome of a retry tick at time `now` on a node in state `old`.
pub open spec fn tick_spec(
    old: BroadcastNode,
    now: u64,
    r: Result<Vec<Message<Payload>>, NodeError>,
    new: BroadcastNode,
) -> bool {
    if old.id + old.pending@.len() >= usize::MAX {
        r is Err && r->Err_0 == NodeError::IdsExhausted && new == old
    } else {
        r is Ok && retry_spec(old, now, r->Ok_0@, new)
    }
}

impl BroadcastNode {
    fn neighbor_count(&self) -> (n: usize)
        ensures
            n == self.neighbors().len(),
    {
        match &self.neighborhood {
            Some(ns) => ns.len(),
            None => 0,
        }
    }
}

impl Node<(), Payload> for BroadcastNode {
    open spec fn inv(&self) -> bool {
        self.wf()
    }

    /// A node with no values, no topology and nothing pending; its first
    /// message id is 1, as the handshake's reply took 0.
    fn from_init(_state: (), init: Init) -> (r: Result<Self, NodeError>)
        ensures
            r matches Ok(n) ==> n.inv(),
            r is Ok,
            r->Ok_0.node == init.node_id,
            r->Ok_0.node_ids == init.node_ids,
            r->Ok_0.id == 1,
            r->Ok_0.messages@.len() == 0,
            r->Ok_0.neighborhood is None,
            r->Ok_0.pending@.len() == 0,
            r->Ok_0.sent@.len() == 0,
    {
        Ok(
            BroadcastNode {
                node: init.node_id,
                node_ids: init.node_ids,
                id: 1,
                messages: Vec::new(),
                neighborhood: None,
                pending: Vec::new(),
                sent: Vec::new(),
            },
        )
    }

    /// Handles one inbound message and returns the messages to send.
    fn step(&mut self, input: Message<Payload>, now: u64) -> (r: Result<Vec<Message<Payload>>, NodeError>)
        ensures
            final(self).inv(),
            step_spec(*old(self), input, now, r, *final(self)),
            r matches Ok(out) ==> emits(*old(self), *final(self), out@),
            r is Err ==> *final(self) == *old(self),
    {
        let ghost g_input = input;
        let req: Message<()> = Message {
            src: input.src,
            dst: input.dst,
            body: Body { id: input.body.id, in_reply_to: input.body.in_reply_to, payload: () },
        };
        let full = self.id >= usize::MAX - self.neighbor_count();
        match input.body.payload {
            Payload::Broadcast { message } => {
                if full {
                    return Err(NodeError::IdsExhausted);
                }
                let out = self.accept_value(req, message, now);
                proof {
                    let o = out@;
                    let base = old(self).pending@.len();
                    if !old(self).messages@.contains(message) {
                        assert forall|k: int| 0 <= k < o.len() implies (#[trigger] o[k]).body.id == Some(
                            (old(self).id + k) as usize,
                        ) by {
                            if k >= 1 {
                                assert(o[k] == gossip_spec(old(self).node, o[k].dst, old(self).id + k, message));
                            }
                        }
                    }
                }
                Ok(out)
            },
            Payload::Read => {
                if self.id == usize::MAX {
                    return Err(NodeError::IdsExhausted);
                }
                Ok(self.answer_read(req))
            },
            Payload::Topology { topology } => {
                if self.neighborhood.is_some() {
                    return Err(NodeError::TopologyAlreadyAssigned);
                }
                if full {
                    return Err(NodeError::IdsExhausted);
                }
                self.accept_topology(req, topology)
            },
            Payload::BroadcastOk => {
                let acked = self.acked_by(&req.src, req.body.in_reply_to);
                self.settle(&req.src, acked);
                Ok(Vec::new())
            },
            _ => Ok(Vec::new()),
        }
    }

    /// Sends again every pending gossip that is due at time `now`.
    fn tick(&mut self, now: u64) -> (r: Result<Vec<Message<Payload>>, NodeError>)
        ensures
            final(self).inv(),
            tick_spec(*old(self), now, r, *final(self)),
            r matches Ok(out) ==> emits(*old(self), *final(self), out@),
            r is Err ==> *final(self) == *old(self),
    {
        if self.id >= usize::MAX - self.pending.len() {
            return Err(NodeError::IdsExhausted);
        }
        Ok(self.retry(now))
    }
}

} // verus!
