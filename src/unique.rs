//! A node that answers each `generate` with an id unique in the cluster:
//! the number that follows the reply's own id, `_`, and the node's own id.
use vstd::prelude::*;

use crate::message::{Body, Init, Message, Node, NodeError};

verus! {

/// The payloads of the unique-id node.
#[derive(Debug, Clone, PartialEq, Eq)]
pub enum Payload {
    Generate,
    GenerateOk { guid: String },
}

pub struct UniqueNode {
    pub node: String,
    pub id: usize,
}

/// The character of a decimal digit.
pub open spec fn digit_char(d: nat) -> char {
    if d == 0 {
        '0'
    } else if d == 1 {
        '1'
    } else if d == 2 {
        '2'
    } else if d == 3 {
        '3'
    } else if d == 4 {
        '4'
    } else if d == 5 {
        '5'
    } else if d == 6 {
        '6'
    } else if d == 7 {
        '7'
    } else if d == 8 {
        '8'
    } else {
        '9'
    }
}

/// The decimal digits of `n`, most significant first, without leading zeros.
pub open spec fn decimal(n: nat) -> Seq<char>
    decreases n,
{
    if n < 10 {
        seq![digit_char(n)]
    } else {
        decimal(n / 10).push(digit_char(n % 10))
    }
}

/// The id handed out for the reply numbered `id` of node `node`.
pub open spec fn guid_spec(id: usize, node: Seq<char>) -> Seq<char> {
    decimal(id as nat) + seq!['_'] + node
}

/// Relies on `ToString` for `usize`, which writes the number in decimal.
#[verifier::external_body]
fn decimal_string(n: usize) -> (r: String)
    ensures
        r@ == decimal(n as nat),
{
    n.to_string()
}

/// The id that the reply numbered `id` of node `node` hands out.
pub fn make_guid(id: usize, node: &String) -> (r: String)
    ensures
        r@ == guid_spec(id, node@),
{
    let digits = decimal_string(id);
    proof {
        reveal_strlit("_");
    }
    let with_sep = digits.concat("_");
    with_sep.concat(node.as_str())
}

impl Node<(), Payload> for UniqueNode {
    open spec fn inv(&self) -> bool {
        true
    }

    /// A node whose first message id is 1, as the handshake's reply took 0.
    fn from_init(_state: (), init: Init) -> (r: Result<Self, NodeError>)
        ensures
            r matches Ok(n) ==> n.inv(),
            r is Ok,
            r->Ok_0.node == init.node_id,
            r->Ok_0.id == 1,
    {
        Ok(UniqueNode { node: init.node_id, id: 1 })
    }

    /// Answers `generate` with `generate_ok`. The reply takes the counter's
    /// value as its id, the handed-out id is made from the next value, and
    /// the counter moves past both; anything else is ignored.
    fn step(&mut self, input: Message<Payload>, _now: u64) -> (r: Result<Vec<Message<Payload>>, NodeError>)
        ensures
            final(self).inv(),
            final(self).node == old(self).node,
            match input.body.payload {
                Payload::Generate => if old(self).id >= usize::MAX - 1 {
                    r is Err && r->Err_0 == NodeError::IdsExhausted && *final(self) == *old(self)
                } else {
                    &&& r is Ok
                    &&& r->Ok_0@.len() == 1
                    &&& r->Ok_0@[0].src == input.dst
                    &&& r->Ok_0@[0].dst == input.src
                    &&& r->Ok_0@[0].body.id == Some(old(self).id)
                    &&& r->Ok_0@[0].body.in_reply_to == input.body.id
                    &&& r->Ok_0@[0].body.payload matches Payload::GenerateOk { guid } && guid@ == guid_spec(
                        (old(self).id + 1) as usize,
                        old(self).node@,
                    )
                    &&& final(self).id == old(self).id + 2
                },
                _ => r is Ok && r->Ok_0@.len() == 0 && *final(self) == *old(self),
            },
    {
        match input.body.payload {
            Payload::Generate => {
                if self.id >= usize::MAX - 1 {
                    return Err(NodeError::IdsExhausted);
                }
                let mid = self.id;
                let guid = make_guid(mid + 1, &self.node);
                self.id = mid + 2;
                let mut out: Vec<Message<Payload>> = Vec::new();
                out.push(
                    Message {
                        src: input.dst,
                        dst: input.src,
                        body: Body {
                            id: Some(mid),
                            in_reply_to: input.body.id,
                            payload: Payload::GenerateOk { guid },
                        },
                    },
                );
                Ok(out)
            },
            _ => Ok(Vec::new()),
        }
    }

    /// This node has no background work.
    fn tick(&mut self, _now: u64) -> (r: Result<Vec<Message<Payload>>, NodeError>)
        ensures
            final(self).inv(),
            r is Ok && r->Ok_0@.len() == 0 && *final(self) == *old(self),
    {
        Ok(Vec::new())
    }
}

} // verus!
