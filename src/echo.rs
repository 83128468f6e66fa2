//! A node that answers each `echo` with the same text.
use vstd::prelude::*;

use crate::message::{Body, Message, NodeError};

verus! {

/// The content of an `init` message, as the echo node reads it.
#[allow(non_camel_case_types)]
#[derive(Debug, Clone, PartialEq, Eq)]
pub struct init {
    pub node_id: String,
    pub node_ids: Vec<String>,
}

/// The payloads of the echo node.
#[derive(Debug, Clone, PartialEq, Eq)]
pub enum Payload {
    Echo { echo: String },
    EchoOk { echo: String },
    Init(init),
    InitOk,
}

pub struct EchoNode {
    pub id: usize,
}

/// The payload that answers `p`, if `p` is a request.
pub open spec fn answer_of(p: Payload) -> Option<Payload> {
    match p {
        Payload::Echo { echo } => Some(Payload::EchoOk { echo }),
        Payload::Init(_) => Some(Payload::InitOk),
        _ => None,
    }
}

impl EchoNode {
    /// Answers `echo` with `echo_ok` carrying the same text, and `init` with
    /// `init_ok`; responses are ignored.
    pub fn step(&mut self, input: Message<Payload>) -> (r: Result<Vec<Message<Payload>>, NodeError>)
        ensures
            answer_of(input.body.payload) matches Some(a) ==> if old(self).id == usize::MAX {
                r is Err && r->Err_0 == NodeError::IdsExhausted && final(self).id == old(self).id
            } else {
                &&& r is Ok
                &&& r->Ok_0@ == seq![
                    Message {
                        src: input.dst,
                        dst: input.src,
                        body: Body { id: Some(old(self).id), in_reply_to: input.body.id, payload: a },
                    },
                ]
                &&& final(self).id == old(self).id + 1
            },
            answer_of(input.body.payload) is None ==> r is Ok && r->Ok_0@.len() == 0 && final(self).id
                == old(self).id,
    {
        let payload = match input.body.payload {
            Payload::Echo { echo } => Payload::EchoOk { echo },
            Payload::Init(_) => Payload::InitOk,
            _ => {
                return Ok(Vec::new());
            },
        };
        if self.id == usize::MAX {
            return Err(NodeError::IdsExhausted);
        }
        let mid = self.id;
        self.id = mid + 1;
        let mut out: Vec<Message<Payload>> = Vec::new();
        out.push(
            Message {
                src: input.dst,
                dst: input.src,
                body: Body { id: Some(mid), in_reply_to: input.body.id, payload },
            },
        );
        assert(out@ =~= seq![
            Message {
                src: input.dst,
                dst: input.src,
                body: Body { id: Some(mid), in_reply_to: input.body.id, payload },
            },
        ]);
        Ok(out)
    }
}

} // verus!
