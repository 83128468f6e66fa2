use vstd::prelude::*;

verus! {

/// One wire-level record: who sent it, to whom, and what it carries.
#[derive(Debug, Clone, PartialEq, Eq)]
pub struct Message<Payload> {
    pub src: String,
    pub dst: String,
    pub body: Body<Payload>,
}

/// The header of a message (its own id and the id it answers) and its payload.
#[derive(Debug, Clone, PartialEq, Eq)]
pub struct Body<Payload> {
    pub id: Option<usize>,
    pub in_reply_to: Option<usize>,
    pub payload: Payload,
}

/// What the first message of a run tells a node: its own id and the ids of
/// every member of the cluster.
#[derive(Debug, Clone, PartialEq, Eq)]
pub struct Init {
    pub node_id: String,
    pub node_ids: Vec<String>,
}

/// The payloads of the handshake.
#[derive(Debug, Clone, PartialEq, Eq)]
pub enum InitPayload {
    Init(Init),
    InitOk,
}

/// The fatal conditions a node can meet.
#[derive(Debug, Clone, Copy, PartialEq, Eq)]
pub enum NodeError {
    /// The first message was not an `init`.
    ExpectedInit,
    /// A topology was delivered that has no entry for this node.
    TopologyOmitsSelf,
    /// A topology was delivered after one had already been accepted.
    TopologyAlreadyAssigned,
    /// The message-id counter has no room for the messages to send.
    IdsExhausted,
}

/// The message that answers `req` with `payload`: addresses swapped, the
/// given id, and `in_reply_to` set to the request's id.
pub open spec fn reply_spec<P, Q>(req: Message<P>, id: Option<usize>, payload: Q) -> Message<Q> {
    Message {
        src: req.dst,
        dst: req.src,
        body: Body { id, in_reply_to: req.body.id, payload },
    }
}

/// Builds the reply to `req` that carries `payload`, drawing its id from
/// `counter`.
pub fn reply<P, Q>(req: Message<P>, counter: &mut usize, payload: Q) -> (r: Message<Q>)
    requires
        *old(counter) < usize::MAX,
    ensures
        r == reply_spec(req, Some(*old(counter)), payload),
        *final(counter) == *old(counter) + 1,
{
    let id = *counter;
    *counter = id + 1;
    Message {
        src: req.dst,
        dst: req.src,
        body: Body { id: Some(id), in_reply_to: req.body.id, payload },
    }
}

impl<Payload> Message<Payload> {
    /// Turns a request into its reply, keeping the payload. With a counter
    /// the reply takes the counter's value as its id and the counter moves
    /// on by one; without one the reply has no id.
    pub fn into_reply(self, id: Option<&mut usize>) -> (r: Self)
        requires
            id matches Some(c) ==> *c < usize::MAX,
        ensures
            id matches Some(c) ==> r == reply_spec(self, Some(*c), self.body.payload) && *final(c)
                == *c + 1,
            id is None ==> r == reply_spec(self, None, self.body.payload),
    {
        let mid = match id {
            Some(c) => {
                let v = *c;
                *c = v + 1;
                Some(v)
            },
            None => None,
        };
        Message {
            src: self.dst,
            dst: self.src,
            body: Body { id: mid, in_reply_to: self.body.id, payload: self.body.payload },
        }
    }
}

/// The outcome of the handshake on the first message `first`.
pub open spec fn handshake_spec(
    first: Message<InitPayload>,
    r: Result<(Init, Message<InitPayload>), NodeError>,
) -> bool {
    match first.body.payload {
        InitPayload::Init(init) => r == Ok::<_, NodeError>(
            (init, reply_spec(first, Some(0usize), InitPayload::InitOk)),
        ),
        InitPayload::InitOk => r == Err::<(Init, Message<InitPayload>), _>(NodeError::ExpectedInit),
    }
}

/// Consumes the first message of a run. It must be an `init`: the result is
/// its content and the `init_ok` reply, whose id is 0.
pub fn handshake(first: Message<InitPayload>) -> (r: Result<(Init, Message<InitPayload>), NodeError>)
    ensures
        handshake_spec(first, r),
{
    match first.body.payload {
        InitPayload::Init(init) => {
            let reply = Message {
                src: first.dst,
                dst: first.src,
                body: Body { id: Some(0), in_reply_to: first.body.id, payload: InitPayload::InitOk },
            };
            Ok((init, reply))
        },
        InitPayload::InitOk => Err(NodeError::ExpectedInit),
    }
}

/// A node of the cluster: built from the handshake's content, then fed one
/// inbound message at a time, and now and then a timer tick. Each call
/// returns the messages to send, in order.
pub trait Node<S, Payload>: Sized {
    /// The node's well-formedness.
    spec fn inv(&self) -> bool;

    fn from_init(state: S, init: Init) -> (r: Result<Self, NodeError>)
        ensures
            r matches Ok(n) ==> n.inv(),
    ;

    fn step(&mut self, input: Message<Payload>, now: u64) -> (r: Result<Vec<Message<Payload>>, NodeError>)
        requires
            old(self).inv(),
        ensures
            final(self).inv(),
    ;

    fn tick(&mut self, now: u64) -> (r: Result<Vec<Message<Payload>>, NodeError>)
        requires
            old(self).inv(),
        ensures
            final(self).inv(),
    ;
}

} // verus!
