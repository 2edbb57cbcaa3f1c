//! Node identity and the handshake that establishes it.

use crate::error::ProtocolViolation;
use crate::protocol::{Body, Message, Payload, PayloadView};
use crate::reply::{reply_to, IntoResponse};
use vstd::prelude::*;

verus! {

/// The identity of a node and the counter that stamps what it sends.
#[derive(Debug)]
pub struct InnerNode {
    /// The id of the next reply; it counts the replies sent so far.
    pub msg_id: usize,
    /// The id that the cluster knows this node by.
    pub node_id: String,
}

impl Default for InnerNode {
    /// A node that has no id yet and has sent nothing.
    fn default() -> (node: Self)
        ensures
            node.msg_id == 0,
            node.node_id@ == Seq::<char>::empty(),
    {
        InnerNode { msg_id: 0, node_id: String::new() }
    }
}

impl IntoResponse for InnerNode {
    open spec fn stamp(&self) -> usize {
        self.msg_id
    }

    /// A bare identity answers `init` and nothing else.
    open spec fn answer(&self, request: PayloadView) -> Option<PayloadView> {
        match request {
            PayloadView::Init { .. } => Some(PayloadView::InitOk),
            _ => None,
        }
    }

    fn response(&self, msg: Message) -> (reply: Result<Message, ProtocolViolation>) {
        match msg.body.payload {
            Payload::Init { .. } => Ok(
                Message {
                    src: msg.dest,
                    dest: msg.src,
                    body: Body {
                        msg_id: Some(self.msg_id),
                        in_reply_to: msg.body.msg_id,
                        payload: Payload::InitOk,
                    },
                },
            ),
            _ => Err(ProtocolViolation::UnexpectedPayload),
        }
    }
}

impl InnerNode {
    /// The handshake. The first message of a node must be an `init` request:
    /// it names the node, and is acknowledged with the node's first reply.
    /// Any other first message is a violation.
    pub fn new(init_msg: Message) -> (started: Result<(InnerNode, Message), ProtocolViolation>)
        ensures
            match init_msg@.body.payload {
                PayloadView::Init { node_id, .. } => {
                    &&& started is Ok
                    &&& started->Ok_0.0.node_id@ == node_id
                    &&& started->Ok_0.0.msg_id == 1
                    &&& started->Ok_0.1@ == reply_to(init_msg@, 0, PayloadView::InitOk)
                },
                _ => started is Err && started->Err_0 == ProtocolViolation::ExpectedInit,
            },
    {
        match &init_msg.body.payload {
            Payload::Init { node_id, node_ids: _ } => {
                let mut node = InnerNode { msg_id: 0, node_id: node_id.clone() };
                match node.reply(init_msg) {
                    Ok(reply) => Ok((node, reply)),
                    Err(violation) => Err(violation),
                }
            },
            _ => Err(ProtocolViolation::ExpectedInit),
        }
    }

    /// Answers `msg` and counts the reply. Where `msg` has no answer, the
    /// node is left as it was.
    pub fn reply(&mut self, msg: Message) -> (reply: Result<Message, ProtocolViolation>)
        requires
            old(self).answer(msg@.body.payload) is Some ==> old(self).msg_id < usize::MAX,
        ensures
            final(self).node_id == old(self).node_id,
            match old(self).answer(msg@.body.payload) {
                Some(payload) => {
                    &&& reply is Ok
                    &&& reply->Ok_0@ == reply_to(msg@, old(self).msg_id, payload)
                    &&& final(self).msg_id == old(self).msg_id + 1
                },
                None => {
                    &&& reply is Err
                    &&& reply->Err_0 == ProtocolViolation::UnexpectedPayload
                    &&& final(self).msg_id == old(self).msg_id
                },
            },
    {
        match self.response(msg) {
            Ok(reply) => {
                self.msg_id += 1;
                Ok(reply)
            },
            Err(violation) => Err(violation),
        }
    }
}

} // verus!
