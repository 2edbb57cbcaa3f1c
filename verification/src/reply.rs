//! The reply engine: which payload answers which request, and how a reply is
//! addressed and correlated.

use crate::decimal::{
    decimal, decimal_string, digit, is_digit, lemma_decimal_digits, lemma_decimal_injective,
};
use crate::error::ProtocolViolation;
use crate::protocol::{Body, BodyView, Message, MessageView, Payload, PayloadView};
use crate::state::{NodeState, NodeView};
use vstd::prelude::*;
use vstd::string::*;

verus! {

/// The reply to `request` that carries `payload`: source and destination
/// swapped, stamped with `msg_id`, correlated to the request's own id.
pub open spec fn reply_to(request: MessageView, msg_id: usize, payload: PayloadView) -> MessageView {
    MessageView {
        src: request.dest,
        dest: request.src,
        body: BodyView { msg_id: Some(msg_id), in_reply_to: request.body.msg_id, payload },
    }
}

/// The id that node `node_id` generates while its counter stands at `counter`:
/// the node id, a hyphen, the counter in decimal.
pub open spec fn generated_id(node_id: Seq<char>, counter: nat) -> Seq<char> {
    node_id + seq!['-'] + decimal(counter)
}

/// Generated ids are unique across the cluster: two of them are equal only
/// if the same node made them at the same counter value.
pub proof fn lemma_generated_id_injective(a: Seq<char>, m: nat, b: Seq<char>, n: nat)
    requires
        generated_id(a, m) == generated_id(b, n),
    ensures
        a == b,
        m == n,
{
    lemma_decimal_digits(m);
    lemma_decimal_digits(n);
    assert(!is_digit('-')) by {
        assert forall|d: nat| d < 10 implies '-' != #[trigger] digit(d) by {}
    }
    let left = generated_id(a, m);
    let right = generated_id(b, n);
    assert(left.len() == a.len() + 1 + decimal(m).len());
    assert(right.len() == b.len() + 1 + decimal(n).len());
    assert(left[a.len() as int] == '-');
    assert(right[b.len() as int] == '-');
    if a.len() < b.len() {
        let at = b.len() - a.len() - 1;
        assert(left[b.len() as int] == decimal(m)[at]);
        assert(is_digit(decimal(m)[at]));
        assert(false);
    }
    if b.len() < a.len() {
        let at = a.len() - b.len() - 1;
        assert(right[a.len() as int] == decimal(n)[at]);
        assert(is_digit(decimal(n)[at]));
        assert(false);
    }
    assert(a =~= left.subrange(0, a.len() as int));
    assert(b =~= right.subrange(0, b.len() as int));
    assert(decimal(m) =~= left.subrange(a.len() as int + 1, left.len() as int));
    assert(decimal(n) =~= right.subrange(b.len() as int + 1, right.len() as int));
    lemma_decimal_injective(m, n);
}

/// Generates the id of node `node_id` at counter value `counter`.
pub fn generate_id(node_id: &String, counter: usize) -> (id: String)
    ensures
        id@ == generated_id(node_id@, counter as nat),
{
    proof {
        reveal_strlit("-");
    }
    let mut id = node_id.clone();
    id.append("-");
    let digits = decimal_string(counter);
    id.append(digits.as_str());
    assert(id@ =~= generated_id(node_id@, counter as nat));
    id
}

/// The part of a node that answers requests.
pub trait IntoResponse {
    /// The id that this node stamps on its next reply.
    spec fn stamp(&self) -> usize;

    /// The payload with which this node answers `request`; `None` where it has
    /// no answer to it.
    spec fn answer(&self, request: PayloadView) -> Option<PayloadView>;

    /// The reply to `msg`. It goes back to where `msg` came from, carries this
    /// node's next id, and is correlated to `msg`. A payload that this node
    /// does not answer is a violation.
    fn response(&self, msg: Message) -> (reply: Result<Message, ProtocolViolation>)
        ensures
            match self.answer(msg@.body.payload) {
                Some(payload) => reply is Ok && reply->Ok_0@ == reply_to(
                    msg@,
                    self.stamp(),
                    payload,
                ),
                None => reply is Err && reply->Err_0 == ProtocolViolation::UnexpectedPayload,
            },
            reply is Ok ==> reply->Ok_0@.body.in_reply_to == msg@.body.msg_id,
    ;
}

impl NodeView {
    /// The payload with which a node in this state answers `request`; `None`
    /// for a payload that is no request: a reply, or gossip.
    pub open spec fn answer(self, request: PayloadView) -> Option<PayloadView> {
        match request {
            PayloadView::Echo { echo } => Some(PayloadView::EchoOk { echo }),
            PayloadView::Generate => Some(
                PayloadView::GenerateOk { id: generated_id(self.node_id, self.next_msg_id) },
            ),
            PayloadView::Init { .. } => Some(PayloadView::InitOk),
            PayloadView::Broadcast { .. } => Some(PayloadView::BroadcastOk),
            PayloadView::Read => Some(PayloadView::ReadOk { messages: self.seen }),
            PayloadView::Topology { .. } => Some(PayloadView::TopologyOk),
            _ => None,
        }
    }
}

/// A reply is named after its request: the kind of the answer is the kind of
/// the request followed by `_ok`.
pub proof fn lemma_reply_kind(node: NodeView, request: PayloadView)
    requires
        node.answer(request) is Some,
    ensures
        node.answer(request)->Some_0.kind() == request.kind() + "_ok"@,
{
    reveal_strlit("_ok");
    reveal_strlit("init");
    reveal_strlit("init_ok");
    reveal_strlit("echo");
    reveal_strlit("echo_ok");
    reveal_strlit("generate");
    reveal_strlit("generate_ok");
    reveal_strlit("broadcast");
    reveal_strlit("broadcast_ok");
    reveal_strlit("read");
    reveal_strlit("read_ok");
    reveal_strlit("topology");
    reveal_strlit("topology_ok");
    assert(node.answer(request)->Some_0.kind() =~= request.kind() + "_ok"@);
}

impl Message {
    /// The reply of the node `ctx` to this request. It reads the node and
    /// changes nothing; a `read_ok` carries a copy of the node's set.
    pub fn response(self, ctx: &NodeState) -> (reply: Result<Message, ProtocolViolation>)
        ensures
            match ctx@.answer(self@.body.payload) {
                Some(payload) => reply is Ok && reply->Ok_0@ == reply_to(
                    self@,
                    ctx@.next_msg_id as usize,
                    payload,
                ),
                None => reply is Err && reply->Err_0 == ProtocolViolation::UnexpectedPayload,
            },
            reply is Ok ==> reply->Ok_0@.body.in_reply_to == self@.body.msg_id,
    {
        let payload = match self.body.payload {
            Payload::Echo { echo } => Payload::EchoOk { echo },
            Payload::Generate => Payload::GenerateOk {
                id: generate_id(ctx.node_id(), ctx.next_msg_id()),
            },
            Payload::Init { .. } => Payload::InitOk,
            Payload::Broadcast { .. } => Payload::BroadcastOk,
            Payload::Read => Payload::ReadOk { messages: ctx.snapshot() },
            Payload::Topology { .. } => Payload::TopologyOk,
            _ => {
                return Err(ProtocolViolation::UnexpectedPayload);
            },
        };
        Ok(
            Message {
                src: self.dest,
                dest: self.src,
                body: Body {
                    msg_id: Some(ctx.next_msg_id()),
                    in_reply_to: self.body.msg_id,
                    payload,
                },
            },
        )
    }
}

impl IntoResponse for NodeState {
    open spec fn stamp(&self) -> usize {
        self@.next_msg_id as usize
    }

    open spec fn answer(&self, request: PayloadView) -> Option<PayloadView> {
        self@.answer(request)
    }

    fn response(&self, msg: Message) -> (reply: Result<Message, ProtocolViolation>) {
        msg.response(self)
    }
}

} // verus!
