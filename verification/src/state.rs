//! The state of one node and the store operations on it: the replicated value
//! set, the neighbour list and the anti-entropy fan-out.

use crate::error::ProtocolViolation;
use crate::identity::InnerNode;
use crate::protocol::{
    copy_ids, ids, sent, Body, BodyView, Message, MessageView, Payload, PayloadView, Topology,
};
use crate::reply::reply_to;
use crate::values::{copy_of, merge_into, merged, observed};
use std::collections::HashSet;
use vstd::prelude::*;

verus! {

broadcast use vstd::std_specs::hash::group_hash_axioms;

/// The state of one node. It has a single owner, the control loop, and is
/// changed by nothing else.
#[derive(Debug)]
pub struct NodeState {
    inner: InnerNode,
    seen: HashSet<usize>,
    neighbours: Option<Vec<String>>,
}

/// What a `NodeState` holds.
pub struct NodeView {
    /// The id of this node.
    pub node_id: Seq<char>,
    /// The id of the next reply; it counts the replies sent so far.
    pub next_msg_id: nat,
    /// The values known to this node.
    pub seen: Set<usize>,
    /// The nodes that this node gossips to, once a topology has assigned them.
    pub neighbours: Option<Seq<Seq<char>>>,
}

impl NodeView {
    /// The nodes that a gossip tick sends to: none before a topology has
    /// assigned them.
    pub open spec fn targets(self) -> Seq<Seq<char>> {
        match self.neighbours {
            Some(list) => list,
            None => Seq::empty(),
        }
    }

    /// The state after learning `value`.
    pub open spec fn observe(self, value: usize) -> NodeView {
        NodeView { seen: observed(self.seen, value), ..self }
    }

    /// The state after learning every value of `incoming`.
    pub open spec fn merge(self, incoming: Set<usize>) -> NodeView {
        NodeView { seen: merged(self.seen, incoming), ..self }
    }

    /// The state after a topology has arrived: a violation where it assigns
    /// this node nothing; else the first assignment stays for good.
    pub open spec fn configure(self, topology: Map<Seq<char>, Seq<Seq<char>>>) -> Result<
        NodeView,
        ProtocolViolation,
    > {
        if !topology.contains_key(self.node_id) {
            Err(ProtocolViolation::MissingTopology)
        } else if self.neighbours is Some {
            Ok(self)
        } else {
            Ok(NodeView { neighbours: Some(topology[self.node_id]), ..self })
        }
    }

    /// The state after one more reply has been sent.
    pub open spec fn count(self) -> NodeView {
        NodeView { next_msg_id: self.next_msg_id + 1, ..self }
    }

    /// The outcome of answering `msg`: the reply, stamped with the counter as
    /// it stood, and the state with the reply counted. A payload without an
    /// answer is a violation.
    pub open spec fn reply(self, msg: MessageView) -> Result<
        (NodeView, MessageView),
        ProtocolViolation,
    > {
        match self.answer(msg.body.payload) {
            Some(payload) => Ok(
                (self.count(), reply_to(msg, self.next_msg_id as usize, payload)),
            ),
            None => Err(ProtocolViolation::UnexpectedPayload),
        }
    }

    /// The one-way message that carries everything this node knows to `dest`.
    pub open spec fn gossip_to(self, dest: Seq<char>) -> MessageView {
        MessageView {
            src: self.node_id,
            dest,
            body: BodyView {
                msg_id: None,
                in_reply_to: None,
                payload: PayloadView::Gossip { messages: self.seen },
            },
        }
    }

    /// What one gossip tick sends: the full set to each neighbour, in the
    /// order of the neighbour list.
    pub open spec fn fan_out(self) -> Seq<MessageView> {
        Seq::new(self.targets().len(), |i: int| self.gossip_to(self.targets()[i]))
    }
}

impl View for NodeState {
    type V = NodeView;

    closed spec fn view(&self) -> NodeView {
        NodeView {
            node_id: self.inner.node_id@,
            next_msg_id: self.inner.msg_id as nat,
            seen: self.seen@,
            neighbours: match self.neighbours {
                Some(list) => Some(ids(list@)),
                None => None,
            },
        }
    }
}

impl NodeState {
    /// The state of a node with the identity `inner` that knows no value and
    /// has no neighbours yet.
    pub fn with_identity(inner: InnerNode) -> (node: Self)
        ensures
            node@ == (NodeView {
                node_id: inner.node_id@,
                next_msg_id: inner.msg_id as nat,
                seen: Set::<usize>::empty(),
                neighbours: None,
            }),
    {
        NodeState { inner, seen: HashSet::new(), neighbours: None }
    }

    /// The handshake: the state of the node that `init_msg` names, and the
    /// acknowledgement to send. Any first message but `init` is a violation.
    pub fn new(init_msg: Message) -> (started: Result<(NodeState, Message), ProtocolViolation>)
        ensures
            match init_msg@.body.payload {
                PayloadView::Init { node_id, .. } => {
                    &&& started is Ok
                    &&& started->Ok_0.0@ == (NodeView {
                        node_id,
                        next_msg_id: 1,
                        seen: Set::<usize>::empty(),
                        neighbours: None,
                    })
                    &&& started->Ok_0.1@ == reply_to(init_msg@, 0, PayloadView::InitOk)
                },
                _ => started is Err && started->Err_0 == ProtocolViolation::ExpectedInit,
            },
    {
        match InnerNode::new(init_msg) {
            Ok((inner, reply)) => Ok((NodeState::with_identity(inner), reply)),
            Err(violation) => Err(violation),
        }
    }

    /// The id of this node.
    pub fn node_id(&self) -> (id: &String)
        ensures
            id@ == self@.node_id,
    {
        &self.inner.node_id
    }

    /// The id of the next reply.
    pub fn next_msg_id(&self) -> (id: usize)
        ensures
            id == self@.next_msg_id,
    {
        self.inner.msg_id
    }

    /// The values known to this node.
    pub fn seen(&self) -> (seen: &HashSet<usize>)
        ensures
            seen@ == self@.seen,
    {
        &self.seen
    }

    /// The nodes that this node gossips to; empty before a topology has
    /// assigned them.
    pub fn neighbours(&self) -> (list: Vec<String>)
        ensures
            ids(list@) == self@.targets(),
    {
        match &self.neighbours {
            Some(list) => copy_ids(list),
            None => {
                let list: Vec<String> = Vec::new();
                assert(ids(list@) =~= self@.targets());
                list
            },
        }
    }

    /// Whether a topology has assigned this node its neighbours.
    pub fn is_configured(&self) -> (configured: bool)
        ensures
            configured == (self@.neighbours is Some),
    {
        self.neighbours.is_some()
    }

    /// Whether `value` is known to this node.
    pub fn contains(&self, value: usize) -> (known: bool)
        ensures
            known == self@.seen.contains(value),
    {
        self.seen.contains(&value)
    }

    /// Learns `value`, and says whether it was new.
    pub fn observe(&mut self, value: usize) -> (fresh: bool)
        ensures
            final(self)@ == old(self)@.observe(value),
            fresh == !old(self)@.seen.contains(value),
    {
        self.seen.insert(value)
    }

    /// Learns every value of `incoming`.
    pub fn merge(&mut self, incoming: &HashSet<usize>)
        ensures
            final(self)@ == old(self)@.merge(incoming@),
    {
        merge_into(&mut self.seen, incoming);
    }

    /// Takes this node's neighbour list from `topology`. The list is assigned
    /// once: a later topology leaves it as it is. A topology without an entry
    /// for this node is a violation, and leaves the node as it was.
    pub fn set_neighbours(&mut self, topology: &Topology) -> (done: Result<(), ProtocolViolation>)
        ensures
            match old(self)@.configure(topology@) {
                Ok(next) => done is Ok && final(self)@ == next,
                Err(violation) => done is Err && done->Err_0 == violation && final(self)@ == old(
                    self,
                )@,
            },
    {
        match topology.get(&self.inner.node_id) {
            Some(list) => {
                if self.neighbours.is_none() {
                    self.neighbours = Some(copy_ids(list));
                }
                Ok(())
            },
            None => Err(ProtocolViolation::MissingTopology),
        }
    }

    /// Answers `msg` and counts the reply. Where `msg` has no answer, the
    /// node is left as it was.
    pub fn reply(&mut self, msg: Message) -> (reply: Result<Message, ProtocolViolation>)
        requires
            old(self)@.reply(msg@) is Ok ==> old(self)@.next_msg_id < usize::MAX,
        ensures
            match old(self)@.reply(msg@) {
                Ok((next, answer)) => {
                    &&& reply is Ok
                    &&& reply->Ok_0@ == answer
                    &&& final(self)@ == next
                },
                Err(violation) => {
                    &&& reply is Err
                    &&& reply->Err_0 == violation
                    &&& final(self)@ == old(self)@
                },
            },
            reply is Ok ==> reply->Ok_0@.body.in_reply_to == msg@.body.msg_id,
    {
        match msg.response(&*self) {
            Ok(reply) => {
                self.inner.msg_id += 1;
                Ok(reply)
            },
            Err(violation) => Err(violation),
        }
    }

    /// A copy of the values known to this node; it shares nothing with the
    /// node's own set.
    pub fn snapshot(&self) -> (copy: HashSet<usize>)
        ensures
            copy@ == self@.seen,
    {
        copy_of(&self.seen)
    }

    /// The messages of one gossip tick: the full set to each neighbour. They
    /// carry no id and ask for no reply, and the node is not changed.
    pub fn gossip(&self) -> (out: Vec<Message>)
        ensures
            sent(out@) == self@.fan_out(),
    {
        let mut out: Vec<Message> = Vec::new();
        match &self.neighbours {
            Some(list) => {
                let mut at: usize = 0;
                while at < list.len()
                    invariant
                        at <= list.len(),
                        out.len() == at,
                        self.neighbours == Some(*list),
                        forall|j: int|
                            0 <= j < at ==> (#[trigger] out[j])@ == self@.gossip_to(list[j]@),
                    decreases list.len() - at,
                {
                    out.push(
                        Message {
                            src: self.inner.node_id.clone(),
                            dest: list[at].clone(),
                            body: Body {
                                msg_id: None,
                                in_reply_to: None,
                                payload: Payload::Gossip { messages: copy_of(&self.seen) },
                            },
                        },
                    );
                    at += 1;
                }
                assert(sent(out@) =~= self@.fan_out());
            },
            None => {
                assert(sent(out@) =~= self@.fan_out());
            },
        }
        out
    }
}

} // verus!
