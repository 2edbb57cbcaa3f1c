//! The message envelope and the closed set of payload variants, together with
//! the mathematical view that every contract of this crate speaks of.

use crate::values::copy_of;
use std::collections::HashSet;
use vstd::prelude::*;

verus! {

/// The neighbour assignment carried by a `topology` request: for each node id,
/// the ids of the nodes it gossips to.
///
/// Entries are kept in insertion order; where a node id was inserted more than
/// once, its latest entry is the one that counts.
#[derive(Debug)]
pub struct Topology {
    entries: Vec<(String, Vec<String>)>,
}

/// The closed set of payloads.
#[derive(Debug)]
pub enum Payload {
    Init { node_id: String, node_ids: Vec<String> },
    InitOk,
    Echo { echo: String },
    EchoOk { echo: String },
    Generate,
    GenerateOk { id: String },
    Broadcast { message: usize },
    BroadcastOk,
    Read,
    ReadOk { messages: HashSet<usize> },
    Topology { topology: Topology },
    TopologyOk,
    Gossip { messages: HashSet<usize> },
}

/// Correlation ids and payload of a message.
#[derive(Debug)]
pub struct Body {
    pub msg_id: Option<usize>,
    pub in_reply_to: Option<usize>,
    pub payload: Payload,
}

/// A message in transit between two nodes, or between a client and a node.
#[derive(Debug)]
pub struct Message {
    pub src: String,
    pub dest: String,
    pub body: Body,
}

/// What a `Payload` holds, as plain mathematical values.
pub enum PayloadView {
    Init { node_id: Seq<char>, node_ids: Seq<Seq<char>> },
    InitOk,
    Echo { echo: Seq<char> },
    EchoOk { echo: Seq<char> },
    Generate,
    GenerateOk { id: Seq<char> },
    Broadcast { message: usize },
    BroadcastOk,
    Read,
    ReadOk { messages: Set<usize> },
    Topology { topology: Map<Seq<char>, Seq<Seq<char>>> },
    TopologyOk,
    Gossip { messages: Set<usize> },
}

/// What a `Body` holds.
pub struct BodyView {
    pub msg_id: Option<usize>,
    pub in_reply_to: Option<usize>,
    pub payload: PayloadView,
}

/// What a `Message` holds.
pub struct MessageView {
    pub src: Seq<char>,
    pub dest: Seq<char>,
    pub body: BodyView,
}

/// The node ids that a list of strings spells.
pub open spec fn ids(list: Seq<String>) -> Seq<Seq<char>> {
    Seq::new(list.len(), |i: int| list[i]@)
}

/// The assignment that a list of entries stands for: a later entry for a node
/// replaces an earlier one.
pub open spec fn assignment(entries: Seq<(String, Vec<String>)>) -> Map<Seq<char>, Seq<Seq<char>>>
    decreases entries.len(),
{
    if entries.len() == 0 {
        Map::empty()
    } else {
        assignment(entries.drop_last()).insert(entries.last().0@, ids(entries.last().1@))
    }
}

impl View for Topology {
    type V = Map<Seq<char>, Seq<Seq<char>>>;

    closed spec fn view(&self) -> Self::V {
        assignment(self.entries@)
    }
}

/// A node without an entry of its own has no assignment.
proof fn lemma_assignment_miss(entries: Seq<(String, Vec<String>)>, node: Seq<char>)
    requires
        forall|j: int| 0 <= j < entries.len() ==> entries[j].0@ != node,
    ensures
        !assignment(entries).contains_key(node),
    decreases entries.len(),
{
    if entries.len() > 0 {
        lemma_assignment_miss(entries.drop_last(), node);
    }
}

/// The last entry of a node is its assignment.
proof fn lemma_assignment_hit(entries: Seq<(String, Vec<String>)>, node: Seq<char>, at: int)
    requires
        0 <= at < entries.len(),
        entries[at].0@ == node,
        forall|j: int| at < j < entries.len() ==> entries[j].0@ != node,
    ensures
        assignment(entries).contains_key(node),
        assignment(entries)[node] == ids(entries[at].1@),
    decreases entries.len(),
{
    if at < entries.len() - 1 {
        lemma_assignment_hit(entries.drop_last(), node, at);
    }
}

/// Entries that spell the same ids, place by place, stand for the same
/// assignment.
proof fn lemma_assignment_same(
    left: Seq<(String, Vec<String>)>,
    right: Seq<(String, Vec<String>)>,
)
    requires
        left.len() == right.len(),
        forall|j: int|
            0 <= j < left.len() ==> left[j].0@ == right[j].0@ && ids(left[j].1@) == ids(
                right[j].1@,
            ),
    ensures
        assignment(left) == assignment(right),
    decreases left.len(),
{
    if left.len() > 0 {
        lemma_assignment_same(left.drop_last(), right.drop_last());
    }
}

/// A copy of a list of node ids.
pub fn copy_ids(list: &Vec<String>) -> (copy: Vec<String>)
    ensures
        ids(copy@) == ids(list@),
{
    let copy = list.clone();
    assert(ids(copy@) =~= ids(list@));
    copy
}

impl Topology {
    /// The assignment that gives no node any neighbour list.
    pub fn new() -> (topology: Self)
        ensures
            topology@ == Map::<Seq<char>, Seq<Seq<char>>>::empty(),
    {
        Topology { entries: Vec::new() }
    }

    /// Assigns `neighbours` to `node`, in place of what it was assigned before.
    pub fn insert(&mut self, node: String, neighbours: Vec<String>)
        ensures
            final(self)@ == old(self)@.insert(node@, ids(neighbours@)),
    {
        let ghost before = self.entries@;
        self.entries.push((node, neighbours));
        assert(self.entries@.drop_last() == before);
    }

    /// The neighbour list assigned to `node`, if it has one.
    pub fn get(&self, node: &String) -> (found: Option<&Vec<String>>)
        ensures
            match found {
                Some(list) => self@.contains_key(node@) && self@[node@] == ids(list@),
                None => !self@.contains_key(node@),
            },
    {
        let mut at: usize = self.entries.len();
        while at > 0
            invariant
                at <= self.entries.len(),
                forall|j: int| at <= j < self.entries.len() ==> self.entries[j].0@ != node@,
            decreases at,
        {
            at -= 1;
            if self.entries[at].0 == *node {
                proof {
                    lemma_assignment_hit(self.entries@, node@, at as int);
                }
                return Some(&self.entries[at].1);
            }
        }
        proof {
            lemma_assignment_miss(self.entries@, node@);
        }
        None
    }

    /// The entries in insertion order; a later entry for a node replaces an
    /// earlier one.
    pub fn entries(&self) -> (entries: &Vec<(String, Vec<String>)>)
        ensures
            assignment(entries@) == self@,
    {
        &self.entries
    }
}

impl Clone for Topology {
    fn clone(&self) -> (copy: Self)
        ensures
            copy@ == self@,
    {
        let mut entries: Vec<(String, Vec<String>)> = Vec::new();
        let mut at: usize = 0;
        while at < self.entries.len()
            invariant
                at <= self.entries.len(),
                entries.len() == at,
                forall|j: int|
                    0 <= j < at ==> entries[j].0@ == self.entries[j].0@ && ids(entries[j].1@)
                        == ids(self.entries[j].1@),
            decreases self.entries.len() - at,
        {
            entries.push((self.entries[at].0.clone(), copy_ids(&self.entries[at].1)));
            at += 1;
        }
        proof {
            lemma_assignment_same(entries@, self.entries@);
        }
        Topology { entries }
    }
}

impl View for Payload {
    type V = PayloadView;

    open spec fn view(&self) -> PayloadView {
        match *self {
            Payload::Init { node_id, node_ids } => PayloadView::Init {
                node_id: node_id@,
                node_ids: ids(node_ids@),
            },
            Payload::InitOk => PayloadView::InitOk,
            Payload::Echo { echo } => PayloadView::Echo { echo: echo@ },
            Payload::EchoOk { echo } => PayloadView::EchoOk { echo: echo@ },
            Payload::Generate => PayloadView::Generate,
            Payload::GenerateOk { id } => PayloadView::GenerateOk { id: id@ },
            Payload::Broadcast { message } => PayloadView::Broadcast { message },
            Payload::BroadcastOk => PayloadView::BroadcastOk,
            Payload::Read => PayloadView::Read,
            Payload::ReadOk { messages } => PayloadView::ReadOk { messages: messages@ },
            Payload::Topology { topology } => PayloadView::Topology { topology: topology@ },
            Payload::TopologyOk => PayloadView::TopologyOk,
            Payload::Gossip { messages } => PayloadView::Gossip { messages: messages@ },
        }
    }
}

impl View for Body {
    type V = BodyView;

    open spec fn view(&self) -> BodyView {
        BodyView { msg_id: self.msg_id, in_reply_to: self.in_reply_to, payload: self.payload@ }
    }
}

impl View for Message {
    type V = MessageView;

    open spec fn view(&self) -> MessageView {
        MessageView { src: self.src@, dest: self.dest@, body: self.body@ }
    }
}

/// What a list of messages holds.
pub open spec fn sent(list: Seq<Message>) -> Seq<MessageView> {
    Seq::new(list.len(), |i: int| list[i]@)
}

impl PayloadView {
    /// The name that tells this kind of payload from the others on the wire.
    pub open spec fn kind(self) -> Seq<char> {
        match self {
            PayloadView::Init { .. } => "init"@,
            PayloadView::InitOk => "init_ok"@,
            PayloadView::Echo { .. } => "echo"@,
            PayloadView::EchoOk { .. } => "echo_ok"@,
            PayloadView::Generate => "generate"@,
            PayloadView::GenerateOk { .. } => "generate_ok"@,
            PayloadView::Broadcast { .. } => "broadcast"@,
            PayloadView::BroadcastOk => "broadcast_ok"@,
            PayloadView::Read => "read"@,
            PayloadView::ReadOk { .. } => "read_ok"@,
            PayloadView::Topology { .. } => "topology"@,
            PayloadView::TopologyOk => "topology_ok"@,
            PayloadView::Gossip { .. } => "gossip"@,
        }
    }
}

impl Payload {
    /// The name that tells this kind of payload from the others on the wire.
    pub fn kind(&self) -> (name: &'static str)
        ensures
            name@ == self@.kind(),
    {
        match self {
            Payload::Init { .. } => "init",
            Payload::InitOk => "init_ok",
            Payload::Echo { .. } => "echo",
            Payload::EchoOk { .. } => "echo_ok",
            Payload::Generate => "generate",
            Payload::GenerateOk { .. } => "generate_ok",
            Payload::Broadcast { .. } => "broadcast",
            Payload::BroadcastOk => "broadcast_ok",
            Payload::Read => "read",
            Payload::ReadOk { .. } => "read_ok",
            Payload::Topology { .. } => "topology",
            Payload::TopologyOk => "topology_ok",
            Payload::Gossip { .. } => "gossip",
        }
    }
}

impl Clone for Payload {
    fn clone(&self) -> (copy: Self)
        ensures
            copy@ == self@,
    {
        match self {
            Payload::Init { node_id, node_ids } => Payload::Init {
                node_id: node_id.clone(),
                node_ids: copy_ids(node_ids),
            },
            Payload::InitOk => Payload::InitOk,
            Payload::Echo { echo } => Payload::Echo { echo: echo.clone() },
            Payload::EchoOk { echo } => Payload::EchoOk { echo: echo.clone() },
            Payload::Generate => Payload::Generate,
            Payload::GenerateOk { id } => Payload::GenerateOk { id: id.clone() },
            Payload::Broadcast { message } => Payload::Broadcast { message: *message },
            Payload::BroadcastOk => Payload::BroadcastOk,
            Payload::Read => Payload::Read,
            Payload::ReadOk { messages } => Payload::ReadOk { messages: copy_of(messages) },
            Payload::Topology { topology } => Payload::Topology { topology: topology.clone() },
            Payload::TopologyOk => Payload::TopologyOk,
            Payload::Gossip { messages } => Payload::Gossip { messages: copy_of(messages) },
        }
    }
}

impl Clone for Body {
    fn clone(&self) -> (copy: Self)
        ensures
            copy@ == self@,
    {
        Body { msg_id: self.msg_id, in_reply_to: self.in_reply_to, payload: self.payload.clone() }
    }
}

impl Clone for Message {
    fn clone(&self) -> (copy: Self)
        ensures
            copy@ == self@,
    {
        Message { src: self.src.clone(), dest: self.dest.clone(), body: self.body.clone() }
    }
}

} // verus!
