//! The control loop: one event at a time, one writer of the node's state.
//!
//! The loop itself waits for events and writes messages, which is the
//! caller's business. What is decided here is what each event does to the
//! state and which messages it sends.

use crate::error::ProtocolViolation;
use crate::protocol::{sent, Message, MessageView, Payload, PayloadView};
use crate::state::{NodeState, NodeView};
use vstd::prelude::*;

verus! {

broadcast use vstd::std_specs::vec::group_vec_axioms;

/// What the control loop consumes.
#[derive(Debug)]
pub enum Event {
    /// A message that the transport delivered.
    External(Message),
    /// A tick of the gossip timer.
    Gossip,
    /// The input has ended.
    EOF,
}

/// What an `Event` holds.
pub enum EventView {
    External(MessageView),
    Gossip,
    EOF,
}

impl View for Event {
    type V = EventView;

    open spec fn view(&self) -> EventView {
        match *self {
            Event::External(msg) => EventView::External(msg@),
            Event::Gossip => EventView::Gossip,
            Event::EOF => EventView::EOF,
        }
    }
}

/// Where the control loop stands.
#[derive(Debug, Clone, Copy, PartialEq, Eq, Structural)]
pub enum Phase {
    /// Events are consumed.
    Running,
    /// The input has ended; no event is consumed any more.
    Draining,
    /// The producers have been released.
    Stopped,
}

/// What a reply that may be absent holds.
pub open spec fn reply_view(reply: Option<Message>) -> Option<MessageView> {
    match reply {
        Some(msg) => Some(msg@),
        None => None,
    }
}

impl NodeView {
    /// What a delivered message does to a node, and the reply it gets.
    ///
    /// Gossip is merged and gets no reply. A broadcast value is learned before
    /// the reply is made, a topology is applied before the reply is made; every
    /// other request is answered as the node stands.
    pub open spec fn handle(self, msg: MessageView) -> Result<
        (NodeView, Option<MessageView>),
        ProtocolViolation,
    > {
        match msg.body.payload {
            PayloadView::Gossip { messages } => Ok((self.merge(messages), None)),
            PayloadView::Broadcast { message } => self.observe(message).answered(msg),
            PayloadView::Topology { topology } => match self.configure(topology) {
                Ok(next) => next.answered(msg),
                Err(violation) => Err(violation),
            },
            _ => self.answered(msg),
        }
    }

    /// `reply`, with the reply as one that may be absent.
    pub open spec fn answered(self, msg: MessageView) -> Result<
        (NodeView, Option<MessageView>),
        ProtocolViolation,
    > {
        match self.reply(msg) {
            Ok((next, answer)) => Ok((next, Some(answer))),
            Err(violation) => Err(violation),
        }
    }
}

impl NodeState {
    /// Applies a delivered message to this node and returns the reply to
    /// write, if it gets one. On a violation the node is left as it was.
    pub fn handle_message(&mut self, msg: Message) -> (reply: Result<
        Option<Message>,
        ProtocolViolation,
    >)
        requires
            old(self)@.handle(msg@) is Ok ==> old(self)@.handle(msg@)->Ok_0.0.next_msg_id
                <= usize::MAX,
        ensures
            match old(self)@.handle(msg@) {
                Ok((next, answer)) => {
                    &&& reply is Ok
                    &&& reply_view(reply->Ok_0) == answer
                    &&& final(self)@ == next
                },
                Err(violation) => {
                    &&& reply is Err
                    &&& reply->Err_0 == violation
                    &&& final(self)@ == old(self)@
                },
            },
    {
        match &msg.body.payload {
            Payload::Broadcast { message } => {
                self.observe(*message);
            },
            Payload::Topology { topology } => {
                match self.set_neighbours(topology) {
                    Ok(()) => {},
                    Err(violation) => {
                        return Err(violation);
                    },
                }
            },
            Payload::Gossip { messages } => {
                self.merge(messages);
                return Ok(None);
            },
            _ => {},
        }
        match self.reply(msg) {
            Ok(reply) => Ok(Some(reply)),
            Err(violation) => Err(violation),
        }
    }
}

/// The control loop of one node: its state, and where the loop stands.
#[derive(Debug)]
pub struct ControlLoop {
    node: NodeState,
    phase: Phase,
}

/// What a `ControlLoop` holds.
pub struct ControlView {
    pub node: NodeView,
    pub phase: Phase,
}

/// What has come of a run of events: where the loop stands, what it has
/// sent, and the violation that ended it, if one did.
pub struct Trace {
    pub control: ControlView,
    pub sent: Seq<MessageView>,
    pub failure: Option<ProtocolViolation>,
}

/// What a list of events holds.
pub open spec fn events_view(events: Seq<Event>) -> Seq<EventView> {
    Seq::new(events.len(), |i: int| events[i]@)
}

/// The handshake as a function: the loop that the first message starts, and
/// the acknowledgement it gets.
pub open spec fn started(init: MessageView) -> Result<(ControlView, MessageView), ProtocolViolation> {
    match init.body.payload {
        PayloadView::Init { node_id, .. } => Ok(
            (
                ControlView {
                    node: NodeView {
                        node_id,
                        next_msg_id: 1,
                        seen: Set::<usize>::empty(),
                        neighbours: None,
                    },
                    phase: Phase::Running,
                },
                crate::reply::reply_to(init, 0, PayloadView::InitOk),
            ),
        ),
        _ => Err(ProtocolViolation::ExpectedInit),
    }
}

impl ControlView {
    /// What one event does, and what is sent for it.
    ///
    /// While running: a message is handled and its reply, if any, is sent; a
    /// gossip tick sends the fan-out and changes nothing; the end of input
    /// starts the draining. Once draining has begun no event does anything.
    pub open spec fn step(self, event: EventView) -> Result<
        (ControlView, Seq<MessageView>),
        ProtocolViolation,
    > {
        if self.phase != Phase::Running {
            Ok((self, Seq::empty()))
        } else {
            match event {
                EventView::External(msg) => match self.node.handle(msg) {
                    Ok((node, reply)) => Ok(
                        (
                            ControlView { node, phase: Phase::Running },
                            match reply {
                                Some(answer) => seq![answer],
                                None => Seq::empty(),
                            },
                        ),
                    ),
                    Err(violation) => Err(violation),
                },
                EventView::Gossip => Ok((self, self.node.fan_out())),
                EventView::EOF => Ok(
                    (ControlView { node: self.node, phase: Phase::Draining }, Seq::empty()),
                ),
            }
        }
    }

    /// Where the loop stands once the producers have been released.
    pub open spec fn finish(self) -> ControlView {
        if self.phase == Phase::Draining {
            ControlView { node: self.node, phase: Phase::Stopped }
        } else {
            self
        }
    }

    /// What a sequence of events does, one after the other. The first
    /// violation ends the run: what was sent before it stays sent, and the
    /// loop stays as the failing event found it.
    pub open spec fn run(self, events: Seq<EventView>) -> Trace
        decreases events.len(),
    {
        if events.len() == 0 {
            Trace { control: self, sent: Seq::empty(), failure: None }
        } else {
            let before = self.run(events.drop_last());
            if before.failure is Some {
                before
            } else {
                match before.control.step(events.last()) {
                    Ok((next, out)) => Trace {
                        control: next,
                        sent: before.sent + out,
                        failure: None,
                    },
                    Err(violation) => Trace { failure: Some(violation), ..before },
                }
            }
        }
    }
}

/// A run can be cut anywhere: once a violation has ended it, what follows
/// changes nothing; and the counter at the cut is no further than at the end.
pub proof fn lemma_run_prefix(control: ControlView, events: Seq<EventView>, cut: int)
    requires
        0 <= cut <= events.len(),
    ensures
        control.run(events.take(cut)).failure is Some ==> control.run(events) == control.run(
            events.take(cut),
        ),
        control.run(events.take(cut)).control.node.next_msg_id <= control.run(
            events,
        ).control.node.next_msg_id,
    decreases events.len() - cut,
{
    if cut == events.len() {
        assert(events.take(cut) =~= events);
    } else {
        lemma_run_prefix(control, events, cut + 1);
        lemma_run_unfold(control, events, cut);
        let before = control.run(events.take(cut));
        if before.failure is None {
            match before.control.step(events[cut]) {
                Ok((next, out)) => {
                    lemma_step_grows(before.control, events[cut]);
                },
                Err(_) => {},
            }
        }
    }
}

/// The run of one event more, in terms of the run before it.
pub proof fn lemma_run_unfold(control: ControlView, events: Seq<EventView>, cut: int)
    requires
        0 <= cut < events.len(),
    ensures
        ({
            let before = control.run(events.take(cut));
            control.run(events.take(cut + 1)) == if before.failure is Some {
                before
            } else {
                match before.control.step(events[cut]) {
                    Ok((next, out)) => Trace {
                        control: next,
                        sent: before.sent + out,
                        failure: None,
                    },
                    Err(violation) => Trace { failure: Some(violation), ..before },
                }
            }
        }),
{
    assert(events.take(cut + 1).drop_last() =~= events.take(cut));
    assert(events.take(cut + 1).last() == events[cut]);
}

/// One event never takes the counter back.
pub proof fn lemma_step_grows(control: ControlView, event: EventView)
    requires
        control.step(event) is Ok,
    ensures
        control.step(event)->Ok_0.0.node.next_msg_id >= control.node.next_msg_id,
{
}

impl View for ControlLoop {
    type V = ControlView;

    closed spec fn view(&self) -> ControlView {
        ControlView { node: self.node@, phase: self.phase }
    }
}

impl ControlLoop {
    /// A running loop over `node`.
    pub fn over(node: NodeState) -> (control: Self)
        ensures
            control@ == (ControlView { node: node@, phase: Phase::Running }),
    {
        ControlLoop { node, phase: Phase::Running }
    }

    /// The handshake: the running loop of the node that `init_msg` names, and
    /// the acknowledgement to write before any event is consumed. Any first
    /// message but `init` is a violation.
    pub fn start(init_msg: Message) -> (begun: Result<(ControlLoop, Message), ProtocolViolation>)
        ensures
            match started(init_msg@) {
                Ok((control, ack)) => {
                    &&& begun is Ok
                    &&& begun->Ok_0.0@ == control
                    &&& begun->Ok_0.1@ == ack
                },
                Err(violation) => begun is Err && begun->Err_0 == violation,
            },
    {
        match NodeState::new(init_msg) {
            Ok((node, ack)) => Ok((ControlLoop::over(node), ack)),
            Err(violation) => Err(violation),
        }
    }

    /// The state of the node.
    pub fn node(&self) -> (node: &NodeState)
        ensures
            node@ == self@.node,
    {
        &self.node
    }

    /// Where the loop stands.
    pub fn phase(&self) -> (phase: Phase)
        ensures
            phase == self@.phase,
    {
        self.phase
    }

    /// Consumes one event and returns the messages to write for it, in
    /// order. On a violation the loop is left as it was.
    pub fn step(&mut self, event: Event) -> (out: Result<Vec<Message>, ProtocolViolation>)
        requires
            old(self)@.step(event@) is Ok ==> old(self)@.step(event@)->Ok_0.0.node.next_msg_id
                <= usize::MAX,
        ensures
            match old(self)@.step(event@) {
                Ok((next, messages)) => {
                    &&& out is Ok
                    &&& sent(out->Ok_0@) == messages
                    &&& final(self)@ == next
                },
                Err(violation) => {
                    &&& out is Err
                    &&& out->Err_0 == violation
                    &&& final(self)@ == old(self)@
                },
            },
    {
        let mut out: Vec<Message> = Vec::new();
        match self.phase {
            Phase::Running => {},
            _ => {
                assert(sent(out@) =~= Seq::<MessageView>::empty());
                return Ok(out);
            },
        }
        match event {
            Event::External(msg) => {
                match self.node.handle_message(msg) {
                    Ok(Some(reply)) => {
                        out.push(reply);
                        assert(sent(out@) =~= seq![reply@]);
                    },
                    Ok(None) => {
                        assert(sent(out@) =~= Seq::<MessageView>::empty());
                    },
                    Err(violation) => {
                        return Err(violation);
                    },
                }
            },
            Event::Gossip => {
                out = self.node.gossip();
            },
            Event::EOF => {
                self.phase = Phase::Draining;
                assert(sent(out@) =~= Seq::<MessageView>::empty());
            },
        }
        Ok(out)
    }

    /// Consumes `events` one after the other and returns every message to
    /// write for them, in order. The first violation ends the run and is
    /// returned beside what was sent before it.
    pub fn run(&mut self, events: Vec<Event>) -> (outcome: (
        Vec<Message>,
        Option<ProtocolViolation>,
    ))
        requires
            old(self)@.run(events_view(events@)).control.node.next_msg_id <= usize::MAX,
        ensures
            final(self)@ == old(self)@.run(events_view(events@)).control,
            sent(outcome.0@) == old(self)@.run(events_view(events@)).sent,
            outcome.1 == old(self)@.run(events_view(events@)).failure,
    {
        let ghost first = self@;
        let ghost all = events_view(events@);
        let mut out: Vec<Message> = Vec::new();
        assert(all.take(0) =~= Seq::<EventView>::empty());
        assert(sent(out@) =~= Seq::<MessageView>::empty());
        for event in it: events
            invariant
                it.seq() == events@,
                all == events_view(events@),
                first == old(self)@,
                first.run(all).control.node.next_msg_id <= usize::MAX,
                first.run(all.take(it.index())) == (Trace {
                    control: self@,
                    sent: sent(out@),
                    failure: None,
                }),
        {
            let ghost before = sent(out@);
            proof {
                lemma_run_unfold(first, all, it.index());
                lemma_run_prefix(first, all, it.index() + 1);
            }
            match self.step(event) {
                Ok(mut messages) => {
                    let ghost added = sent(messages@);
                    out.append(&mut messages);
                    assert(sent(out@) =~= before + added);
                },
                Err(violation) => {
                    return (out, Some(violation));
                },
            }
        }
        assert(all.take(all.len() as int) =~= all);
        (out, None)
    }

    /// Marks the producers as released: a draining loop is stopped. A loop in
    /// another phase stays as it is.
    pub fn finish(&mut self)
        ensures
            final(self)@ == old(self)@.finish(),
    {
        match self.phase {
            Phase::Draining => {
                self.phase = Phase::Stopped;
            },
            _ => {},
        }
    }
}

} // verus!
