//! What holds of the node whatever it receives: the algebra of merging, the
//! invariants of the state, and the counting of replies.

use crate::control::{lemma_run_prefix, started, ControlView, EventView, Phase};
use crate::protocol::MessageView;
use crate::state::NodeView;
use crate::values::{merged, observed};
use vstd::prelude::*;

verus! {

/// Merging is idempotent: a set that has been merged once changes nothing
/// when it is merged again.
pub proof fn lemma_merge_idempotent(seen: Set<usize>, incoming: Set<usize>)
    ensures
        merged(merged(seen, incoming), incoming) == merged(seen, incoming),
{
    assert(merged(merged(seen, incoming), incoming) =~= merged(seen, incoming));
}

/// Merging commutes: two sets merged in either order leave the same result.
pub proof fn lemma_merge_commutative(seen: Set<usize>, first: Set<usize>, second: Set<usize>)
    ensures
        merged(merged(seen, first), second) == merged(merged(seen, second), first),
{
    assert(merged(merged(seen, first), second) =~= merged(merged(seen, second), first));
}

/// Merging is associative: merging two sets one after the other is merging
/// their union.
pub proof fn lemma_merge_associative(seen: Set<usize>, first: Set<usize>, second: Set<usize>)
    ensures
        merged(merged(seen, first), second) == merged(seen, merged(first, second)),
{
    assert(merged(merged(seen, first), second) =~= merged(seen, merged(first, second)));
}

/// Observing is idempotent, and is merging a set of one value.
pub proof fn lemma_observe_idempotent(seen: Set<usize>, value: usize)
    ensures
        observed(observed(seen, value), value) == observed(seen, value),
        observed(seen, value) == merged(seen, set![value]),
{
    assert(observed(observed(seen, value), value) =~= observed(seen, value));
    assert(observed(seen, value) =~= merged(seen, set![value]));
}

/// The same laws on the state of a node: merging the same set again changes
/// nothing, and the order of two merges does not matter.
pub proof fn lemma_node_merge_converges(node: NodeView, first: Set<usize>, second: Set<usize>)
    ensures
        node.merge(first).merge(first) == node.merge(first),
        node.merge(first).merge(second) == node.merge(second).merge(first),
{
    lemma_merge_idempotent(node.seen, first);
    lemma_merge_commutative(node.seen, first, second);
}

/// Whether `after` can follow `before` in the life of one node: the id is the
/// same, the counter has not gone back, nothing known has been forgotten, and
/// a neighbour list that was assigned is still the same.
pub open spec fn follows(before: NodeView, after: NodeView) -> bool {
    &&& after.node_id == before.node_id
    &&& after.next_msg_id >= before.next_msg_id
    &&& before.seen.subset_of(after.seen)
    &&& before.neighbours is Some ==> after.neighbours == before.neighbours
}

/// The ids that a list of sent messages carries, in order. A one-way message
/// carries none.
pub open spec fn stamps(out: Seq<MessageView>) -> Seq<usize>
    decreases out.len(),
{
    if out.len() == 0 {
        Seq::empty()
    } else {
        match out.last().body.msg_id {
            Some(id) => stamps(out.drop_last()).push(id),
            None => stamps(out.drop_last()),
        }
    }
}

/// The `count` ids from `from` on.
pub open spec fn consecutive(from: nat, count: nat) -> Seq<usize> {
    Seq::new(count, |i: int| (from + i) as usize)
}

/// The ids of two lists sent one after the other.
pub proof fn lemma_stamps_concat(first: Seq<MessageView>, second: Seq<MessageView>)
    ensures
        stamps(first + second) == stamps(first) + stamps(second),
    decreases second.len(),
{
    if second.len() == 0 {
        assert(first + second =~= first);
        assert(stamps(first) + stamps(second) =~= stamps(first));
    } else {
        lemma_stamps_concat(first, second.drop_last());
        assert((first + second).drop_last() =~= first + second.drop_last());
        assert((first + second).last() == second.last());
        match second.last().body.msg_id {
            Some(id) => {
                assert(stamps(first) + stamps(second.drop_last()).push(id) =~= (stamps(first)
                    + stamps(second.drop_last())).push(id));
            },
            None => {},
        }
    }
}

/// A fan-out carries no id.
pub proof fn lemma_fan_out_unstamped(node: NodeView)
    ensures
        stamps(node.fan_out()) == Seq::<usize>::empty(),
{
    lemma_unstamped(node.fan_out());
}

proof fn lemma_unstamped(out: Seq<MessageView>)
    requires
        forall|i: int| 0 <= i < out.len() ==> out[i].body.msg_id is None,
    ensures
        stamps(out) == Seq::<usize>::empty(),
    decreases out.len(),
{
    if out.len() > 0 {
        lemma_unstamped(out.drop_last());
    }
}

/// One event keeps the invariants of the node, and the ids it sends are the
/// counter values it consumes: a reply carries the counter as it stood and
/// advances it by one, every other message carries no id and leaves it alone.
/// Every reply is correlated to the request that it answers.
pub proof fn lemma_step_invariants(control: ControlView, event: EventView)
    requires
        control.step(event) is Ok,
        control.step(event)->Ok_0.0.node.next_msg_id <= usize::MAX,
    ensures
        ({
            let (next, out) = control.step(event)->Ok_0;
            &&& follows(control.node, next.node)
            &&& control.phase != Phase::Running ==> next == control
            &&& stamps(out) == consecutive(
                control.node.next_msg_id,
                (next.node.next_msg_id - control.node.next_msg_id) as nat,
            )
            &&& forall|i: int|
                0 <= i < out.len() && (#[trigger] out[i]).body.msg_id is Some ==> (event
                    matches EventView::External(msg) && out[i].body.in_reply_to
                    == msg.body.msg_id && out[i].src == msg.dest && out[i].dest == msg.src)
        }),
{
    let (next, out) = control.step(event)->Ok_0;
    if control.phase == Phase::Running {
        match event {
            EventView::External(msg) => {
                let (node, reply) = control.node.handle(msg)->Ok_0;
                match reply {
                    Some(answer) => {
                        assert(out =~= seq![answer]);
                        assert(out.drop_last() =~= Seq::<MessageView>::empty());
                        assert(stamps(out.drop_last()) =~= Seq::<usize>::empty());
                        assert(stamps(out) =~= seq![answer.body.msg_id->0]);
                        assert(stamps(out) =~= consecutive(control.node.next_msg_id, 1));
                    },
                    None => {
                        assert(stamps(out) =~= consecutive(control.node.next_msg_id, 0));
                    },
                }
            },
            EventView::Gossip => {
                lemma_fan_out_unstamped(control.node);
                assert(stamps(out) =~= consecutive(control.node.next_msg_id, 0));
            },
            EventView::EOF => {
                assert(stamps(out) =~= consecutive(control.node.next_msg_id, 0));
            },
        }
    } else {
        assert(stamps(out) =~= consecutive(control.node.next_msg_id, 0));
    }
}

/// A run keeps the invariants of the node, and the ids it sends are the
/// counter values it consumes, in order: the replies of a node that starts at
/// counter `c` carry `c`, `c + 1`, ... and the counter ends behind the last.
pub proof fn lemma_run_invariants(control: ControlView, events: Seq<EventView>)
    requires
        control.run(events).control.node.next_msg_id <= usize::MAX,
    ensures
        ({
            let trace = control.run(events);
            &&& follows(control.node, trace.control.node)
            &&& stamps(trace.sent) == consecutive(
                control.node.next_msg_id,
                (trace.control.node.next_msg_id - control.node.next_msg_id) as nat,
            )
        }),
    decreases events.len(),
{
    let trace = control.run(events);
    if events.len() == 0 {
        assert(stamps(trace.sent) =~= consecutive(control.node.next_msg_id, 0));
    } else {
        let before = control.run(events.drop_last());
        assert(events.take(events.len() - 1) =~= events.drop_last());
        lemma_run_prefix(control, events, events.len() - 1);
        lemma_run_invariants(control, events.drop_last());
        if before.failure is None {
            match before.control.step(events.last()) {
                Ok((next, out)) => {
                    lemma_step_invariants(before.control, events.last());
                    lemma_stamps_concat(before.sent, out);
                    assert(stamps(before.sent) + stamps(out) =~= consecutive(
                        control.node.next_msg_id,
                        (next.node.next_msg_id - control.node.next_msg_id) as nat,
                    ));
                },
                Err(_) => {},
            }
        }
    }
}

/// The counter counts the replies. From the handshake on, the `k`-th message
/// with an id that a node sends carries the id `k - 1`; after `k` of them the
/// counter stands at `k`; and no two of them share an id.
pub proof fn lemma_counter_counts_replies(init: MessageView, events: Seq<EventView>)
    requires
        started(init) is Ok,
        started(init)->Ok_0.0.run(events).control.node.next_msg_id <= usize::MAX,
    ensures
        ({
            let (control, ack) = started(init)->Ok_0;
            let trace = control.run(events);
            let ids = stamps(seq![ack] + trace.sent);
            &&& ids.len() == trace.control.node.next_msg_id
            &&& forall|k: int| 0 <= k < ids.len() ==> ids[k] == k
            &&& forall|j: int, k: int| 0 <= j < k < ids.len() ==> ids[j] != ids[k]
        }),
{
    let (control, ack) = started(init)->Ok_0;
    let trace = control.run(events);
    lemma_run_invariants(control, events);
    lemma_stamps_concat(seq![ack], trace.sent);
    assert(seq![ack].drop_last() =~= Seq::<MessageView>::empty());
    assert(seq![ack].last() == ack);
    assert(ack.body.msg_id == Some(0usize));
    assert(stamps(seq![ack].drop_last()) =~= Seq::<usize>::empty());
    assert(stamps(seq![ack]) =~= seq![0usize]);
}

} // verus!
