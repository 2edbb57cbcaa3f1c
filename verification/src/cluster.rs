//! A cluster of nodes that gossip, as a mathematical model, and the proof
//! that gossip makes every node learn every value.
//!
//! The model is built from the functions that the node's own contracts speak
//! of: what a tick sends is `fan_out`, and what a delivered message does is
//! `handle`.

use crate::laws::lemma_merge_idempotent;
use crate::protocol::MessageView;
use crate::state::NodeView;
use vstd::prelude::*;

verus! {

/// The state of `node` after `msg` has been delivered to it. A message that
/// the node rejects leaves it as it was.
pub open spec fn received(node: NodeView, msg: MessageView) -> NodeView {
    match node.handle(msg) {
        Ok((next, _)) => next,
        Err(_) => node,
    }
}

/// The cluster after `msg` has reached the node it is addressed to. A message
/// to a node that is not in the cluster reaches nobody.
pub open spec fn deliver(cluster: Seq<NodeView>, msg: MessageView) -> Seq<NodeView> {
    Seq::new(
        cluster.len(),
        |j: int|
            if cluster[j].node_id == msg.dest {
                received(cluster[j], msg)
            } else {
                cluster[j]
            },
    )
}

/// The cluster after each of `msgs` has been delivered, in order.
pub open spec fn deliver_all(cluster: Seq<NodeView>, msgs: Seq<MessageView>) -> Seq<NodeView>
    decreases msgs.len(),
{
    if msgs.len() == 0 {
        cluster
    } else {
        deliver(deliver_all(cluster, msgs.drop_last()), msgs.last())
    }
}

/// The cluster after the gossip timer of node `i` has fired and everything it
/// sent has been delivered.
pub open spec fn tick(cluster: Seq<NodeView>, i: int) -> Seq<NodeView> {
    if 0 <= i < cluster.len() {
        deliver_all(cluster, cluster[i].fan_out())
    } else {
        cluster
    }
}

/// The cluster after the timers of the nodes in `schedule` have fired, one
/// after the other.
pub open spec fn ticks(cluster: Seq<NodeView>, schedule: Seq<int>) -> Seq<NodeView>
    decreases schedule.len(),
{
    if schedule.len() == 0 {
        cluster
    } else {
        tick(ticks(cluster, schedule.drop_last()), schedule.last())
    }
}

/// The cluster after the schedules in `sweeps` have run, one after the other.
pub open spec fn sweep_all(cluster: Seq<NodeView>, sweeps: Seq<Seq<int>>) -> Seq<NodeView>
    decreases sweeps.len(),
{
    if sweeps.len() == 0 {
        cluster
    } else {
        sweep_all(ticks(cluster, sweeps.first()), sweeps.drop_first())
    }
}

/// Whether every node of a cluster of `size` nodes has its turn in `schedule`.
pub open spec fn complete(schedule: Seq<int>, size: nat) -> bool {
    forall|i: int| 0 <= i < size ==> schedule.contains(i)
}

/// Whether node `from` gossips to node `to`.
pub open spec fn edge(cluster: Seq<NodeView>, from: int, to: int) -> bool {
    &&& 0 <= from < cluster.len()
    &&& 0 <= to < cluster.len()
    &&& cluster[from].targets().contains(cluster[to].node_id)
}

/// Whether gossip gets from node `from` to node `to` over at most `hops`
/// edges.
pub open spec fn reach(cluster: Seq<NodeView>, from: int, to: int, hops: nat) -> bool
    decreases hops,
{
    if hops == 0 {
        from == to && 0 <= from < cluster.len()
    } else {
        reach(cluster, from, to, (hops - 1) as nat) || exists|mid: int|
            #[trigger] edge(cluster, from, mid) && reach(cluster, mid, to, (hops - 1) as nat)
    }
}

/// Every value that some node of the cluster knows.
pub open spec fn known(cluster: Seq<NodeView>) -> Set<usize> {
    Set::new(|value: usize| exists|j: int| 0 <= j < cluster.len() && #[trigger] cluster[j].seen.contains(value))
}

/// Whether two clusters have the same nodes with the same neighbours.
pub open spec fn same_graph(left: Seq<NodeView>, right: Seq<NodeView>) -> bool {
    &&& left.len() == right.len()
    &&& forall|j: int|
        0 <= j < left.len() ==> (#[trigger] left[j]).node_id == right[j].node_id
            && left[j].neighbours == right[j].neighbours
}

/// What the first `upto` messages of a fan-out do: each node that one of them
/// is addressed to has merged the sender's set, and no other node has changed.
proof fn lemma_deliver_prefix(cluster: Seq<NodeView>, i: int, upto: int)
    requires
        0 <= i < cluster.len(),
        0 <= upto <= cluster[i].targets().len(),
    ensures
        deliver_all(cluster, cluster[i].fan_out().take(upto)).len() == cluster.len(),
        forall|j: int|
            0 <= j < cluster.len() ==> #[trigger] deliver_all(
                cluster,
                cluster[i].fan_out().take(upto),
            )[j] == if cluster[i].targets().take(upto).contains(cluster[j].node_id) {
                cluster[j].merge(cluster[i].seen)
            } else {
                cluster[j]
            },
    decreases upto,
{
    let sender = cluster[i];
    let msgs = sender.fan_out().take(upto);
    let targets = sender.targets();
    if upto > 0 {
        lemma_deliver_prefix(cluster, i, upto - 1);
        assert(msgs.drop_last() =~= sender.fan_out().take(upto - 1));
        let before = deliver_all(cluster, msgs.drop_last());
        let msg = msgs.last();
        assert(msg == sender.gossip_to(targets[upto - 1]));
        let after = deliver_all(cluster, msgs);
        assert(after == deliver(before, msg));
        assert forall|j: int| 0 <= j < cluster.len() implies #[trigger] after[j] == if targets.take(
            upto,
        ).contains(cluster[j].node_id) {
            cluster[j].merge(sender.seen)
        } else {
            cluster[j]
        } by {
            let id = cluster[j].node_id;
            let short = targets.take(upto - 1);
            let long = targets.take(upto);
            assert(before[j].node_id == id);
            if short.contains(id) {
                let k = choose|k: int| 0 <= k < short.len() && short[k] == id;
                assert(long[k] == id);
            }
            if targets[upto - 1] == id {
                assert(long[upto - 1] == id);
            }
            if long.contains(id) {
                let k = choose|k: int| 0 <= k < long.len() && long[k] == id;
                if k < upto - 1 {
                    assert(short[k] == id);
                }
            }
            lemma_merge_idempotent(cluster[j].seen, sender.seen);
        }
    } else {
        assert(msgs =~= Seq::<MessageView>::empty());
        assert(targets.take(0) =~= Seq::<Seq<char>>::empty());
    }
}

/// What one tick does: every node that the ticking node gossips to has merged
/// the ticking node's set, and no other node has changed.
pub proof fn lemma_tick(cluster: Seq<NodeView>, i: int)
    requires
        0 <= i < cluster.len(),
    ensures
        tick(cluster, i).len() == cluster.len(),
        forall|j: int|
            0 <= j < cluster.len() ==> #[trigger] tick(cluster, i)[j] == if edge(cluster, i, j) {
                cluster[j].merge(cluster[i].seen)
            } else {
                cluster[j]
            },
{
    let targets = cluster[i].targets();
    lemma_deliver_prefix(cluster, i, targets.len() as int);
    assert(cluster[i].fan_out().take(targets.len() as int) =~= cluster[i].fan_out());
    assert(targets.take(targets.len() as int) =~= targets);
}

/// Whether `after` can come of `before` by gossip: the nodes and their
/// neighbours are the same, no node has forgotten a value, and no node knows a
/// value that no node knew before.
pub open spec fn gossiped(before: Seq<NodeView>, after: Seq<NodeView>) -> bool {
    &&& same_graph(before, after)
    &&& forall|j: int|
        0 <= j < before.len() ==> (#[trigger] before[j]).seen.subset_of(after[j].seen)
    &&& forall|j: int|
        0 <= j < after.len() ==> (#[trigger] after[j]).seen.subset_of(known(before))
}

/// Gossip after gossip is gossip.
pub proof fn lemma_gossiped_transitive(
    first: Seq<NodeView>,
    second: Seq<NodeView>,
    third: Seq<NodeView>,
)
    requires
        gossiped(first, second),
        gossiped(second, third),
    ensures
        gossiped(first, third),
{
    assert forall|j: int| 0 <= j < third.len() implies (#[trigger] third[j]).seen.subset_of(
        known(first),
    ) by {
        assert forall|value: usize| third[j].seen.contains(value) implies known(first).contains(
            value,
        ) by {
            assert(known(second).contains(value));
            let k = choose|k: int| 0 <= k < second.len() && #[trigger] second[k].seen.contains(value);
            assert(second[k].seen.subset_of(known(first)));
        }
    }
    assert forall|j: int| 0 <= j < first.len() implies (#[trigger] first[j]).seen.subset_of(
        third[j].seen,
    ) by {
        assert(second[j].seen.subset_of(third[j].seen));
    }
    assert forall|j: int| 0 <= j < first.len() implies (#[trigger] first[j]).node_id
        == third[j].node_id && first[j].neighbours == third[j].neighbours by {
        assert(second[j].node_id == third[j].node_id);
    }
}

/// Nothing changes in a cluster where nothing happens.
pub proof fn lemma_gossiped_reflexive(cluster: Seq<NodeView>)
    ensures
        gossiped(cluster, cluster),
{
    assert forall|j: int| 0 <= j < cluster.len() implies (#[trigger] cluster[j]).seen.subset_of(
        known(cluster),
    ) by {
        assert forall|value: usize| cluster[j].seen.contains(value) implies known(
            cluster,
        ).contains(value) by {}
    }
}

/// One tick is gossip.
pub proof fn lemma_tick_gossiped(cluster: Seq<NodeView>, i: int)
    ensures
        gossiped(cluster, tick(cluster, i)),
{
    if 0 <= i < cluster.len() {
        lemma_tick(cluster, i);
        lemma_gossiped_reflexive(cluster);
        let after = tick(cluster, i);
        assert forall|j: int| 0 <= j < after.len() implies (#[trigger] after[j]).seen.subset_of(
            known(cluster),
        ) by {
            assert(cluster[j].seen.subset_of(known(cluster)));
            assert(cluster[i].seen.subset_of(known(cluster)));
        }
        assert forall|j: int| 0 <= j < cluster.len() implies (#[trigger] cluster[j]).seen.subset_of(
            after[j].seen,
        ) by {}
        assert forall|j: int| 0 <= j < cluster.len() implies (#[trigger] cluster[j]).node_id
            == after[j].node_id && cluster[j].neighbours == after[j].neighbours by {}
    } else {
        lemma_gossiped_reflexive(cluster);
    }
}

/// Any number of ticks is gossip.
pub proof fn lemma_ticks_gossiped(cluster: Seq<NodeView>, schedule: Seq<int>)
    ensures
        gossiped(cluster, ticks(cluster, schedule)),
    decreases schedule.len(),
{
    if schedule.len() == 0 {
        lemma_gossiped_reflexive(cluster);
    } else {
        let before = ticks(cluster, schedule.drop_last());
        lemma_ticks_gossiped(cluster, schedule.drop_last());
        lemma_tick_gossiped(before, schedule.last());
        lemma_gossiped_transitive(cluster, before, tick(before, schedule.last()));
    }
}

/// Two schedules run one after the other are one schedule.
pub proof fn lemma_ticks_concat(cluster: Seq<NodeView>, first: Seq<int>, second: Seq<int>)
    ensures
        ticks(cluster, first + second) == ticks(ticks(cluster, first), second),
    decreases second.len(),
{
    if second.len() == 0 {
        assert(first + second =~= first);
    } else {
        lemma_ticks_concat(cluster, first, second.drop_last());
        assert((first + second).drop_last() =~= first + second.drop_last());
        assert((first + second).last() == second.last());
    }
}

/// The graph decides what reaches what: the values do not.
pub proof fn lemma_reach_same_graph(
    left: Seq<NodeView>,
    right: Seq<NodeView>,
    from: int,
    to: int,
    hops: nat,
)
    requires
        same_graph(left, right),
        reach(left, from, to, hops),
    ensures
        reach(right, from, to, hops),
    decreases hops,
{
    if hops > 0 {
        if reach(left, from, to, (hops - 1) as nat) {
            lemma_reach_same_graph(left, right, from, to, (hops - 1) as nat);
        } else {
            let mid = choose|mid: int|
                #[trigger] edge(left, from, mid) && reach(left, mid, to, (hops - 1) as nat);
            lemma_reach_same_graph(left, right, mid, to, (hops - 1) as nat);
            assert(left[from].node_id == right[from].node_id);
            assert(left[mid].node_id == right[mid].node_id);
            assert(edge(right, from, mid));
        }
    }
}

/// A schedule that gives every node its turn carries what each node knew
/// across each of its edges.
pub proof fn lemma_sweep_carries(cluster: Seq<NodeView>, schedule: Seq<int>, from: int, to: int)
    requires
        complete(schedule, cluster.len()),
        edge(cluster, from, to),
    ensures
        cluster[from].seen.subset_of(ticks(cluster, schedule)[to].seen),
{
    assert(schedule.contains(from));
    let at = choose|at: int| 0 <= at < schedule.len() && schedule[at] == from;
    let head = schedule.take(at);
    let tail = schedule.skip(at + 1);
    assert(schedule =~= (head + seq![from]) + tail);
    lemma_ticks_concat(cluster, head + seq![from], tail);
    lemma_ticks_concat(cluster, head, seq![from]);
    let before = ticks(cluster, head);
    lemma_ticks_gossiped(cluster, head);
    assert(seq![from].drop_last() =~= Seq::<int>::empty());
    assert(seq![from].last() == from);
    assert(ticks(before, seq![from].drop_last()) == before);
    assert(ticks(before, seq![from]) == tick(before, from));
    let fired = tick(before, from);
    lemma_tick(before, from);
    assert(cluster[from].node_id == before[from].node_id);
    assert(cluster[to].node_id == before[to].node_id);
    assert(edge(before, from, to));
    assert(fired[to] == before[to].merge(before[from].seen));
    lemma_ticks_gossiped(fired, tail);
    assert(cluster[from].seen.subset_of(before[from].seen));
    assert(fired[to].seen.subset_of(ticks(fired, tail)[to].seen));
}

/// Any number of schedules is gossip.
pub proof fn lemma_sweeps_gossiped(cluster: Seq<NodeView>, sweeps: Seq<Seq<int>>)
    ensures
        gossiped(cluster, sweep_all(cluster, sweeps)),
    decreases sweeps.len(),
{
    if sweeps.len() == 0 {
        lemma_gossiped_reflexive(cluster);
    } else {
        let next = ticks(cluster, sweeps.first());
        lemma_ticks_gossiped(cluster, sweeps.first());
        lemma_sweeps_gossiped(next, sweeps.drop_first());
        lemma_gossiped_transitive(cluster, next, sweep_all(next, sweeps.drop_first()));
    }
}

/// What a node knew gets as far in `hops` complete schedules as gossip gets
/// over `hops` edges.
pub proof fn lemma_sweeps_carry(
    cluster: Seq<NodeView>,
    sweeps: Seq<Seq<int>>,
    from: int,
    to: int,
    hops: nat,
)
    requires
        forall|k: int| 0 <= k < sweeps.len() ==> complete(#[trigger] sweeps[k], cluster.len()),
        hops <= sweeps.len(),
        reach(cluster, from, to, hops),
    ensures
        0 <= from < cluster.len(),
        0 <= to < cluster.len(),
        cluster[from].seen.subset_of(sweep_all(cluster, sweeps)[to].seen),
    decreases hops,
{
    lemma_sweeps_gossiped(cluster, sweeps);
    if hops > 0 {
        let next = ticks(cluster, sweeps.first());
        let rest = sweeps.drop_first();
        lemma_ticks_gossiped(cluster, sweeps.first());
        assert forall|k: int| 0 <= k < rest.len() implies complete(
            #[trigger] rest[k],
            next.len(),
        ) by {
            assert(rest[k] == sweeps[k + 1]);
        }
        if reach(cluster, from, to, (hops - 1) as nat) {
            lemma_reach_same_graph(cluster, next, from, to, (hops - 1) as nat);
            lemma_sweeps_carry(next, rest, from, to, (hops - 1) as nat);
            assert(cluster[from].seen.subset_of(next[from].seen));
        } else {
            let mid = choose|mid: int|
                #[trigger] edge(cluster, from, mid) && reach(cluster, mid, to, (hops - 1) as nat);
            lemma_sweep_carries(cluster, sweeps.first(), from, mid);
            lemma_reach_same_graph(cluster, next, mid, to, (hops - 1) as nat);
            lemma_sweeps_carry(next, rest, mid, to, (hops - 1) as nat);
        }
    }
}

/// Eventual convergence. In a cluster where gossip gets from every node to
/// every other over at most `hops` edges, `hops` schedules that each give
/// every node its turn, with every message delivered, leave every node with
/// every value that any node knew; and whatever ticks follow, it stays so.
pub proof fn lemma_gossip_converges(
    cluster: Seq<NodeView>,
    hops: nat,
    sweeps: Seq<Seq<int>>,
    later: Seq<int>,
)
    requires
        forall|from: int, to: int|
            0 <= from < cluster.len() && 0 <= to < cluster.len() ==> #[trigger] reach(
                cluster,
                from,
                to,
                hops,
            ),
        forall|k: int| 0 <= k < sweeps.len() ==> complete(#[trigger] sweeps[k], cluster.len()),
        hops <= sweeps.len(),
    ensures
        ticks(sweep_all(cluster, sweeps), later).len() == cluster.len(),
        forall|j: int|
            0 <= j < cluster.len() ==> (#[trigger] ticks(
                sweep_all(cluster, sweeps),
                later,
            )[j]).seen == known(cluster),
{
    let swept = sweep_all(cluster, sweeps);
    let end = ticks(swept, later);
    lemma_sweeps_gossiped(cluster, sweeps);
    lemma_ticks_gossiped(swept, later);
    lemma_gossiped_transitive(cluster, swept, end);
    assert forall|j: int| 0 <= j < cluster.len() implies (#[trigger] end[j]).seen == known(
        cluster,
    ) by {
        assert(end[j].seen.subset_of(known(cluster)));
        assert forall|value: usize| known(cluster).contains(value) implies end[j].seen.contains(
            value,
        ) by {
            let from = choose|from: int|
                0 <= from < cluster.len() && #[trigger] cluster[from].seen.contains(value);
            assert(reach(cluster, from, j, hops));
            lemma_sweeps_carry(cluster, sweeps, from, j, hops);
            assert(swept[j].seen.subset_of(end[j].seen));
        }
        assert(end[j].seen =~= known(cluster));
    }
}

/// Whether gossip gets from node `from` to node `to` at all.
pub open spec fn linked(cluster: Seq<NodeView>, from: int, to: int) -> bool {
    exists|hops: nat| reach(cluster, from, to, hops)
}

/// Whether the neighbour graph is connected: gossip gets from every node to
/// every other.
pub open spec fn connected(cluster: Seq<NodeView>) -> bool {
    forall|from: int, to: int|
        0 <= from < cluster.len() && 0 <= to < cluster.len() ==> #[trigger] linked(
            cluster,
            from,
            to,
        )
}

/// A number of edges over which gossip gets from `from` to `to`, where it
/// gets there at all.
pub open spec fn distance(cluster: Seq<NodeView>, from: int, to: int) -> nat {
    choose|hops: nat| reach(cluster, from, to, hops)
}

/// The greatest distance from `from` to one of the first `upto` nodes.
pub open spec fn farthest(cluster: Seq<NodeView>, from: int, upto: nat) -> nat
    decreases upto,
{
    if upto == 0 {
        0
    } else {
        let near = farthest(cluster, from, (upto - 1) as nat);
        let far = distance(cluster, from, upto - 1);
        if near >= far {
            near
        } else {
            far
        }
    }
}

/// The greatest distance from one of the first `upto` nodes to any node.
pub open spec fn span(cluster: Seq<NodeView>, upto: nat) -> nat
    decreases upto,
{
    if upto == 0 {
        0
    } else {
        let near = span(cluster, (upto - 1) as nat);
        let far = farthest(cluster, upto - 1, cluster.len());
        if near >= far {
            near
        } else {
            far
        }
    }
}

/// A number of edges that is enough between any two nodes of a connected
/// cluster.
pub open spec fn diameter(cluster: Seq<NodeView>) -> nat {
    span(cluster, cluster.len())
}

/// What is reached over few edges is reached over more.
pub proof fn lemma_reach_monotone(
    cluster: Seq<NodeView>,
    from: int,
    to: int,
    few: nat,
    many: nat,
)
    requires
        few <= many,
        reach(cluster, from, to, few),
    ensures
        reach(cluster, from, to, many),
    decreases many,
{
    if few < many {
        lemma_reach_monotone(cluster, from, to, few, (many - 1) as nat);
    }
}

proof fn lemma_farthest_bounds(cluster: Seq<NodeView>, from: int, upto: nat, to: int)
    requires
        0 <= to < upto,
    ensures
        distance(cluster, from, to) <= farthest(cluster, from, upto),
    decreases upto,
{
    if to < upto - 1 {
        lemma_farthest_bounds(cluster, from, (upto - 1) as nat, to);
    }
}

proof fn lemma_span_bounds(cluster: Seq<NodeView>, upto: nat, from: int)
    requires
        0 <= from < upto,
    ensures
        farthest(cluster, from, cluster.len()) <= span(cluster, upto),
    decreases upto,
{
    if from < upto - 1 {
        lemma_span_bounds(cluster, (upto - 1) as nat, from);
    }
}

/// In a connected cluster gossip gets from every node to every other over at
/// most `diameter` edges.
pub proof fn lemma_connected_within_diameter(cluster: Seq<NodeView>)
    requires
        connected(cluster),
    ensures
        forall|from: int, to: int|
            0 <= from < cluster.len() && 0 <= to < cluster.len() ==> #[trigger] reach(
                cluster,
                from,
                to,
                diameter(cluster),
            ),
{
    assert forall|from: int, to: int|
        0 <= from < cluster.len() && 0 <= to < cluster.len() implies #[trigger] reach(
        cluster,
        from,
        to,
        diameter(cluster),
    ) by {
        assert(linked(cluster, from, to));
        assert(reach(cluster, from, to, distance(cluster, from, to)));
        lemma_farthest_bounds(cluster, from, cluster.len(), to);
        lemma_span_bounds(cluster, cluster.len(), from);
        lemma_reach_monotone(
            cluster,
            from,
            to,
            distance(cluster, from, to),
            diameter(cluster),
        );
    }
}

/// Eventual convergence of a connected cluster. Once the neighbour graph is
/// connected and no message is lost, enough rounds of gossip ticks leave
/// every node with every value that any node knew, and it stays so: for
/// every number of rounds from the diameter on, each round giving every node
/// its turn in any order, and for any ticks after them.
pub proof fn lemma_eventual_convergence(
    cluster: Seq<NodeView>,
    sweeps: Seq<Seq<int>>,
    later: Seq<int>,
)
    requires
        connected(cluster),
        forall|k: int| 0 <= k < sweeps.len() ==> complete(#[trigger] sweeps[k], cluster.len()),
        diameter(cluster) <= sweeps.len(),
    ensures
        ticks(sweep_all(cluster, sweeps), later).len() == cluster.len(),
        forall|j: int|
            0 <= j < cluster.len() ==> (#[trigger] ticks(
                sweep_all(cluster, sweeps),
                later,
            )[j]).seen == known(cluster),
{
    lemma_connected_within_diameter(cluster);
    lemma_gossip_converges(cluster, diameter(cluster), sweeps, later);
}

} // verus!
