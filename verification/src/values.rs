//! The replicated value set as a mathematical set, and the two loops over
//! `HashSet<usize>` that the rest of the crate builds on.

use std::collections::HashSet;
use vstd::prelude::*;

verus! {

broadcast use vstd::std_specs::hash::group_hash_axioms;

/// The set a node knows after learning `incoming` on top of `seen`.
pub open spec fn merged(seen: Set<usize>, incoming: Set<usize>) -> Set<usize> {
    seen.union(incoming)
}

/// The set a node knows after observing `value` on top of `seen`.
pub open spec fn observed(seen: Set<usize>, value: usize) -> Set<usize> {
    seen.insert(value)
}

/// Whether `seen` holds what `before` held and the first `upto` of `items`, and
/// nothing else.
spec fn holds_prefix(seen: Set<usize>, before: Set<usize>, items: Seq<&usize>, upto: int) -> bool {
    forall|x: usize|
        seen.contains(x) <==> before.contains(x) || exists|j: int|
            0 <= j < upto && *items[j] == x
}

proof fn lemma_holds_all(
    seen: Set<usize>,
    before: Set<usize>,
    items: Seq<&usize>,
    upto: int,
    incoming: Set<usize>,
)
    requires
        holds_prefix(seen, before, items, upto),
        items.unref().to_set() == incoming,
    ensures
        upto == items.len() ==> seen == merged(before, incoming),
{
    if upto == items.len() {
        let all = items.unref();
        assert forall|x: usize| seen.contains(x) <==> merged(before, incoming).contains(x) by {
            if incoming.contains(x) {
                let j = choose|j: int| 0 <= j < all.len() && all[j] == x;
                assert(*items[j] == x);
            }
            if exists|j: int| 0 <= j < items.len() && *items[j] == x {
                let j = choose|j: int| 0 <= j < items.len() && *items[j] == x;
                assert(all[j] == x);
            }
        }
        assert(seen =~= merged(before, incoming));
    }
}

/// Inserts every value of `incoming` into `seen`.
pub fn merge_into(seen: &mut HashSet<usize>, incoming: &HashSet<usize>)
    ensures
        final(seen)@ == merged(old(seen)@, incoming@),
{
    let ghost before = seen@;
    for value in it: incoming.iter()
        invariant
            it.seq().unref().to_set() == incoming@,
            holds_prefix(seen@, before, it.seq(), it.index()),
            it.index() == it.seq().len() ==> seen@ == merged(before, incoming@),
    {
        let ghost prior = seen@;
        seen.insert(*value);
        proof {
            assert forall|x: usize|
                seen@.contains(x) <==> before.contains(x) || exists|j: int|
                    0 <= j < it.index() + 1 && *it.seq()[j] == x by {
                if x == *value {
                    assert(*it.seq()[it.index()] == x);
                }
            }
            assert(holds_prefix(seen@, before, it.seq(), it.index() + 1));
            lemma_holds_all(seen@, before, it.seq(), it.index() + 1, incoming@);
        }
    }
}

/// A fresh set with the values of `set`.
pub fn copy_of(set: &HashSet<usize>) -> (copy: HashSet<usize>)
    ensures
        copy@ == set@,
{
    let mut copy: HashSet<usize> = HashSet::new();
    merge_into(&mut copy, set);
    assert(copy@ =~= set@);
    copy
}

} // verus!
