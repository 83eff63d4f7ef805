use vstd::prelude::*;

use crate::dispatcher::lemma_joined_push;
use crate::model::{collects_api, collects_hashes, is_walk, joined, runtimes_of};
use crate::runtime::{gave_api, gave_hashes, Runtime};
use crate::types::ServiceInstanceId;

verus! {

/// Of several runtimes with one identifier a dispatcher has the last that it is made with.
pub proof fn law_last_runtime_is_kept<R>(pairs: Seq<(u32, R)>, last: int)
    requires
        0 <= last < pairs.len(),
        forall|j: int| last < j < pairs.len() ==> (#[trigger] pairs[j]).0 != pairs[last].0,
    ensures
        runtimes_of(pairs).contains_key(pairs[last].0),
        runtimes_of(pairs)[pairs[last].0] == pairs[last].1,
    decreases pairs.len(),
{
    if last < pairs.len() - 1 {
        let fewer = pairs.drop_last();
        assert forall|j: int| last < j < fewer.len() implies (#[trigger] fewer[j]).0
            != fewer[last].0 by {
            assert(pairs[j].0 != pairs[last].0);
        }
        law_last_runtime_is_kept(fewer, last);
        assert(pairs[pairs.len() - 1].0 != pairs[last].0);
    }
}

/// A dispatcher has no runtime that it is not made with.
pub proof fn law_no_runtime_is_made_up<R>(pairs: Seq<(u32, R)>, id: u32)
    requires
        forall|i: int| 0 <= i < pairs.len() ==> (#[trigger] pairs[i]).0 != id,
    ensures
        !runtimes_of(pairs).contains_key(id),
    decreases pairs.len(),
{
    if pairs.len() > 0 {
        let fewer = pairs.drop_last();
        assert forall|i: int| 0 <= i < fewer.len() implies (#[trigger] fewer[i]).0 != id by {
            assert(pairs[i].0 != id);
        }
        law_no_runtime_is_made_up(fewer, id);
        assert(pairs[pairs.len() - 1].0 != id);
    }
}

/// The runtimes of two lists are those of both; where they have a common identifier, those of the
/// second.
proof fn lemma_runtimes_of_both<R>(first: Seq<(u32, R)>, second: Seq<(u32, R)>)
    ensures
        runtimes_of(first + second) == runtimes_of(first).union_prefer_right(runtimes_of(second)),
    decreases second.len(),
{
    if second.len() == 0 {
        assert(first + second == first);
    } else {
        lemma_runtimes_of_both(first, second.drop_last());
        assert((first + second).drop_last() == first + second.drop_last());
        assert(runtimes_of(first + second) =~= runtimes_of(first).union_prefer_right(
            runtimes_of(second),
        ));
    }
}

/// On a walk through the runtimes `part` was gathered from the runtime `id`.
spec fn was_gathered<T>(order: Seq<u32>, parts: Seq<Vec<T>>, id: u32, part: Vec<T>) -> bool {
    exists|j: int| 0 <= j < order.len() && #[trigger] order[j] == id && parts[j] == part
}

/// Part of a walk through the runtimes, and what was gathered on it.
spec fn is_part_of_walk<T>(
    order: Seq<u32>,
    parts: Seq<Vec<T>>,
    whole: Seq<u32>,
    whole_parts: Seq<Vec<T>>,
) -> bool {
    &&& order.len() == parts.len()
    &&& order.no_duplicates()
    &&& forall|i: int|
        0 <= i < order.len() ==> was_gathered(
            whole,
            whole_parts,
            #[trigger] order[i],
            parts[i],
        )
}

/// A walk through the runtimes splits in two: that through the runtimes inside a set, and that
/// through the others. What is gathered on both is what is gathered on the whole.
proof fn lemma_walk_splits<T>(order: Seq<u32>, parts: Seq<Vec<T>>, inside: Set<u32>) -> (split: (
    (Seq<u32>, Seq<Vec<T>>),
    (Seq<u32>, Seq<Vec<T>>),
))
    requires
        order.len() == parts.len(),
        order.no_duplicates(),
    ensures
        is_part_of_walk(split.0.0, split.0.1, order, parts),
        is_part_of_walk(split.1.0, split.1.1, order, parts),
        forall|id: u32| #[trigger]
            split.0.0.contains(id) <==> order.contains(id) && inside.contains(id),
        forall|id: u32| #[trigger]
            split.1.0.contains(id) <==> order.contains(id) && !inside.contains(id),
        joined(parts).to_multiset() == joined(split.0.1).to_multiset().add(
            joined(split.1.1).to_multiset(),
        ),
    decreases order.len(),
{
    broadcast use vstd::seq_lib::group_to_multiset_ensures;

    let none: (Seq<u32>, Seq<Vec<T>>) = (Seq::empty(), Seq::empty());
    if order.len() == 0 {
        assert(joined(parts) == Seq::<T>::empty());
        assert(joined(none.1) == Seq::<T>::empty());
        assert(joined(parts).to_multiset() =~= joined(none.1).to_multiset().add(
            joined(none.1).to_multiset(),
        ));
        (none, none)
    } else {
        let id = order.last();
        let part = parts.last();
        let fewer = order.drop_last();
        let fewer_parts = parts.drop_last();
        let (mine, others) = lemma_walk_splits(fewer, fewer_parts, inside);
        assert(fewer_parts.push(part) == parts);
        assert(fewer.push(id) == order);
        lemma_joined_push(fewer_parts, part);
        vstd::seq_lib::lemma_multiset_commutative(joined(fewer_parts), part@);
        assert(!fewer.contains(id)) by {
            if fewer.contains(id) {
                let k = fewer.index_of(id);
                assert(order[k] == order[order.len() - 1]);
            }
        }
        if inside.contains(id) {
            let more = (mine.0.push(id), mine.1.push(part));
            lemma_part_of_walk_grows(mine, fewer, fewer_parts, id, part);
            lemma_part_of_longer_walk(others, fewer, fewer_parts, id, part);
            lemma_joined_push(mine.1, part);
            vstd::seq_lib::lemma_multiset_commutative(joined(mine.1), part@);
            assert(joined(parts).to_multiset() =~= joined(more.1).to_multiset().add(
                joined(others.1).to_multiset(),
            ));
            assert forall|other: u32| #[trigger] more.0.contains(other) <==> order.contains(other)
                && inside.contains(other) by {
                lemma_push_contains(mine.0, id, other);
                lemma_push_contains(fewer, id, other);
                assert(mine.0.contains(other) <==> fewer.contains(other) && inside.contains(
                    other,
                ));
            }
            assert forall|other: u32| #[trigger]
                others.0.contains(other) <==> order.contains(other) && !inside.contains(other) by {
                lemma_push_contains(fewer, id, other);
            }
            (more, others)
        } else {
            let more = (others.0.push(id), others.1.push(part));
            lemma_part_of_walk_grows(others, fewer, fewer_parts, id, part);
            lemma_part_of_longer_walk(mine, fewer, fewer_parts, id, part);
            lemma_joined_push(others.1, part);
            vstd::seq_lib::lemma_multiset_commutative(joined(others.1), part@);
            assert(joined(parts).to_multiset() =~= joined(mine.1).to_multiset().add(
                joined(more.1).to_multiset(),
            ));
            assert forall|other: u32| #[trigger] more.0.contains(other) <==> order.contains(other)
                && !inside.contains(other) by {
                lemma_push_contains(others.0, id, other);
                lemma_push_contains(fewer, id, other);
                assert(others.0.contains(other) <==> fewer.contains(other) && !inside.contains(
                    other,
                ));
            }
            assert forall|other: u32| #[trigger]
                mine.0.contains(other) <==> order.contains(other) && inside.contains(other) by {
                lemma_push_contains(fewer, id, other);
            }
            (mine, more)
        }
    }
}

proof fn lemma_push_contains(order: Seq<u32>, id: u32, other: u32)
    ensures
        order.push(id).contains(other) <==> order.contains(other) || other == id,
{
    if order.contains(other) {
        let k = order.index_of(other);
        assert(order.push(id)[k] == other);
    }
    assert(order.push(id)[order.len() as int] == id);
    if order.push(id).contains(other) && other != id {
        let k = order.push(id).index_of(other);
        assert(order[k] == other);
    }
}

/// Part of a walk is part of the walk that goes one runtime further.
proof fn lemma_part_of_longer_walk<T>(
    some: (Seq<u32>, Seq<Vec<T>>),
    order: Seq<u32>,
    parts: Seq<Vec<T>>,
    id: u32,
    part: Vec<T>,
)
    requires
        is_part_of_walk(some.0, some.1, order, parts),
        order.len() == parts.len(),
    ensures
        is_part_of_walk(some.0, some.1, order.push(id), parts.push(part)),
{
    let longer = order.push(id);
    let longer_parts = parts.push(part);
    assert forall|i: int| 0 <= i < some.0.len() implies was_gathered(
        longer,
        longer_parts,
        #[trigger] some.0[i],
        some.1[i],
    ) by {
        let j = choose|j: int|
            0 <= j < order.len() && #[trigger] order[j] == some.0[i] && parts[j] == some.1[i];
        assert(longer[j] == some.0[i] && longer_parts[j] == some.1[i]);
    }
}

/// Part of a walk goes one runtime further, as the walk does.
proof fn lemma_part_of_walk_grows<T>(
    some: (Seq<u32>, Seq<Vec<T>>),
    order: Seq<u32>,
    parts: Seq<Vec<T>>,
    id: u32,
    part: Vec<T>,
)
    requires
        is_part_of_walk(some.0, some.1, order, parts),
        order.len() == parts.len(),
        !order.contains(id),
    ensures
        is_part_of_walk(some.0.push(id), some.1.push(part), order.push(id), parts.push(part)),
{
    let more = (some.0.push(id), some.1.push(part));
    let longer = order.push(id);
    let longer_parts = parts.push(part);
    lemma_part_of_longer_walk(some, order, parts, id, part);
    assert forall|i: int| 0 <= i < more.0.len() implies was_gathered(
        longer,
        longer_parts,
        #[trigger] more.0[i],
        more.1[i],
    ) by {
        if i < some.0.len() {
            assert(was_gathered(longer, longer_parts, some.0[i], some.1[i]));
        } else {
            let j = order.len() as int;
            assert(longer[j] == more.0[i] && longer_parts[j] == more.1[i]);
        }
    }
    assert(!some.0.contains(id)) by {
        if some.0.contains(id) {
            let i = some.0.index_of(id);
            assert(was_gathered(order, parts, some.0[i], some.1[i]));
            let j = choose|j: int|
                0 <= j < order.len() && #[trigger] order[j] == some.0[i] && parts[j] == some.1[i];
            assert(order.contains(id));
        }
    }
    assert forall|i: int, j: int| 0 <= i < j < more.0.len() implies more.0[i] != more.0[j] by {
        assert(some.0.contains(some.0[i]));
    }
    assert(more.0.len() == more.1.len());
    assert(more.0.no_duplicates());
    assert(is_part_of_walk(more.0, more.1, longer, longer_parts));
}

/// A walk through the runtimes of two lists without a common identifier is a walk through those
/// of each, and what is gathered on it is what is gathered on both.
proof fn lemma_walk_of_both_splits<R, T>(
    first: Seq<(u32, R)>,
    second: Seq<(u32, R)>,
    order: Seq<u32>,
    parts: Seq<Vec<T>>,
    gave: spec_fn(R, Vec<T>) -> bool,
) -> (split: ((Seq<u32>, Seq<Vec<T>>), (Seq<u32>, Seq<Vec<T>>)))
    requires
        forall|i: int, j: int|
            0 <= i < first.len() && 0 <= j < second.len() ==> (#[trigger] first[i]).0 != (
            #[trigger] second[j]).0,
        is_walk(order, runtimes_of(first + second)),
        parts.len() == order.len(),
        forall|i: int|
            0 <= i < order.len() ==> gave(
                runtimes_of(first + second)[#[trigger] order[i]],
                parts[i],
            ),
    ensures
        is_walk(split.0.0, runtimes_of(first)),
        is_walk(split.1.0, runtimes_of(second)),
        split.0.0.len() == split.0.1.len(),
        split.1.0.len() == split.1.1.len(),
        forall|i: int|
            0 <= i < split.0.0.len() ==> gave(
                runtimes_of(first)[#[trigger] split.0.0[i]],
                split.0.1[i],
            ),
        forall|i: int|
            0 <= i < split.1.0.len() ==> gave(
                runtimes_of(second)[#[trigger] split.1.0[i]],
                split.1.1[i],
            ),
        joined(parts).to_multiset() == joined(split.0.1).to_multiset().add(
            joined(split.1.1).to_multiset(),
        ),
{
    let one = runtimes_of(first);
    let two = runtimes_of(second);
    let both = runtimes_of(first + second);
    lemma_runtimes_of_both(first, second);
    let (mine, others) = lemma_walk_splits(order, parts, one.dom());
    assert forall|id: u32| one.contains_key(id) implies !two.contains_key(id) by {
        lemma_runtime_is_listed(first, id);
        if two.contains_key(id) {
            lemma_runtime_is_listed(second, id);
        }
    }
    assert forall|id: u32| #[trigger] order.contains(id) <==> both.contains_key(id) by {
        assert(order.to_set().contains(id) <==> both.dom().contains(id));
    }
    assert(mine.0.to_set() =~= one.dom());
    assert(others.0.to_set() =~= two.dom());
    assert forall|i: int| 0 <= i < mine.0.len() implies gave(
        one[#[trigger] mine.0[i]],
        mine.1[i],
    ) by {
        let j = choose|j: int|
            0 <= j < order.len() && #[trigger] order[j] == mine.0[i] && parts[j] == mine.1[i];
        assert(mine.0.contains(mine.0[i]));
        assert(one.contains_key(mine.0[i]));
        assert(both[order[j]] == one[mine.0[i]]);
    }
    assert forall|i: int| 0 <= i < others.0.len() implies gave(
        two[#[trigger] others.0[i]],
        others.1[i],
    ) by {
        let j = choose|j: int|
            0 <= j < order.len() && #[trigger] order[j] == others.0[i] && parts[j] == others.1[i];
        assert(others.0.contains(others.0[i]));
        assert(both[order[j]] == two[others.0[i]]);
    }
    (mine, others)
}

/// A runtime that a dispatcher has is one that it is made with.
proof fn lemma_runtime_is_listed<R>(pairs: Seq<(u32, R)>, id: u32) -> (i: int)
    requires
        runtimes_of(pairs).contains_key(id),
    ensures
        0 <= i < pairs.len(),
        pairs[i].0 == id,
    decreases pairs.len(),
{
    if pairs.last().0 == id {
        pairs.len() - 1
    } else {
        lemma_runtime_is_listed(pairs.drop_last(), id)
    }
}

/// The state hashes of the runtimes of two lists without a common identifier are those of the
/// one together with those of the other.
pub proof fn law_hashes_are_those_of_each_runtime<R: Runtime>(
    first: Seq<(u32, R)>,
    second: Seq<(u32, R)>,
    snapshot: R::Snapshot,
    hashes: Seq<(ServiceInstanceId, Vec<crate::types::Hash>)>,
)
    requires
        forall|i: int, j: int|
            0 <= i < first.len() && 0 <= j < second.len() ==> (#[trigger] first[i]).0 != (
            #[trigger] second[j]).0,
        collects_hashes(runtimes_of(first + second), snapshot, hashes),
    ensures
        exists|
            mine: Seq<(ServiceInstanceId, Vec<crate::types::Hash>)>,
            others: Seq<(ServiceInstanceId, Vec<crate::types::Hash>)>,
        | #[trigger]
            collects_hashes(runtimes_of(first), snapshot, mine) && #[trigger] collects_hashes(
                runtimes_of(second),
                snapshot,
                others,
            ) && hashes.to_multiset() == mine.to_multiset().add(others.to_multiset()),
{
    let both = runtimes_of(first + second);
    let (order, parts) = choose|
        order: Seq<u32>,
        parts: Seq<Vec<(ServiceInstanceId, Vec<crate::types::Hash>)>>,
    | #[trigger]
        is_walk(order, both) && #[trigger] joined(parts) == hashes && parts.len() == order.len()
            && forall|i: int|
            0 <= i < order.len() ==> gave_hashes(both[#[trigger] order[i]], snapshot, parts[i]);
    let gave = |runtime: R, part: Vec<(ServiceInstanceId, Vec<crate::types::Hash>)>|
        gave_hashes(runtime, snapshot, part);
    let (mine, others) = lemma_walk_of_both_splits(first, second, order, parts, gave);
    let one = runtimes_of(first);
    let two = runtimes_of(second);
    assert forall|i: int| 0 <= i < mine.0.len() implies gave_hashes(
        one[#[trigger] mine.0[i]],
        snapshot,
        mine.1[i],
    ) by {
        assert(gave(one[mine.0[i]], mine.1[i]));
    }
    assert forall|i: int| 0 <= i < others.0.len() implies gave_hashes(
        two[#[trigger] others.0[i]],
        snapshot,
        others.1[i],
    ) by {
        assert(gave(two[others.0[i]], others.1[i]));
    }
    assert(collects_hashes(one, snapshot, joined(mine.1)));
    assert(collects_hashes(two, snapshot, joined(others.1)));
}

/// The APIs of the runtimes of two lists without a common identifier are those of the one
/// together with those of the other.
pub proof fn law_apis_are_those_of_each_runtime<R: Runtime>(
    first: Seq<(u32, R)>,
    second: Seq<(u32, R)>,
    api: Seq<(String, R::ApiBuilder)>,
)
    requires
        forall|i: int, j: int|
            0 <= i < first.len() && 0 <= j < second.len() ==> (#[trigger] first[i]).0 != (
            #[trigger] second[j]).0,
        collects_api(runtimes_of(first + second), api),
    ensures
        exists|mine: Seq<(String, R::ApiBuilder)>, others: Seq<(String, R::ApiBuilder)>| #[trigger]
            collects_api(runtimes_of(first), mine) && #[trigger] collects_api(
                runtimes_of(second),
                others,
            ) && api.to_multiset() == mine.to_multiset().add(others.to_multiset()),
{
    let both = runtimes_of(first + second);
    let (order, parts) = choose|order: Seq<u32>, parts: Seq<Vec<(String, R::ApiBuilder)>>|
     #[trigger]
        is_walk(order, both) && #[trigger] joined(parts) == api && parts.len() == order.len()
            && forall|i: int|
            0 <= i < order.len() ==> gave_api(both[#[trigger] order[i]], parts[i]);
    let gave = |runtime: R, part: Vec<(String, R::ApiBuilder)>| gave_api(runtime, part);
    let (mine, others) = lemma_walk_of_both_splits(first, second, order, parts, gave);
    let one = runtimes_of(first);
    let two = runtimes_of(second);
    assert forall|i: int| 0 <= i < mine.0.len() implies gave_api(
        one[#[trigger] mine.0[i]],
        mine.1[i],
    ) by {
        assert(gave(one[mine.0[i]], mine.1[i]));
    }
    assert forall|i: int| 0 <= i < others.0.len() implies gave_api(
        two[#[trigger] others.0[i]],
        others.1[i],
    ) by {
        assert(gave(two[others.0[i]], others.1[i]));
    }
    assert(collects_api(one, joined(mine.1)));
    assert(collects_api(two, joined(others.1)));
}

/// A walk names each of the runtimes, and nothing else.
pub(crate) proof fn lemma_walk_names_each<R>(order: Seq<u32>, runtimes: Map<u32, R>)
    requires
        is_walk(order, runtimes),
    ensures
        order.no_duplicates(),
        forall|id: u32| #[trigger] order.contains(id) <==> runtimes.contains_key(id),
{
    assert forall|id: u32| #[trigger] order.contains(id) <==> runtimes.contains_key(id) by {
        assert(order.to_set().contains(id) <==> runtimes.dom().contains(id));
    }
}

/// A walk through one runtime goes to that one, and a walk through none goes nowhere.
pub(crate) proof fn lemma_walk_of_few<R>(order: Seq<u32>, runtimes: Map<u32, R>, only: u32)
    requires
        is_walk(order, runtimes),
    ensures
        runtimes.dom() == set![only] ==> order == seq![only],
        runtimes.dom() == Set::<u32>::empty() ==> order.len() == 0,
{
    lemma_walk_names_each(order, runtimes);
    if runtimes.dom() == set![only] {
        assert(runtimes.contains_key(only));
        let i = order.index_of(only);
        assert forall|j: int| 0 <= j < order.len() implies order[j] == only by {
            assert(order.contains(order[j]));
            assert(runtimes.dom().contains(order[j]));
        }
        assert(order.len() <= 1) by {
            if order.len() > 1 {
                assert(order[0] == order[1]);
            }
        }
        assert(order =~= seq![only]);
    }
    if runtimes.dom() == Set::<u32>::empty() && order.len() > 0 {
        assert(order.contains(order[0]));
        assert(runtimes.dom().contains(order[0]));
    }
}

/// Nothing joined is nothing.
proof fn lemma_joined_of_none<T>(parts: Seq<Vec<T>>)
    requires
        parts.len() == 0,
    ensures
        joined(parts).len() == 0,
{
    assert(joined(parts) == Seq::<T>::empty());
}

/// One part joined is that part.
proof fn lemma_joined_of_one<T>(parts: Seq<Vec<T>>)
    requires
        parts.len() == 1,
    ensures
        joined(parts) == parts[0]@,
{
    let none = Seq::<Vec<T>>::empty();
    lemma_joined_of_none(none);
    lemma_joined_push(none, parts[0]);
    assert(none.push(parts[0]) == parts);
    assert(joined(none) + parts[0]@ =~= parts[0]@);
}

/// Each entry of a part is among those that are joined.
proof fn lemma_part_is_joined<T>(parts: Seq<Vec<T>>, i: int, k: int)
    requires
        0 <= i < parts.len(),
        0 <= k < parts[i]@.len(),
    ensures
        joined(parts).contains(parts[i]@[k]),
    decreases parts.len(),
{
    let fewer = parts.drop_last();
    let part = parts.last();
    lemma_joined_push(fewer, part);
    assert(fewer.push(part) == parts);
    if i < fewer.len() {
        lemma_part_is_joined(fewer, i, k);
        let j = joined(fewer).index_of(parts[i]@[k]);
        assert(joined(parts)[j] == parts[i]@[k]);
    } else {
        assert(joined(parts)[joined(fewer).len() + k] == parts[i]@[k]);
    }
}

/// Each entry that is joined is one of a part.
proof fn lemma_joined_is_of_a_part<T>(parts: Seq<Vec<T>>, k: int) -> (i: int)
    requires
        0 <= k < joined(parts).len(),
    ensures
        0 <= i < parts.len(),
        parts[i]@.contains(joined(parts)[k]),
    decreases parts.len(),
{
    if parts.len() == 0 {
        lemma_joined_of_none(parts);
        0
    } else {
        let fewer = parts.drop_last();
        let part = parts.last();
        lemma_joined_push(fewer, part);
        assert(fewer.push(part) == parts);
        if k < joined(fewer).len() {
            lemma_joined_is_of_a_part(fewer, k)
        } else {
            assert(part@[k - joined(fewer).len()] == joined(parts)[k]);
            parts.len() - 1
        }
    }
}

/// What is gathered of the state hashes is all that the runtimes give: each runtime is asked once, in
/// some order, and what each gives stands whole and in its own order, one runtime after another.
pub proof fn law_all_hashes_are_gathered<R: Runtime>(
    runtimes: Map<u32, R>,
    snapshot: R::Snapshot,
    hashes: Seq<(ServiceInstanceId, Vec<crate::types::Hash>)>,
)
    requires
        collects_hashes(runtimes, snapshot, hashes),
    ensures
        exists|order: Seq<u32>, parts: Seq<Vec<(ServiceInstanceId, Vec<crate::types::Hash>)>>|
            {
                &&& #[trigger] order.no_duplicates()
                &&& forall|id: u32| #[trigger] order.contains(id) <==> runtimes.contains_key(id)
                &&& #[trigger] parts.len() == order.len()
                &&& forall|i: int|
                    #![trigger order[i]]
                    0 <= i < order.len() ==> call_ensures(
                        R::state_hashes,
                        (&runtimes[order[i]], &snapshot),
                        parts[i],
                    )
                &&& hashes == parts.map_values(|part: Vec<(ServiceInstanceId, Vec<crate::types::Hash>)>| part@).flatten()
            },
{
    let (order, parts) = choose|order: Seq<u32>, parts: Seq<Vec<(ServiceInstanceId, Vec<crate::types::Hash>)>>| #[trigger]
        is_walk(order, runtimes) && #[trigger] joined(parts) == hashes && parts.len()
            == order.len() && forall|i: int|
            0 <= i < order.len() ==> gave_hashes(runtimes[#[trigger] order[i]], snapshot, parts[i]);
    lemma_walk_names_each(order, runtimes);
    assert(order.no_duplicates() && parts.len() == order.len());
    assert forall|i: int| #![trigger order[i]] 0 <= i < order.len() implies call_ensures(
        R::state_hashes,
        (&runtimes[order[i]], &snapshot),
        parts[i],
    ) by {
        assert(gave_hashes(runtimes[order[i]], snapshot, parts[i]));
    }
}

/// With one runtime, what is gathered of the state hashes is just what that runtime gives; with none,
/// it is nothing. With any, each entry that a runtime gives is among those gathered, and each
/// that is gathered was given by a runtime.
pub proof fn law_hashes_of_one_runtime_are_its_own<R: Runtime>(
    runtimes: Map<u32, R>,
    snapshot: R::Snapshot,
    hashes: Seq<(ServiceInstanceId, Vec<crate::types::Hash>)>,
    only: u32,
)
    requires
        collects_hashes(runtimes, snapshot, hashes),
    ensures
        runtimes.dom() == set![only] ==> exists|all: Vec<(ServiceInstanceId, Vec<crate::types::Hash>)>| #[trigger]
            call_ensures(R::state_hashes, (&runtimes[only], &snapshot), all) && hashes == all@,
        runtimes.dom() == Set::<u32>::empty() ==> hashes.len() == 0,
        forall|id: u32| #[trigger]
            runtimes.contains_key(id) ==> exists|all: Vec<(ServiceInstanceId, Vec<crate::types::Hash>)>| #[trigger]
                call_ensures(R::state_hashes, (&runtimes[id], &snapshot), all) && forall|k: int|
                    0 <= k < all@.len() ==> hashes.contains(#[trigger] all@[k]),
        forall|entry: (ServiceInstanceId, Vec<crate::types::Hash>)| #[trigger]
            hashes.contains(entry) ==> exists|id: u32, all: Vec<(ServiceInstanceId, Vec<crate::types::Hash>)>|
                #![trigger runtimes.contains_key(id), call_ensures(R::state_hashes, (&runtimes[id], &snapshot), all)]
                runtimes.contains_key(id) && call_ensures(
                    R::state_hashes,
                    (&runtimes[id], &snapshot),
                    all,
                ) && all@.contains(entry),
{
    let (order, parts) = choose|order: Seq<u32>, parts: Seq<Vec<(ServiceInstanceId, Vec<crate::types::Hash>)>>| #[trigger]
        is_walk(order, runtimes) && #[trigger] joined(parts) == hashes && parts.len()
            == order.len() && forall|i: int|
            0 <= i < order.len() ==> gave_hashes(runtimes[#[trigger] order[i]], snapshot, parts[i]);
    lemma_walk_names_each(order, runtimes);
    lemma_walk_of_few(order, runtimes, only);
    if runtimes.dom() == set![only] {
        lemma_joined_of_one(parts);
        assert(gave_hashes(runtimes[order[0]], snapshot, parts[0]));
    }
    if runtimes.dom() == Set::<u32>::empty() {
        assert(parts == Seq::<Vec<(ServiceInstanceId, Vec<crate::types::Hash>)>>::empty());
        lemma_joined_of_none(parts);
    }
    assert forall|id: u32| #[trigger] runtimes.contains_key(id) implies exists|all: Vec<(ServiceInstanceId, Vec<crate::types::Hash>)>|
     #[trigger] call_ensures(R::state_hashes, (&runtimes[id], &snapshot), all) && forall|k: int|
        0 <= k < all@.len() ==> hashes.contains(#[trigger] all@[k]) by {
        let i = order.index_of(id);
        assert(order.contains(id));
        assert(gave_hashes(runtimes[order[i]], snapshot, parts[i]));
        assert forall|k: int| 0 <= k < parts[i]@.len() implies hashes.contains(
            #[trigger] parts[i]@[k],
        ) by {
            lemma_part_is_joined(parts, i, k);
        }
    }
    assert forall|entry: (ServiceInstanceId, Vec<crate::types::Hash>)| #[trigger] hashes.contains(entry) implies exists|
        id: u32,
        all: Vec<(ServiceInstanceId, Vec<crate::types::Hash>)>,
    |
        #![trigger runtimes.contains_key(id), call_ensures(R::state_hashes, (&runtimes[id], &snapshot), all)]
        runtimes.contains_key(id) && call_ensures(
            R::state_hashes,
            (&runtimes[id], &snapshot),
            all,
        ) && all@.contains(entry) by {
        let i = lemma_joined_is_of_a_part(parts, hashes.index_of(entry));
        assert(gave_hashes(runtimes[order[i]], snapshot, parts[i]));
        assert(order.contains(order[i]));
    }
}

/// What is gathered of the APIs is all that the runtimes give: each runtime is asked once, in
/// some order, and what each gives stands whole and in its own order, one runtime after another.
pub proof fn law_all_apis_are_gathered<R: Runtime>(
    runtimes: Map<u32, R>,
    api: Seq<(String, R::ApiBuilder)>,
)
    requires
        collects_api(runtimes, api),
    ensures
        exists|order: Seq<u32>, parts: Seq<Vec<(String, R::ApiBuilder)>>|
            {
                &&& #[trigger] order.no_duplicates()
                &&& forall|id: u32| #[trigger] order.contains(id) <==> runtimes.contains_key(id)
                &&& #[trigger] parts.len() == order.len()
                &&& forall|i: int|
                    #![trigger order[i]]
                    0 <= i < order.len() ==> call_ensures(
                        R::services_api,
                        (&runtimes[order[i]],),
                        parts[i],
                    )
                &&& api == parts.map_values(|part: Vec<(String, R::ApiBuilder)>| part@).flatten()
            },
{
    let (order, parts) = choose|order: Seq<u32>, parts: Seq<Vec<(String, R::ApiBuilder)>>| #[trigger]
        is_walk(order, runtimes) && #[trigger] joined(parts) == api && parts.len()
            == order.len() && forall|i: int|
            0 <= i < order.len() ==> gave_api(runtimes[#[trigger] order[i]], parts[i]);
    lemma_walk_names_each(order, runtimes);
    assert(order.no_duplicates() && parts.len() == order.len());
    assert forall|i: int| #![trigger order[i]] 0 <= i < order.len() implies call_ensures(
        R::services_api,
        (&runtimes[order[i]],),
        parts[i],
    ) by {
        assert(gave_api(runtimes[order[i]], parts[i]));
    }
}

/// With one runtime, what is gathered of the APIs is just what that runtime gives; with none,
/// it is nothing. With any, each entry that a runtime gives is among those gathered, and each
/// that is gathered was given by a runtime.
pub proof fn law_apis_of_one_runtime_are_its_own<R: Runtime>(
    runtimes: Map<u32, R>,
    api: Seq<(String, R::ApiBuilder)>,
    only: u32,
)
    requires
        collects_api(runtimes, api),
    ensures
        runtimes.dom() == set![only] ==> exists|all: Vec<(String, R::ApiBuilder)>| #[trigger]
            call_ensures(R::services_api, (&runtimes[only],), all) && api == all@,
        runtimes.dom() == Set::<u32>::empty() ==> api.len() == 0,
        forall|id: u32| #[trigger]
            runtimes.contains_key(id) ==> exists|all: Vec<(String, R::ApiBuilder)>| #[trigger]
                call_ensures(R::services_api, (&runtimes[id],), all) && forall|k: int|
                    0 <= k < all@.len() ==> api.contains(#[trigger] all@[k]),
        forall|entry: (String, R::ApiBuilder)| #[trigger]
            api.contains(entry) ==> exists|id: u32, all: Vec<(String, R::ApiBuilder)>|
                #![trigger runtimes.contains_key(id), call_ensures(R::services_api, (&runtimes[id],), all)]
                runtimes.contains_key(id) && call_ensures(
                    R::services_api,
                    (&runtimes[id],),
                    all,
                ) && all@.contains(entry),
{
    let (order, parts) = choose|order: Seq<u32>, parts: Seq<Vec<(String, R::ApiBuilder)>>| #[trigger]
        is_walk(order, runtimes) && #[trigger] joined(parts) == api && parts.len()
            == order.len() && forall|i: int|
            0 <= i < order.len() ==> gave_api(runtimes[#[trigger] order[i]], parts[i]);
    lemma_walk_names_each(order, runtimes);
    lemma_walk_of_few(order, runtimes, only);
    if runtimes.dom() == set![only] {
        lemma_joined_of_one(parts);
        assert(gave_api(runtimes[order[0]], parts[0]));
    }
    if runtimes.dom() == Set::<u32>::empty() {
        assert(parts == Seq::<Vec<(String, R::ApiBuilder)>>::empty());
        lemma_joined_of_none(parts);
    }
    assert forall|id: u32| #[trigger] runtimes.contains_key(id) implies exists|all: Vec<(String, R::ApiBuilder)>|
     #[trigger] call_ensures(R::services_api, (&runtimes[id],), all) && forall|k: int|
        0 <= k < all@.len() ==> api.contains(#[trigger] all@[k]) by {
        let i = order.index_of(id);
        assert(order.contains(id));
        assert(gave_api(runtimes[order[i]], parts[i]));
        assert forall|k: int| 0 <= k < parts[i]@.len() implies api.contains(
            #[trigger] parts[i]@[k],
        ) by {
            lemma_part_is_joined(parts, i, k);
        }
    }
    assert forall|entry: (String, R::ApiBuilder)| #[trigger] api.contains(entry) implies exists|
        id: u32,
        all: Vec<(String, R::ApiBuilder)>,
    |
        #![trigger runtimes.contains_key(id), call_ensures(R::services_api, (&runtimes[id],), all)]
        runtimes.contains_key(id) && call_ensures(
            R::services_api,
            (&runtimes[id],),
            all,
        ) && all@.contains(entry) by {
        let i = lemma_joined_is_of_a_part(parts, api.index_of(entry));
        assert(gave_api(runtimes[order[i]], parts[i]));
        assert(order.contains(order[i]));
    }
}

} // verus!
