//! What holds of the parts that a thread hierarchy is made of: the lists of
//! children, their order by time, and the shape of the display order.

use crate::hierarchy::{
    by_time, children, forest, hierarchy, insert_by_time, lemma_position_of_id, members,
    node_at, parent_links, thread_order, times_of,
};
use crate::project::{Message, Timestamp};
use vstd::prelude::*;

verus! {

/// No entry of `nodes` is younger than an entry behind it.
pub open spec fn time_sorted(times: Seq<Timestamp>, nodes: Seq<int>) -> bool {
    forall|i: int, j: int|
        0 <= i < j < nodes.len() ==> times[#[trigger] nodes[i]].at_most(times[#[trigger] nodes[j]])
}

/// A sorted run without its last entry is sorted.
pub proof fn lemma_sorted_prefix(times: Seq<Timestamp>, nodes: Seq<int>)
    requires
        time_sorted(times, nodes),
        nodes.len() > 0,
    ensures
        time_sorted(times, nodes.drop_last()),
{
    let rest = nodes.drop_last();
    assert forall|i: int, j: int| 0 <= i < j < rest.len() implies times[#[trigger] rest[i]]
        .at_most(times[#[trigger] rest[j]]) by {
        assert(times[nodes[i]].at_most(times[nodes[j]]));
    }
}

/// The positions that `members` lists are those below `n` with that parent.
pub proof fn lemma_members(parents: Seq<Option<int>>, parent: Option<int>, n: nat)
    ensures
        forall|i: int| #[trigger]
            members(parents, parent, n).contains(i) <==> (0 <= i < n && parents[i] == parent),
    decreases n,
{
    if n > 0 {
        let rest = members(parents, parent, (n - 1) as nat);
        lemma_members(parents, parent, (n - 1) as nat);
        let all = members(parents, parent, n);
        assert forall|i: int| #[trigger]
            all.contains(i) <==> (0 <= i < n && parents[i] == parent) by {
            if parents[n - 1] == parent {
                assert(all == rest.push(n - 1));
                if all.contains(i) {
                    let k = choose|k: int| 0 <= k < all.len() && all[k] == i;
                    if k < rest.len() {
                        assert(rest[k] == i);
                        assert(rest.contains(i));
                    }
                }
                if 0 <= i < n && parents[i] == parent {
                    if i == n - 1 {
                        assert(all[all.len() - 1] == i);
                    } else {
                        assert(rest.contains(i));
                        let k = choose|k: int| 0 <= k < rest.len() && rest[k] == i;
                        assert(all[k] == i);
                    }
                }
            }
        }
    }
}

/// Inserting by time keeps a sorted run sorted, and adds the one entry.
pub proof fn lemma_insert_by_time(times: Seq<Timestamp>, sorted: Seq<int>, x: int)
    requires
        time_sorted(times, sorted),
    ensures
        time_sorted(times, insert_by_time(times, sorted, x)),
        insert_by_time(times, sorted, x).len() == sorted.len() + 1,
        forall|y: int|
            #![trigger insert_by_time(times, sorted, x).contains(y)]
            #![trigger sorted.contains(y)]
            insert_by_time(times, sorted, x).contains(y) <==> (sorted.contains(y) || y == x),
        insert_by_time(times, sorted, x).contains(x),
    decreases sorted.len(),
{
    let result = insert_by_time(times, sorted, x);
    if sorted.len() == 0 {
        assert(result[0] == x);
        assert forall|y: int|
            #![trigger result.contains(y)]
            #![trigger sorted.contains(y)]
            result.contains(y) <==> (sorted.contains(y) || y == x) by {
            if result.contains(y) {
                let k = choose|k: int| 0 <= k < result.len() && result[k] == y;
            }
        }
    } else if times[sorted.last()].at_most(times[x]) {
        assert(result == sorted.push(x));
        assert forall|i: int, j: int| 0 <= i < j < result.len() implies times[#[trigger] result[i]]
            .at_most(times[#[trigger] result[j]]) by {
            if j == sorted.len() {
                if i < sorted.len() - 1 {
                    assert(times[sorted[i]].at_most(times[sorted[sorted.len() - 1]]));
                }
            } else {
                assert(times[sorted[i]].at_most(times[sorted[j]]));
            }
        }
        assert forall|y: int|
            #![trigger result.contains(y)]
            #![trigger sorted.contains(y)]
            result.contains(y) <==> (sorted.contains(y) || y == x) by {
            if result.contains(y) {
                let k = choose|k: int| 0 <= k < result.len() && result[k] == y;
                if k < sorted.len() {
                    assert(sorted[k] == y);
                }
            }
            if sorted.contains(y) {
                let k = choose|k: int| 0 <= k < sorted.len() && sorted[k] == y;
                assert(result[k] == y);
            }
            if y == x {
                assert(result[result.len() - 1] == y);
            }
        }
    } else {
        let rest = sorted.drop_last();
        let last = sorted.last();
        lemma_sorted_prefix(times, sorted);
        lemma_insert_by_time(times, rest, x);
        let inner = insert_by_time(times, rest, x);
        assert(result == inner.push(last));
        assert forall|i: int, j: int| 0 <= i < j < result.len() implies times[#[trigger] result[i]]
            .at_most(times[#[trigger] result[j]]) by {
            if j == inner.len() {
                assert(inner.contains(inner[i]));
                if inner[i] != x {
                    assert(rest.contains(inner[i]));
                    let k = choose|k: int| 0 <= k < rest.len() && rest[k] == inner[i];
                    assert(times[sorted[k]].at_most(times[sorted[sorted.len() - 1]]));
                }
            } else {
                assert(times[inner[i]].at_most(times[inner[j]]));
            }
        }
        assert forall|y: int|
            #![trigger result.contains(y)]
            #![trigger sorted.contains(y)]
            result.contains(y) <==> (sorted.contains(y) || y == x) by {
            if result.contains(y) {
                let k = choose|k: int| 0 <= k < result.len() && result[k] == y;
                if k < inner.len() {
                    assert(inner[k] == y);
                    assert(inner.contains(y));
                    if y != x {
                        assert(rest.contains(y));
                        let m = choose|m: int| 0 <= m < rest.len() && rest[m] == y;
                        assert(sorted[m] == y);
                    }
                } else {
                    assert(sorted[sorted.len() - 1] == y);
                }
            }
            if sorted.contains(y) {
                let k = choose|k: int| 0 <= k < sorted.len() && sorted[k] == y;
                if k < rest.len() {
                    assert(rest[k] == y);
                    assert(rest.contains(y));
                    assert(inner.contains(y));
                    let m = choose|m: int| 0 <= m < inner.len() && inner[m] == y;
                    assert(result[m] == y);
                } else {
                    assert(result[result.len() - 1] == y);
                }
            }
            if y == x {
                assert(inner.contains(x));
                let m = choose|m: int| 0 <= m < inner.len() && inner[m] == x;
                assert(result[m] == x);
            }
        }
    }
}

/// Ordering by time yields a sorted run of the same entries.
pub proof fn lemma_by_time(times: Seq<Timestamp>, nodes: Seq<int>)
    ensures
        time_sorted(times, by_time(times, nodes)),
        by_time(times, nodes).len() == nodes.len(),
        forall|y: int|
            #![trigger by_time(times, nodes).contains(y)]
            #![trigger nodes.contains(y)]
            by_time(times, nodes).contains(y) <==> nodes.contains(y),
    decreases nodes.len(),
{
    if nodes.len() > 0 {
        let rest = nodes.drop_last();
        lemma_by_time(times, rest);
        lemma_insert_by_time(times, by_time(times, rest), nodes.last());
        let result = by_time(times, nodes);
        assert forall|y: int|
            #![trigger result.contains(y)]
            #![trigger nodes.contains(y)]
            result.contains(y) <==> nodes.contains(y) by {
            if nodes.contains(y) {
                let k = choose|k: int| 0 <= k < nodes.len() && nodes[k] == y;
                if k < rest.len() {
                    assert(rest[k] == y);
                    assert(rest.contains(y));
                }
            }
            if rest.contains(y) {
                let k = choose|k: int| 0 <= k < rest.len() && rest[k] == y;
                assert(nodes[k] == y);
            }
            if y == nodes.last() {
                assert(nodes[nodes.len() - 1] == y);
            }
        }
    }
}

/// The children of a node are sorted by time, and each has that node as its
/// parent.
pub proof fn lemma_children(parents: Seq<Option<int>>, times: Seq<Timestamp>, node: int)
    ensures
        time_sorted(times, children(parents, times, node)),
        forall|i: int|
            0 <= i < children(parents, times, node).len() ==> parents[#[trigger] children(
                parents,
                times,
                node,
            )[i]] == Some(node),
{
    let listed = members(parents, Some(node), parents.len());
    lemma_members(parents, Some(node), parents.len());
    lemma_by_time(times, listed);
    let kids = children(parents, times, node);
    assert forall|i: int| 0 <= i < kids.len() implies parents[#[trigger] kids[i]] == Some(
        node,
    ) by {
        assert(kids.contains(kids[i]));
        assert(listed.contains(kids[i]));
    }
}

/// The shape of the display order of a sorted group of nodes with one
/// parent: no entry is shallower than the group, the entries at the depth of
/// the group are the nodes of the group, each of which is listed, and deeper
/// entries have a parent.
pub proof fn lemma_forest(
    parents: Seq<Option<int>>,
    times: Seq<Timestamp>,
    nodes: Seq<int>,
    depth: nat,
    levels: nat,
    group: Option<int>,
)
    requires
        time_sorted(times, nodes),
        forall|i: int| 0 <= i < nodes.len() ==> parents[#[trigger] nodes[i]] == group,
    ensures
        forall|a: int|
            0 <= a < forest(parents, times, nodes, depth, levels).len() ==> {
                let entry = #[trigger] forest(parents, times, nodes, depth, levels)[a];
                &&& depth <= entry.1 <= depth + levels
                &&& entry.1 == depth ==> nodes.contains(entry.0)
                &&& entry.1 > depth ==> parents[entry.0] is Some
            },
        forall|i: int|
            0 <= i < nodes.len() ==> forest(parents, times, nodes, depth, levels).contains(
                (#[trigger] nodes[i], depth),
            ),
    decreases levels, nodes.len(),
{
    let order = forest(parents, times, nodes, depth, levels);
    if nodes.len() > 0 {
        let rest = nodes.drop_last();
        let last = nodes.last();
        let first = forest(parents, times, rest, depth, levels);
        let kids = children(parents, times, last);
        let below = if levels == 0 {
            Seq::<(int, nat)>::empty()
        } else {
            forest(parents, times, kids, depth + 1, (levels - 1) as nat)
        };
        assert(order == first.push((last, depth)) + below);
        let mid = first.len() as int;
        lemma_sorted_prefix(times, nodes);
        assert forall|i: int| 0 <= i < rest.len() implies parents[#[trigger] rest[i]] == group by {
            assert(parents[nodes[i]] == group);
        }
        lemma_forest(parents, times, rest, depth, levels, group);
        lemma_children(parents, times, last);
        if levels > 0 {
            lemma_forest(parents, times, kids, depth + 1, (levels - 1) as nat, Some(last));
        }
        assert forall|a: int| 0 <= a < mid implies order[a] == first[a] by {}
        assert(order[mid] == (last, depth));
        assert forall|a: int| mid < a < order.len() implies order[a] == below[a - mid - 1] by {}
        assert(parents[nodes[nodes.len() - 1]] == group);

        assert forall|a: int| 0 <= a < order.len() implies ({
            let entry = #[trigger] order[a];
            &&& depth <= entry.1 <= depth + levels
            &&& entry.1 == depth ==> nodes.contains(entry.0)
            &&& entry.1 > depth ==> parents[entry.0] is Some
        }) by {
            if a < mid {
                let entry = first[a];
                if entry.1 == depth {
                    assert(rest.contains(entry.0));
                    let k = choose|k: int| 0 <= k < rest.len() && rest[k] == entry.0;
                    assert(nodes[k] == entry.0);
                }
            } else if a == mid {
                assert(nodes[nodes.len() - 1] == last);
            } else {
                let entry = below[a - mid - 1];
                if entry.1 == depth + 1 {
                    assert(kids.contains(entry.0));
                    let k = choose|k: int| 0 <= k < kids.len() && kids[k] == entry.0;
                    assert(parents[kids[k]] == Some(last));
                }
            }
        }
        assert forall|i: int| 0 <= i < nodes.len() implies order.contains(
            (#[trigger] nodes[i], depth),
        ) by {
            if i < rest.len() {
                assert(rest[i] == nodes[i]);
                assert(first.contains((rest[i], depth)));
                let k = choose|k: int| 0 <= k < first.len() && first[k] == (rest[i], depth);
                assert(order[k] == (nodes[i], depth));
            } else {
                assert(order[mid] == (nodes[i], depth));
            }
        }
    }
}

/// A record whose parent is not among the records has no parent link, and
/// neither has a record that names no parent.
pub proof fn lemma_unresolved_parent_starts_thread(records: Seq<Message>, i: int)
    requires
        0 <= i < records.len(),
        records[i].parent_uuid matches Some(id) ==> forall|j: int|
            0 <= j < records.len() ==> records[j].uuid@ != id@,
    ensures
        parent_links(records)[i] is None,
{
    match records[i].parent_uuid {
        Some(id) => {
            lemma_position_of_id(records, id@);
        },
        None => {},
    }
}

/// A record without a parent link is listed, as the start of a thread at
/// depth zero.
pub proof fn lemma_thread_start_is_listed(records: Seq<Message>, i: int)
    requires
        0 <= i < records.len(),
        parent_links(records)[i] is None,
    ensures
        exists|a: int|
            0 <= a < hierarchy(records).len() && #[trigger] hierarchy(records)[a] == node_at(
                records,
                parent_links(records),
                (i, 0nat),
            ),
        node_at(records, parent_links(records), (i, 0nat)).is_initial,
        node_at(records, parent_links(records), (i, 0nat)).chain_depth == 0,
{
    let parents = parent_links(records);
    let times = times_of(records);
    let listed = members(parents, None, parents.len());
    let starts = by_time(times, listed);
    lemma_members(parents, None, parents.len());
    lemma_by_time(times, listed);
    assert forall|k: int| 0 <= k < starts.len() implies parents[#[trigger] starts[k]] == None::<
        int,
    > by {
        assert(starts.contains(starts[k]));
        assert(listed.contains(starts[k]));
    }
    lemma_forest(parents, times, starts, 0, parents.len(), None);
    assert(listed.contains(i));
    assert(starts.contains(i));
    let k = choose|k: int| 0 <= k < starts.len() && starts[k] == i;
    let order = thread_order(parents, times);
    assert(order.contains((starts[k], 0nat)));
    let a = choose|a: int| 0 <= a < order.len() && order[a] == (i, 0nat);
    assert(hierarchy(records)[a] == node_at(records, parents, (i, 0nat)));
}

/// Every entry of a display order is a position of a record, given that the
/// nodes it starts from are.
pub proof fn lemma_listed_positions(
    parents: Seq<Option<int>>,
    times: Seq<Timestamp>,
    nodes: Seq<int>,
    depth: nat,
    levels: nat,
)
    requires
        forall|i: int| 0 <= i < nodes.len() ==> 0 <= #[trigger] nodes[i] < parents.len(),
    ensures
        forall|a: int|
            0 <= a < forest(parents, times, nodes, depth, levels).len() ==> 0 <= (#[trigger] forest(
                parents,
                times,
                nodes,
                depth,
                levels,
            )[a]).0 < parents.len(),
    decreases levels, nodes.len(),
{
    let order = forest(parents, times, nodes, depth, levels);
    if nodes.len() > 0 {
        let rest = nodes.drop_last();
        let last = nodes.last();
        let first = forest(parents, times, rest, depth, levels);
        let kids = children(parents, times, last);
        let below = if levels == 0 {
            Seq::<(int, nat)>::empty()
        } else {
            forest(parents, times, kids, depth + 1, (levels - 1) as nat)
        };
        assert forall|i: int| 0 <= i < rest.len() implies 0 <= #[trigger] rest[i]
            < parents.len() by {
            assert(rest[i] == nodes[i]);
        }
        lemma_forest_positions_step(parents, times, kids, last);
        lemma_listed_positions(parents, times, rest, depth, levels);
        if levels > 0 {
            lemma_listed_positions(parents, times, kids, depth + 1, (levels - 1) as nat);
        }
        let mid = first.len() as int;
        assert forall|a: int| 0 <= a < order.len() implies 0 <= (#[trigger] order[a]).0
            < parents.len() by {
            if a < mid {
                assert(order[a] == first[a]);
            } else if a == mid {
                assert(order[a] == (nodes[nodes.len() - 1], depth));
            } else {
                assert(order[a] == below[a - mid - 1]);
            }
        }
    }
}

/// The children of a node are positions of records.
proof fn lemma_forest_positions_step(
    parents: Seq<Option<int>>,
    times: Seq<Timestamp>,
    kids: Seq<int>,
    node: int,
)
    requires
        kids == children(parents, times, node),
    ensures
        forall|i: int| 0 <= i < kids.len() ==> 0 <= #[trigger] kids[i] < parents.len(),
{
    let listed = members(parents, Some(node), parents.len());
    lemma_members(parents, Some(node), parents.len());
    lemma_by_time(times, listed);
    assert forall|i: int| 0 <= i < kids.len() implies 0 <= #[trigger] kids[i] < parents.len() by {
        assert(kids.contains(kids[i]));
        assert(listed.contains(kids[i]));
    }
}

} // verus!
