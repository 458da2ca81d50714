//! The thread hierarchy does not depend on the order in which the records
//! come, as long as no two records have one identifier and no two records
//! with one parent have one timestamp.

use crate::hierarchy::{
    by_time, children, display_order, forest, hierarchy, lemma_position_of_id, members, node_at,
    parent_links, position_of_id, times_of,
};
use crate::hierarchy_laws::{
    lemma_by_time, lemma_listed_positions, lemma_members, lemma_sorted_prefix, time_sorted,
};
use crate::project::{Message, Timestamp};
use crate::thread_laws::{
    distinct, lemma_by_time_distinct, lemma_distinct_prefix, lemma_members_distinct,
    lemma_parent_links_in_range, lemma_thread_starts, links_in_range,
};
use vstd::prelude::*;

verus! {

/// `other` holds the records of `records` in another order: the record at
/// position `i` stands at position `to[i]`, and the record that stands at
/// position `x` came from position `from[x]`.
pub open spec fn rearranged(
    records: Seq<Message>,
    other: Seq<Message>,
    to: Seq<int>,
    from: Seq<int>,
) -> bool {
    &&& other.len() == records.len()
    &&& to.len() == records.len()
    &&& from.len() == records.len()
    &&& forall|i: int|
        0 <= i < records.len() ==> {
            &&& 0 <= #[trigger] to[i] < records.len()
            &&& from[to[i]] == i
            &&& other[to[i]] == records[i]
        }
    &&& forall|x: int|
        0 <= x < records.len() ==> 0 <= #[trigger] from[x] < records.len() && to[from[x]] == x
}

/// No two records have one identifier.
pub open spec fn unique_ids(records: Seq<Message>) -> bool {
    forall|i: int, j: int|
        0 <= i < j < records.len() ==> (#[trigger] records[i]).uuid@ != (
        #[trigger] records[j]).uuid@
}

/// No two records with one parent, and no two thread starts, have one
/// timestamp.
pub open spec fn no_ties(records: Seq<Message>) -> bool {
    forall|i: int, j: int|
        0 <= i < j < records.len() && #[trigger] parent_links(records)[i]
            == #[trigger] parent_links(records)[j] ==> records[i].timestamp
            != records[j].timestamp
}

/// A parent link after the records have moved.
pub open spec fn moved(to: Seq<int>, parent: Option<int>) -> Option<int> {
    match parent {
        Some(j) => Some(to[j]),
        None => None,
    }
}

/// Positions after the records have moved.
pub open spec fn image(to: Seq<int>, nodes: Seq<int>) -> Seq<int> {
    nodes.map_values(|x: int| to[x])
}

/// A display order after the records have moved.
pub open spec fn image_order(to: Seq<int>, order: Seq<(int, nat)>) -> Seq<(int, nat)> {
    order.map_values(|entry: (int, nat)| (to[entry.0], entry.1))
}

/// Two sorted runs of the same records, none twice and no two of one
/// timestamp, are the same run.
pub proof fn lemma_sorted_runs_agree(times: Seq<Timestamp>, a: Seq<int>, b: Seq<int>)
    requires
        time_sorted(times, a),
        time_sorted(times, b),
        distinct(a),
        distinct(b),
        forall|y: int|
            #![trigger a.contains(y)]
            #![trigger b.contains(y)]
            a.contains(y) <==> b.contains(y),
        forall|i: int, j: int|
            0 <= i < j < a.len() ==> times[#[trigger] a[i]] != times[#[trigger] a[j]],
    ensures
        a == b,
    decreases a.len(),
{
    assert(a.len() == b.len()) by {
        assert(a.no_duplicates());
        assert(b.no_duplicates());
        a.unique_seq_to_set();
        b.unique_seq_to_set();
        assert(a.to_set() =~= b.to_set());
    }
    if a.len() == 0 {
        assert(a =~= b);
    } else {
        let n = a.len() as int;
        let la = a[n - 1];
        let lb = b[n - 1];
        assert(a.contains(la));
        assert(b.contains(lb));
        assert(b.contains(la));
        assert(a.contains(lb));
        let k = choose|k: int| 0 <= k < b.len() && b[k] == la;
        let m = choose|m: int| 0 <= m < a.len() && a[m] == lb;
        if la != lb {
            assert(k < n - 1);
            assert(m < n - 1);
            assert(times[b[k]].at_most(times[b[n - 1]]));
            assert(times[a[m]].at_most(times[a[n - 1]]));
            assert(times[a[m]] != times[a[n - 1]]);
        }
        let ra = a.drop_last();
        let rb = b.drop_last();
        lemma_sorted_prefix(times, a);
        lemma_sorted_prefix(times, b);
        lemma_distinct_prefix(a);
        lemma_distinct_prefix(b);
        assert forall|y: int|
            #![trigger ra.contains(y)]
            #![trigger rb.contains(y)]
            ra.contains(y) <==> rb.contains(y) by {
            if ra.contains(y) {
                let i = choose|i: int| 0 <= i < ra.len() && ra[i] == y;
                assert(a[i] == y);
                assert(a[i] != a[n - 1]);
                assert(a.contains(y));
                assert(b.contains(y));
                let j = choose|j: int| 0 <= j < b.len() && b[j] == y;
                assert(rb[j] == y);
            }
            if rb.contains(y) {
                let i = choose|i: int| 0 <= i < rb.len() && rb[i] == y;
                assert(b[i] == y);
                assert(b[i] != b[n - 1]);
                assert(b.contains(y));
                assert(a.contains(y));
                let j = choose|j: int| 0 <= j < a.len() && a[j] == y;
                assert(ra[j] == y);
            }
        }
        assert forall|i: int, j: int| 0 <= i < j < ra.len() implies times[#[trigger] ra[i]]
            != times[#[trigger] ra[j]] by {
            assert(times[a[i]] != times[a[j]]);
        }
        lemma_sorted_runs_agree(times, ra, rb);
        assert(a =~= ra.push(la));
        assert(b =~= rb.push(lb));
    }
}

/// The parent links move with the records.
pub proof fn lemma_links_move(
    records: Seq<Message>,
    other: Seq<Message>,
    to: Seq<int>,
    from: Seq<int>,
)
    requires
        rearranged(records, other, to, from),
        unique_ids(records),
    ensures
        forall|i: int|
            0 <= i < records.len() ==> parent_links(other)[#[trigger] to[i]] == moved(
                to,
                parent_links(records)[i],
            ),
        forall|x: int|
            0 <= x < records.len() ==> #[trigger] parent_links(other)[x] == moved(
                to,
                parent_links(records)[from[x]],
            ),
{
    assert forall|i: int| 0 <= i < records.len() implies parent_links(other)[#[trigger] to[i]]
        == moved(to, parent_links(records)[i]) by {
        assert(other[to[i]] == records[i]);
        match records[i].parent_uuid {
            Some(id) => {
                lemma_position_of_id(records, id@);
                lemma_position_of_id(other, id@);
                match position_of_id(records, id@) {
                    Some(j) => {
                        assert(other[to[j]] == records[j]);
                        let found = position_of_id(other, id@)->0;
                        assert(position_of_id(other, id@) is Some);
                        assert(other[to[from[found]]] == records[from[found]]);
                        if from[found] < j {
                            assert(records[from[found]].uuid@ != records[j].uuid@);
                        }
                        if j < from[found] {
                            assert(records[j].uuid@ != records[from[found]].uuid@);
                        }
                    },
                    None => {
                        if position_of_id(other, id@) is Some {
                            let found = position_of_id(other, id@)->0;
                            assert(other[to[from[found]]] == records[from[found]]);
                        }
                    },
                }
            },
            None => {},
        }
    }
    assert forall|x: int| 0 <= x < records.len() implies #[trigger] parent_links(other)[x]
        == moved(to, parent_links(records)[from[x]]) by {
        assert(to[from[x]] == x);
    }
}

/// The records with one parent move with the records.
pub proof fn lemma_members_move(
    records: Seq<Message>,
    other: Seq<Message>,
    to: Seq<int>,
    from: Seq<int>,
    group: Option<int>,
)
    requires
        rearranged(records, other, to, from),
        unique_ids(records),
        group matches Some(j) ==> 0 <= j < records.len(),
    ensures
        forall|x: int| #[trigger]
            members(parent_links(other), moved(to, group), other.len()).contains(x) <==> (0 <= x
                < records.len() && members(parent_links(records), group, records.len()).contains(
                from[x],
            )),
{
    let n = records.len();
    lemma_links_move(records, other, to, from);
    lemma_parent_links_in_range(records);
    lemma_members(parent_links(other), moved(to, group), n);
    lemma_members(parent_links(records), group, n);
    assert forall|x: int| #[trigger]
        members(parent_links(other), moved(to, group), n).contains(x) <==> (0 <= x < n
            && members(parent_links(records), group, n).contains(from[x])) by {
        if 0 <= x < n {
            let i = from[x];
            assert(parent_links(other)[x] == moved(to, parent_links(records)[i]));
            match (parent_links(records)[i], group) {
                (Some(p), Some(g)) => {
                    assert(from[to[p]] == p);
                    assert(from[to[g]] == g);
                },
                _ => {},
            }
        }
    }
}

/// The children of a record, and the thread starts, move with the records
/// and keep their order.
pub proof fn lemma_sorted_group_moves(
    records: Seq<Message>,
    other: Seq<Message>,
    to: Seq<int>,
    from: Seq<int>,
    group: Option<int>,
)
    requires
        rearranged(records, other, to, from),
        unique_ids(records),
        no_ties(records),
        group matches Some(j) ==> 0 <= j < records.len(),
    ensures
        by_time(
            times_of(other),
            members(parent_links(other), moved(to, group), other.len()),
        ) == image(
            to,
            by_time(times_of(records), members(parent_links(records), group, records.len())),
        ),
{
    let n = records.len();
    let listed = members(parent_links(records), group, n);
    let sorted = by_time(times_of(records), listed);
    let other_listed = members(parent_links(other), moved(to, group), n);
    let other_sorted = by_time(times_of(other), other_listed);
    let here = image(to, sorted);
    lemma_members(parent_links(records), group, n);
    lemma_members_distinct(parent_links(records), group, n);
    lemma_members_distinct(parent_links(other), moved(to, group), n);
    lemma_members_move(records, other, to, from, group);
    lemma_by_time(times_of(records), listed);
    lemma_by_time(times_of(other), other_listed);
    lemma_by_time_distinct(times_of(records), listed);
    lemma_by_time_distinct(times_of(other), other_listed);
    assert forall|k: int| 0 <= k < sorted.len() implies 0 <= #[trigger] sorted[k] < n
        && parent_links(records)[sorted[k]] == group by {
        assert(sorted.contains(sorted[k]));
        assert(listed.contains(sorted[k]));
    }
    assert forall|i: int, j: int| 0 <= i < j < here.len() implies times_of(
        other,
    )[#[trigger] here[i]].at_most(times_of(other)[#[trigger] here[j]]) by {
        assert(times_of(records)[sorted[i]].at_most(times_of(records)[sorted[j]]));
        assert(other[to[sorted[i]]] == records[sorted[i]]);
        assert(other[to[sorted[j]]] == records[sorted[j]]);
    }
    assert forall|i: int, j: int| 0 <= i < j < here.len() implies #[trigger] here[i]
        != #[trigger] here[j] by {
        assert(sorted[i] != sorted[j]);
        assert(from[to[sorted[i]]] == sorted[i]);
        assert(from[to[sorted[j]]] == sorted[j]);
    }
    assert forall|i: int, j: int| 0 <= i < j < here.len() implies times_of(
        other,
    )[#[trigger] here[i]] != times_of(other)[#[trigger] here[j]] by {
        assert(sorted[i] != sorted[j]);
        assert(other[to[sorted[i]]] == records[sorted[i]]);
        assert(other[to[sorted[j]]] == records[sorted[j]]);
        if sorted[i] < sorted[j] {
            assert(parent_links(records)[sorted[i]] == parent_links(records)[sorted[j]]);
        } else {
            assert(parent_links(records)[sorted[j]] == parent_links(records)[sorted[i]]);
        }
    }
    assert forall|y: int|
        #![trigger here.contains(y)]
        #![trigger other_sorted.contains(y)]
        here.contains(y) <==> other_sorted.contains(y) by {
        if here.contains(y) {
            let k = choose|k: int| 0 <= k < here.len() && here[k] == y;
            assert(y == to[sorted[k]]);
            assert(from[y] == sorted[k]);
            assert(listed.contains(from[y]));
            assert(other_listed.contains(y));
        }
        if other_sorted.contains(y) {
            assert(other_listed.contains(y));
            assert(listed.contains(from[y]));
            assert(sorted.contains(from[y]));
            let k = choose|k: int| 0 <= k < sorted.len() && sorted[k] == from[y];
            assert(here[k] == to[from[y]]);
            assert(to[from[y]] == y);
        }
    }
    lemma_sorted_runs_agree(times_of(other), here, other_sorted);
}

/// The display order of a group of records moves with the records.
pub proof fn lemma_forest_moves(
    records: Seq<Message>,
    other: Seq<Message>,
    to: Seq<int>,
    from: Seq<int>,
    nodes: Seq<int>,
    depth: nat,
    levels: nat,
)
    requires
        rearranged(records, other, to, from),
        unique_ids(records),
        no_ties(records),
        forall|i: int| 0 <= i < nodes.len() ==> 0 <= #[trigger] nodes[i] < records.len(),
    ensures
        forest(parent_links(other), times_of(other), image(to, nodes), depth, levels)
            == image_order(
            to,
            forest(parent_links(records), times_of(records), nodes, depth, levels),
        ),
    decreases levels, nodes.len(),
{
    let parents = parent_links(records);
    let times = times_of(records);
    let other_parents = parent_links(other);
    let other_times = times_of(other);
    let there = image(to, nodes);
    if nodes.len() == 0 {
        assert(forest(other_parents, other_times, there, depth, levels) =~= image_order(
            to,
            forest(parents, times, nodes, depth, levels),
        ));
    } else {
        let rest = nodes.drop_last();
        let last = nodes.last();
        assert(there.drop_last() =~= image(to, rest));
        assert(there.last() == to[last]);
        assert(0 <= nodes[nodes.len() - 1] < records.len());
        assert forall|i: int| 0 <= i < rest.len() implies 0 <= #[trigger] rest[i]
            < records.len() by {
            assert(rest[i] == nodes[i]);
        }
        lemma_forest_moves(records, other, to, from, rest, depth, levels);
        let kids = children(parents, times, last);
        lemma_sorted_group_moves(records, other, to, from, Some(last));
        assert(children(other_parents, other_times, to[last]) == image(to, kids));
        let first = forest(parents, times, rest, depth, levels);
        if levels == 0 {
            assert(forest(other_parents, other_times, there, depth, levels) =~= image_order(
                to,
                forest(parents, times, nodes, depth, levels),
            ));
        } else {
            lemma_members(parents, Some(last), parents.len());
            lemma_by_time(times, members(parents, Some(last), parents.len()));
            assert forall|i: int| 0 <= i < kids.len() implies 0 <= #[trigger] kids[i]
                < records.len() by {
                assert(kids.contains(kids[i]));
                assert(members(parents, Some(last), parents.len()).contains(kids[i]));
            }
            lemma_forest_moves(records, other, to, from, kids, depth + 1, (levels - 1) as nat);
            let below = forest(parents, times, kids, depth + 1, (levels - 1) as nat);
            assert(image_order(to, first.push((last, depth)) + below) =~= image_order(
                to,
                first,
            ).push((to[last], depth)) + image_order(to, below));
        }
    }
}

/// The order of the input does not matter: where no two records have one
/// identifier, and no two records with one parent, nor two thread starts,
/// have one timestamp, the records in any other order have the same thread
/// hierarchy.
pub proof fn lemma_order_of_input_does_not_matter(
    records: Seq<Message>,
    other: Seq<Message>,
    to: Seq<int>,
    from: Seq<int>,
)
    requires
        rearranged(records, other, to, from),
        unique_ids(records),
        no_ties(records),
    ensures
        hierarchy(other) == hierarchy(records),
{
    let n = records.len();
    let parents = parent_links(records);
    let times = times_of(records);
    let other_parents = parent_links(other);
    let starts = by_time(times, members(parents, None, n));
    let order = display_order(records);
    lemma_thread_starts(parents, times);
    lemma_sorted_group_moves(records, other, to, from, None);
    lemma_forest_moves(records, other, to, from, starts, 0, n);
    assert(display_order(other) == image_order(to, order));
    lemma_listed_positions(parents, times, starts, 0, n);
    lemma_links_move(records, other, to, from);
    assert(hierarchy(other).len() == hierarchy(records).len());
    assert forall|a: int| 0 <= a < order.len() implies node_at(
        other,
        other_parents,
        #[trigger] image_order(to, order)[a],
    ) == node_at(records, parents, order[a]) by {
        let x = order[a].0;
        assert(0 <= x < n);
        assert(other[to[x]] == records[x]);
        assert(other_parents[to[x]] == moved(to, parents[x]));
        lemma_members_move(records, other, to, from, Some(x));
        let kids = members(parents, Some(x), n);
        let other_kids = members(other_parents, Some(to[x]), n);
        if kids.len() > 0 {
            assert(kids.contains(kids[0]));
            lemma_members(parents, Some(x), n);
            assert(from[to[kids[0]]] == kids[0]);
            assert(other_kids.contains(to[kids[0]]));
        }
        if other_kids.len() > 0 {
            assert(other_kids.contains(other_kids[0]));
            assert(kids.contains(from[other_kids[0]]));
        }
    }
    assert(hierarchy(other) =~= hierarchy(records));
}

} // verus!
