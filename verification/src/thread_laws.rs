//! Which records a thread hierarchy lists, and in which order: exactly the
//! records that descend from a thread start, each once, at the depth that
//! counts its parent links, the children of one parent by ascending time.

use crate::hierarchy::{
    by_time, children, display_order, forest, hierarchy, insert_by_time, lemma_position_of_id,
    members, parent_links, thread_order, times_of,
};
use crate::hierarchy_laws::{
    lemma_by_time, lemma_children, lemma_forest, lemma_insert_by_time, lemma_listed_positions,
    lemma_members, lemma_sorted_prefix, time_sorted,
};
use crate::project::{Message, Timestamp};
use vstd::prelude::*;

verus! {

/// The record that stands `k` parent links above `x`, if there is one.
pub open spec fn ancestor(parents: Seq<Option<int>>, x: int, k: nat) -> Option<int>
    decreases k,
{
    if k == 0 {
        Some(x)
    } else {
        match parents[x] {
            Some(p) => ancestor(parents, p, (k - 1) as nat),
            None => None,
        }
    }
}

/// Record `x` stands `k` parent links below a thread start.
pub open spec fn rooted(parents: Seq<Option<int>>, x: int, k: nat) -> bool {
    match ancestor(parents, x, k) {
        Some(start) => parents[start] is None,
        None => false,
    }
}

/// Every parent link leads to a record.
pub open spec fn links_in_range(parents: Seq<Option<int>>) -> bool {
    forall|i: int|
        0 <= i < parents.len() ==> (#[trigger] parents[i] matches Some(p) ==> 0 <= p
            < parents.len())
}

/// No record occurs twice in `nodes`.
pub open spec fn distinct(nodes: Seq<int>) -> bool {
    forall|i: int, j: int| 0 <= i < j < nodes.len() ==> #[trigger] nodes[i] != #[trigger] nodes[j]
}

/// Every entry of `order` stands at its depth below a thread start, not
/// above `depth`, and descends from a record of `nodes` that stands at
/// `depth`.
pub open spec fn descends_from(
    parents: Seq<Option<int>>,
    order: Seq<(int, nat)>,
    nodes: Seq<int>,
    depth: nat,
) -> bool {
    forall|a: int|
        0 <= a < order.len() ==> {
            let entry = #[trigger] order[a];
            &&& entry.1 >= depth
            &&& rooted(parents, entry.0, entry.1)
            &&& exists|i: int|
                0 <= i < nodes.len() && ancestor(parents, entry.0, (entry.1 - depth) as nat)
                    == Some(#[trigger] nodes[i])
        }
}

/// No record is listed twice in `order`.
pub open spec fn lists_once(order: Seq<(int, nat)>) -> bool {
    forall|a: int, b: int|
        0 <= a < b < order.len() ==> (#[trigger] order[a]).0 != (#[trigger] order[b]).0
}

/// Of two entries of `order` with one parent, and of two without a parent,
/// the first is not the younger.
pub open spec fn siblings_by_time(
    parents: Seq<Option<int>>,
    times: Seq<Timestamp>,
    order: Seq<(int, nat)>,
) -> bool {
    forall|a: int, b: int|
        0 <= a < b < order.len() && parents[(#[trigger] order[a]).0] == parents[(
        #[trigger] order[b]).0] ==> times[order[a].0].at_most(times[order[b].0])
}

/// Every entry of `order` below `depth` follows its parent: the nearest
/// entry before it that stands one level higher is its parent, and nothing
/// between the two stands higher than the entry.
pub open spec fn follows_parent(
    parents: Seq<Option<int>>,
    order: Seq<(int, nat)>,
    depth: nat,
) -> bool {
    forall|a: int|
        0 <= a < order.len() && (#[trigger] order[a]).1 > depth ==> exists|q: int|
            {
                &&& 0 <= q < a
                &&& (#[trigger] order[q]).1 + 1 == order[a].1
                &&& parents[order[a].0] == Some(order[q].0)
                &&& forall|c: int| q < c < a ==> (#[trigger] order[c]).1 >= order[a].1
            }
}

/// Every entry of `order` stands at a depth from `low` to `high`.
pub open spec fn depths_within(order: Seq<(int, nat)>, low: nat, high: nat) -> bool {
    forall|a: int| 0 <= a < order.len() ==> low <= (#[trigger] order[a]).1 <= high
}

/// A run of different records without its last entry is one of different
/// records.
pub proof fn lemma_distinct_prefix(nodes: Seq<int>)
    requires
        distinct(nodes),
        nodes.len() > 0,
    ensures
        distinct(nodes.drop_last()),
{
    let rest = nodes.drop_last();
    assert forall|i: int, j: int| 0 <= i < j < rest.len() implies #[trigger] rest[i]
        != #[trigger] rest[j] by {
        assert(nodes[i] != nodes[j]);
    }
}

/// One link above the ancestor `k` links above stands the ancestor `k + 1`
/// links above.
pub proof fn lemma_ancestor_step(parents: Seq<Option<int>>, x: int, k: nat, y: int)
    requires
        ancestor(parents, x, k) == Some(y),
    ensures
        ancestor(parents, x, k + 1) == (match parents[y] {
            Some(p) => Some(p),
            None => None,
        }),
    decreases k,
{
    if k == 0 {
        assert(ancestor(parents, x, 1) == (match parents[x] {
            Some(p) => ancestor(parents, p, 0),
            None => None,
        }));
    } else {
        match parents[x] {
            Some(p) => {
                lemma_ancestor_step(parents, p, (k - 1) as nat, y);
            },
            None => {},
        }
    }
}

/// The ancestor `m` links above the ancestor `k` links above is the ancestor
/// `k + m` links above.
pub proof fn lemma_ancestor_add(parents: Seq<Option<int>>, x: int, k: nat, m: nat, y: int)
    requires
        ancestor(parents, x, k) == Some(y),
    ensures
        ancestor(parents, x, k + m) == ancestor(parents, y, m),
    decreases k,
{
    if k > 0 {
        match parents[x] {
            Some(p) => {
                lemma_ancestor_add(parents, p, (k - 1) as nat, m, y);
            },
            None => {},
        }
    }
}

/// A record stands at one depth only.
pub proof fn lemma_rooted_unique(parents: Seq<Option<int>>, x: int, k: nat, m: nat)
    requires
        rooted(parents, x, k),
        rooted(parents, x, m),
    ensures
        k == m,
    decreases k,
{
    if k == 0 {
        if m > 0 {
            assert(ancestor(parents, x, m) == (match parents[x] {
                Some(p) => ancestor(parents, p, (m - 1) as nat),
                None => None,
            }));
        }
    } else {
        match parents[x] {
            Some(p) => {
                if m == 0 {
                } else {
                    lemma_rooted_unique(parents, p, (k - 1) as nat, (m - 1) as nat);
                }
            },
            None => {},
        }
    }
}

/// Records with one parent stand at one depth.
pub proof fn lemma_siblings_share_depth(
    parents: Seq<Option<int>>,
    x: int,
    y: int,
    k: nat,
    m: nat,
)
    requires
        parents[x] == parents[y],
        rooted(parents, x, k),
        rooted(parents, y, m),
    ensures
        k == m,
{
    match parents[x] {
        Some(p) => {
            if k == 0 || m == 0 {
            } else {
                lemma_rooted_unique(parents, p, (k - 1) as nat, (m - 1) as nat);
            }
        },
        None => {
            if k > 0 {
                assert(ancestor(parents, x, k) is None);
            }
            if m > 0 {
                assert(ancestor(parents, y, m) is None);
            }
        },
    }
}

/// The ancestors of a record are records.
pub proof fn lemma_ancestor_in_range(parents: Seq<Option<int>>, x: int, k: nat)
    requires
        links_in_range(parents),
        0 <= x < parents.len(),
    ensures
        ancestor(parents, x, k) matches Some(y) ==> 0 <= y < parents.len(),
    decreases k,
{
    if k > 0 {
        match parents[x] {
            Some(p) => {
                lemma_ancestor_in_range(parents, p, (k - 1) as nat);
            },
            None => {},
        }
    }
}

/// No chain of parent links that ends at a thread start is as long as there
/// are records.
pub proof fn lemma_chain_is_short(parents: Seq<Option<int>>, x: int, k: nat)
    requires
        links_in_range(parents),
        0 <= x < parents.len(),
        rooted(parents, x, k),
    ensures
        k < parents.len(),
{
    let chain = Seq::new(k + 1, |i: int| ancestor(parents, x, i as nat)->0);
    assert forall|i: int| 0 <= i <= k implies ancestor(parents, x, i as nat) is Some && rooted(
        parents,
        #[trigger] chain[i],
        (k - i) as nat,
    ) && 0 <= chain[i] < parents.len() by {
        lemma_ancestor_prefix(parents, x, k, i as nat);
        lemma_ancestor_add(parents, x, i as nat, (k - i) as nat, chain[i]);
        lemma_ancestor_in_range(parents, x, i as nat);
    }
    assert forall|i: int, j: int|
        0 <= i < chain.len() && 0 <= j < chain.len() && i != j implies chain[i] != chain[j] by {
        if chain[i] == chain[j] {
            lemma_rooted_unique(parents, chain[i], (k - i) as nat, (k - j) as nat);
        }
    }
    assert(chain.no_duplicates());
    chain.unique_seq_to_set();
    vstd::set_lib::lemma_int_range(0, parents.len() as int);
    assert(chain.to_set().subset_of(vstd::set_lib::set_int_range(0, parents.len() as int))) by {
        assert forall|y: int| chain.to_set().contains(y) implies vstd::set_lib::set_int_range(
            0,
            parents.len() as int,
        ).contains(y) by {
            let i = choose|i: int| 0 <= i < chain.len() && chain[i] == y;
            assert(0 <= chain[i] < parents.len());
        }
    }
    vstd::set_lib::lemma_len_subset(
        chain.to_set(),
        vstd::set_lib::set_int_range(0, parents.len() as int),
    );
}

/// Where a record has an ancestor `k` links above, it has one `i` links
/// above for every smaller `i`.
pub proof fn lemma_ancestor_prefix(parents: Seq<Option<int>>, x: int, k: nat, i: nat)
    requires
        ancestor(parents, x, k) is Some,
        i <= k,
    ensures
        ancestor(parents, x, i) is Some,
    decreases i,
{
    if i > 0 {
        match parents[x] {
            Some(p) => {
                lemma_ancestor_prefix(parents, p, (k - 1) as nat, (i - 1) as nat);
            },
            None => {},
        }
    }
}

/// The positions that `members` lists are all different.
pub proof fn lemma_members_distinct(parents: Seq<Option<int>>, parent: Option<int>, n: nat)
    ensures
        distinct(members(parents, parent, n)),
        forall|i: int|
            0 <= i < members(parents, parent, n).len() ==> 0 <= #[trigger] members(
                parents,
                parent,
                n,
            )[i] < n,
    decreases n,
{
    if n > 0 {
        lemma_members_distinct(parents, parent, (n - 1) as nat);
        let rest = members(parents, parent, (n - 1) as nat);
        let all = members(parents, parent, n);
        assert forall|i: int| 0 <= i < all.len() implies 0 <= #[trigger] all[i] < n by {
            if i < rest.len() {
                assert(all[i] == rest[i]);
            }
        }
        assert forall|i: int, j: int| 0 <= i < j < all.len() implies #[trigger] all[i]
            != #[trigger] all[j] by {
            assert(all[i] == rest[i]);
            if j < rest.len() {
                assert(all[j] == rest[j]);
            }
        }
    }
}

/// Inserting a record that is not in a sorted run keeps the run free of
/// repetitions.
pub proof fn lemma_insert_distinct(times: Seq<Timestamp>, sorted: Seq<int>, x: int)
    requires
        time_sorted(times, sorted),
        distinct(sorted),
        !sorted.contains(x),
    ensures
        distinct(insert_by_time(times, sorted, x)),
    decreases sorted.len(),
{
    let result = insert_by_time(times, sorted, x);
    if sorted.len() == 0 {
    } else if times[sorted.last()].at_most(times[x]) {
        assert(result == sorted.push(x));
        assert forall|i: int, j: int| 0 <= i < j < result.len() implies #[trigger] result[i]
            != #[trigger] result[j] by {
            if j == sorted.len() {
                assert(sorted.contains(sorted[i]));
            } else {
                assert(sorted[i] != sorted[j]);
            }
        }
    } else {
        let rest = sorted.drop_last();
        let last = sorted.last();
        lemma_sorted_prefix(times, sorted);
        lemma_distinct_prefix(sorted);
        if rest.contains(x) {
            let k = choose|k: int| 0 <= k < rest.len() && rest[k] == x;
            assert(sorted[k] == x);
        }
        lemma_insert_distinct(times, rest, x);
        lemma_insert_by_time(times, rest, x);
        let inner = insert_by_time(times, rest, x);
        assert(result == inner.push(last));
        assert forall|i: int, j: int| 0 <= i < j < result.len() implies #[trigger] result[i]
            != #[trigger] result[j] by {
            if j == inner.len() {
                assert(inner.contains(inner[i]));
                if inner[i] == last {
                    assert(sorted[sorted.len() - 1] == last);
                    assert(sorted.contains(last));
                    assert(rest.contains(last));
                    let k = choose|k: int| 0 <= k < rest.len() && rest[k] == last;
                    assert(sorted[k] != sorted[sorted.len() - 1]);
                }
            } else {
                assert(inner[i] != inner[j]);
            }
        }
    }
}

/// Ordering by time keeps a run free of repetitions.
pub proof fn lemma_by_time_distinct(times: Seq<Timestamp>, nodes: Seq<int>)
    requires
        distinct(nodes),
    ensures
        distinct(by_time(times, nodes)),
    decreases nodes.len(),
{
    if nodes.len() > 0 {
        let rest = nodes.drop_last();
        lemma_distinct_prefix(nodes);
        lemma_by_time_distinct(times, rest);
        lemma_by_time(times, rest);
        if by_time(times, rest).contains(nodes.last()) {
            assert(rest.contains(nodes.last()));
            let k = choose|k: int| 0 <= k < rest.len() && rest[k] == nodes.last();
            assert(nodes[k] != nodes[nodes.len() - 1]);
        }
        lemma_insert_distinct(times, by_time(times, rest), nodes.last());
    }
}

/// The children of a record are sorted by time and all different, and each
/// stands one link below the record.
pub proof fn lemma_children_rooted(
    parents: Seq<Option<int>>,
    times: Seq<Timestamp>,
    node: int,
    depth: nat,
)
    requires
        rooted(parents, node, depth),
    ensures
        time_sorted(times, children(parents, times, node)),
        distinct(children(parents, times, node)),
        forall|i: int|
            0 <= i < children(parents, times, node).len() ==> {
                let kid = #[trigger] children(parents, times, node)[i];
                parents[kid] == Some(node) && rooted(parents, kid, depth + 1)
            },
{
    lemma_children(parents, times, node);
    lemma_members_distinct(parents, Some(node), parents.len());
    lemma_by_time_distinct(times, members(parents, Some(node), parents.len()));
    let kids = children(parents, times, node);
    assert forall|i: int| 0 <= i < kids.len() implies rooted(
        parents,
        #[trigger] kids[i],
        depth + 1,
    ) by {
        assert(parents[kids[i]] == Some(node));
        assert(ancestor(parents, kids[i], depth + 1) == ancestor(parents, node, depth));
    }
}

/// The display order of a sorted group of different records that stand at
/// one depth: every entry stands at its depth below a thread start and
/// descends from a record of the group, no record is listed twice, and
/// entries with one parent are ordered by time.
pub proof fn lemma_forest_once(
    parents: Seq<Option<int>>,
    times: Seq<Timestamp>,
    nodes: Seq<int>,
    depth: nat,
    levels: nat,
)
    requires
        distinct(nodes),
        time_sorted(times, nodes),
        forall|i: int| 0 <= i < nodes.len() ==> rooted(parents, #[trigger] nodes[i], depth),
    ensures
        descends_from(parents, forest(parents, times, nodes, depth, levels), nodes, depth),
        lists_once(forest(parents, times, nodes, depth, levels)),
        siblings_by_time(parents, times, forest(parents, times, nodes, depth, levels)),
    decreases levels, nodes.len(),
{
    let order = forest(parents, times, nodes, depth, levels);
    if nodes.len() > 0 {
        let rest = nodes.drop_last();
        let last = nodes.last();
        let first = forest(parents, times, rest, depth, levels);
        let kids = children(parents, times, last);
        let below = if levels == 0 {
            Seq::<(int, nat)>::empty()
        } else {
            forest(parents, times, kids, depth + 1, (levels - 1) as nat)
        };
        assert(order == first.push((last, depth)) + below);
        let mid = first.len() as int;
        assert(nodes[nodes.len() - 1] == last);
        assert(rooted(parents, last, depth));
        lemma_sorted_prefix(times, nodes);
        lemma_distinct_prefix(nodes);
        assert forall|i: int| 0 <= i < rest.len() implies rooted(
            parents,
            #[trigger] rest[i],
            depth,
        ) by {
            assert(rest[i] == nodes[i]);
        }
        lemma_forest_once(parents, times, rest, depth, levels);
        lemma_children_rooted(parents, times, last, depth);
        if levels > 0 {
            lemma_forest_once(parents, times, kids, depth + 1, (levels - 1) as nat);
        }
        assert forall|a: int| 0 <= a < mid implies order[a] == first[a] by {}
        assert(order[mid] == (last, depth));
        assert forall|a: int| mid < a < order.len() implies order[a] == below[a - mid - 1] by {}

        // Every entry stands at its depth and descends from a record of the group.
        assert forall|a: int| 0 <= a < order.len() implies ({
            let entry = #[trigger] order[a];
            &&& entry.1 >= depth
            &&& rooted(parents, entry.0, entry.1)
            &&& exists|i: int|
                0 <= i < nodes.len() && ancestor(parents, entry.0, (entry.1 - depth) as nat)
                    == Some(#[trigger] nodes[i])
        }) by {
            if a < mid {
                let entry = first[a];
                let i = choose|i: int|
                    0 <= i < rest.len() && ancestor(parents, entry.0, (entry.1 - depth) as nat)
                        == Some(#[trigger] rest[i]);
                assert(nodes[i] == rest[i]);
            } else if a == mid {
                assert(ancestor(parents, last, 0) == Some(nodes[nodes.len() - 1]));
            } else {
                let entry = below[a - mid - 1];
                let j = choose|j: int|
                    0 <= j < kids.len() && ancestor(
                        parents,
                        entry.0,
                        (entry.1 - (depth + 1)) as nat,
                    ) == Some(#[trigger] kids[j]);
                assert(parents[kids[j]] == Some(last));
                lemma_ancestor_step(parents, entry.0, (entry.1 - (depth + 1)) as nat, kids[j]);
                assert(ancestor(parents, entry.0, (entry.1 - depth) as nat) == Some(
                    nodes[nodes.len() - 1],
                ));
            }
        }

        // Entries of different parts stand for different records, and do not
        // share a parent unless the first stands in the group itself.
        assert forall|a: int, b: int| 0 <= a < b < order.len() implies (#[trigger] order[a]).0
            != (#[trigger] order[b]).0 && (parents[order[a].0] == parents[order[b].0]
            ==> times[order[a].0].at_most(times[order[b].0])) by {
            let ea = order[a];
            let eb = order[b];
            if b < mid {
                assert(first[a].0 != first[b].0);
            } else if a > mid {
                assert(below[a - mid - 1].0 != below[b - mid - 1].0);
            } else if a < mid && b == mid {
                let i = choose|i: int|
                    0 <= i < rest.len() && ancestor(parents, ea.0, (ea.1 - depth) as nat) == Some(
                        #[trigger] rest[i],
                    );
                assert(nodes[i] == rest[i]);
                assert(nodes[i] != nodes[nodes.len() - 1]);
                if ea.0 == last {
                    lemma_rooted_unique(parents, last, ea.1, depth);
                }
                if parents[ea.0] == parents[last] {
                    lemma_siblings_share_depth(parents, ea.0, last, ea.1, depth);
                    assert(ea.0 == rest[i]);
                    assert(times[nodes[i]].at_most(times[nodes[nodes.len() - 1]]));
                }
            } else if a < mid {
                let i = choose|i: int|
                    0 <= i < rest.len() && ancestor(parents, ea.0, (ea.1 - depth) as nat) == Some(
                        #[trigger] rest[i],
                    );
                assert(nodes[i] == rest[i]);
                assert(nodes[i] != nodes[nodes.len() - 1]);
                let j = choose|j: int|
                    0 <= j < kids.len() && ancestor(parents, eb.0, (eb.1 - (depth + 1)) as nat)
                        == Some(#[trigger] kids[j]);
                assert(parents[kids[j]] == Some(last));
                lemma_ancestor_step(parents, eb.0, (eb.1 - (depth + 1)) as nat, kids[j]);
                assert(ancestor(parents, eb.0, (eb.1 - depth) as nat) == Some(last));
                if ea.0 == eb.0 {
                    lemma_rooted_unique(parents, ea.0, ea.1, eb.1);
                }
                if parents[ea.0] == parents[eb.0] {
                    lemma_siblings_share_depth(parents, ea.0, eb.0, ea.1, eb.1);
                    let up = (ea.1 - depth) as nat;
                    assert(up >= 1);
                    assert(ancestor(parents, ea.0, up) == ancestor(parents, eb.0, up));
                }
            } else {
                assert(a == mid);
                if ea.0 == eb.0 {
                    lemma_rooted_unique(parents, last, depth, eb.1);
                }
                if parents[ea.0] == parents[eb.0] {
                    lemma_siblings_share_depth(parents, last, eb.0, depth, eb.1);
                }
            }
        }
    }
}

/// Where a display order lists a record with levels to spare, it lists the
/// children of the record one level deeper.
pub proof fn lemma_forest_lists_children(
    parents: Seq<Option<int>>,
    times: Seq<Timestamp>,
    nodes: Seq<int>,
    depth: nat,
    levels: nat,
    p: int,
    d: nat,
    kid: int,
)
    requires
        forest(parents, times, nodes, depth, levels).contains((p, d)),
        depth <= d < depth + levels,
        children(parents, times, p).contains(kid),
    ensures
        forest(parents, times, nodes, depth, levels).contains((kid, d + 1)),
    decreases levels, nodes.len(),
{
    let order = forest(parents, times, nodes, depth, levels);
    let at = choose|at: int| 0 <= at < order.len() && order[at] == (p, d);
    if nodes.len() > 0 {
        let rest = nodes.drop_last();
        let last = nodes.last();
        let first = forest(parents, times, rest, depth, levels);
        let kids = children(parents, times, last);
        let below = forest(parents, times, kids, depth + 1, (levels - 1) as nat);
        assert(order == first.push((last, depth)) + below);
        let mid = first.len() as int;
        if at < mid {
            assert(first[at] == (p, d));
            assert(first.contains((p, d)));
            lemma_forest_lists_children(parents, times, rest, depth, levels, p, d, kid);
            let to = choose|to: int| 0 <= to < first.len() && first[to] == (kid, d + 1);
            assert(order[to] == (kid, d + 1));
        } else if at == mid {
            lemma_children(parents, times, last);
            lemma_forest(parents, times, kids, depth + 1, (levels - 1) as nat, Some(last));
            let i = choose|i: int| 0 <= i < kids.len() && kids[i] == kid;
            assert(below.contains((kids[i], depth + 1)));
            let to = choose|to: int| 0 <= to < below.len() && below[to] == (kid, depth + 1);
            assert(order[mid + 1 + to] == (kid, d + 1));
        } else {
            assert(below[at - mid - 1] == (p, d));
            assert(below.contains((p, d)));
            lemma_forest_depths(parents, times, kids, depth + 1, (levels - 1) as nat);
            lemma_forest_lists_children(
                parents,
                times,
                kids,
                depth + 1,
                (levels - 1) as nat,
                p,
                d,
                kid,
            );
            let to = choose|to: int| 0 <= to < below.len() && below[to] == (kid, d + 1);
            assert(order[mid + 1 + to] == (kid, d + 1));
        }
    }
}

/// No entry of a display order is shallower than the depth it starts at.
pub proof fn lemma_forest_depths(
    parents: Seq<Option<int>>,
    times: Seq<Timestamp>,
    nodes: Seq<int>,
    depth: nat,
    levels: nat,
)
    ensures
        depths_within(forest(parents, times, nodes, depth, levels), depth, depth + levels),
    decreases levels, nodes.len(),
{
    let order = forest(parents, times, nodes, depth, levels);
    if nodes.len() > 0 {
        let rest = nodes.drop_last();
        let last = nodes.last();
        let first = forest(parents, times, rest, depth, levels);
        let kids = children(parents, times, last);
        let below = if levels == 0 {
            Seq::<(int, nat)>::empty()
        } else {
            forest(parents, times, kids, depth + 1, (levels - 1) as nat)
        };
        assert(order == first.push((last, depth)) + below);
        let mid = first.len() as int;
        lemma_forest_depths(parents, times, rest, depth, levels);
        if levels > 0 {
            lemma_forest_depths(parents, times, kids, depth + 1, (levels - 1) as nat);
        }
        assert forall|a: int| 0 <= a < order.len() implies depth <= (#[trigger] order[a]).1
            <= depth + levels by {
            if a < mid {
                assert(order[a] == first[a]);
            } else if a > mid {
                assert(order[a] == below[a - mid - 1]);
            }
        }
    }
}

/// In the display order of a group of nodes, every entry below the group
/// follows its parent.
pub proof fn lemma_forest_follows_parents(
    parents: Seq<Option<int>>,
    times: Seq<Timestamp>,
    nodes: Seq<int>,
    depth: nat,
    levels: nat,
)
    ensures
        follows_parent(parents, forest(parents, times, nodes, depth, levels), depth),
    decreases levels, nodes.len(),
{
    let order = forest(parents, times, nodes, depth, levels);
    if nodes.len() > 0 {
        let rest = nodes.drop_last();
        let last = nodes.last();
        let first = forest(parents, times, rest, depth, levels);
        let kids = children(parents, times, last);
        let below = if levels == 0 {
            Seq::<(int, nat)>::empty()
        } else {
            forest(parents, times, kids, depth + 1, (levels - 1) as nat)
        };
        assert(order == first.push((last, depth)) + below);
        let mid = first.len() as int;
        lemma_forest_follows_parents(parents, times, rest, depth, levels);
        lemma_children(parents, times, last);
        if levels > 0 {
            lemma_forest_follows_parents(parents, times, kids, depth + 1, (levels - 1) as nat);
            lemma_forest(parents, times, kids, depth + 1, (levels - 1) as nat, Some(last));
        }
        assert forall|a: int| 0 <= a < mid implies order[a] == first[a] by {}
        assert(order[mid] == (last, depth));
        assert forall|a: int| mid < a < order.len() implies order[a] == below[a - mid - 1] by {}
        assert forall|a: int|
            0 <= a < order.len() && (#[trigger] order[a]).1 > depth implies exists|q: int|
            {
                &&& 0 <= q < a
                &&& (#[trigger] order[q]).1 + 1 == order[a].1
                &&& parents[order[a].0] == Some(order[q].0)
                &&& forall|c: int| q < c < a ==> (#[trigger] order[c]).1 >= order[a].1
            } by {
            if a < mid {
                assert(first[a].1 > depth);
                let q = choose|q: int|
                    {
                        &&& 0 <= q < a
                        &&& (#[trigger] first[q]).1 + 1 == first[a].1
                        &&& parents[first[a].0] == Some(first[q].0)
                        &&& forall|c: int| q < c < a ==> (#[trigger] first[c]).1 >= first[a].1
                    };
                assert(order[q] == first[q]);
                assert forall|c: int| q < c < a implies (#[trigger] order[c]).1 >= order[a].1 by {
                    assert(order[c] == first[c]);
                }
            } else {
                let t = a - mid - 1;
                let entry = below[t];
                if entry.1 > depth + 1 {
                    let q = choose|q: int|
                        {
                            &&& 0 <= q < t
                            &&& (#[trigger] below[q]).1 + 1 == below[t].1
                            &&& parents[below[t].0] == Some(below[q].0)
                            &&& forall|c: int| q < c < t ==> (#[trigger] below[c]).1 >= below[t].1
                        };
                    let up = q + mid + 1;
                    assert(order[up] == below[q]);
                    assert forall|c: int| up < c < a implies (#[trigger] order[c]).1
                        >= order[a].1 by {
                        assert(order[c] == below[c - mid - 1]);
                    }
                } else {
                    assert(kids.contains(entry.0));
                    let i = choose|i: int| 0 <= i < kids.len() && kids[i] == entry.0;
                    assert(parents[kids[i]] == Some(last));
                    assert(order[mid].1 + 1 == order[a].1);
                    assert forall|c: int| mid < c < a implies (#[trigger] order[c]).1
                        >= order[a].1 by {
                        assert(order[c] == below[c - mid - 1]);
                    }
                }
            }
        }
    }
}

/// The thread starts, oldest first: sorted, all different, each at depth
/// zero.
pub proof fn lemma_thread_starts(parents: Seq<Option<int>>, times: Seq<Timestamp>)
    ensures
        time_sorted(times, by_time(times, members(parents, None, parents.len()))),
        distinct(by_time(times, members(parents, None, parents.len()))),
        forall|i: int|
            0 <= i < by_time(times, members(parents, None, parents.len())).len() ==> {
                let start = #[trigger] by_time(times, members(parents, None, parents.len()))[i];
                &&& 0 <= start < parents.len()
                &&& parents[start] == None::<int>
                &&& rooted(parents, start, 0)
            },
        forall|x: int|
            0 <= x < parents.len() && parents[x] == None::<int> ==> by_time(
                times,
                members(parents, None, parents.len()),
            ).contains(x),
{
    let listed = members(parents, None, parents.len());
    let starts = by_time(times, listed);
    lemma_members(parents, None, parents.len());
    lemma_members_distinct(parents, None, parents.len());
    lemma_by_time(times, listed);
    lemma_by_time_distinct(times, listed);
    assert forall|i: int| 0 <= i < starts.len() implies ({
        let start = #[trigger] starts[i];
        &&& 0 <= start < parents.len()
        &&& parents[start] == None::<int>
        &&& rooted(parents, start, 0)
    }) by {
        assert(starts.contains(starts[i]));
        assert(listed.contains(starts[i]));
    }
    assert forall|x: int|
        0 <= x < parents.len() && parents[x] == None::<int> implies starts.contains(x) by {
        assert(listed.contains(x));
    }
}

/// Every record that stands below a thread start is listed, at its depth.
pub proof fn lemma_descendant_is_listed(
    parents: Seq<Option<int>>,
    times: Seq<Timestamp>,
    x: int,
    k: nat,
)
    requires
        links_in_range(parents),
        0 <= x < parents.len(),
        rooted(parents, x, k),
    ensures
        thread_order(parents, times).contains((x, k)),
    decreases k,
{
    let starts = by_time(times, members(parents, None, parents.len()));
    lemma_thread_starts(parents, times);
    if k == 0 {
        assert(parents[x] == None::<int>);
        assert(starts.contains(x));
        let i = choose|i: int| 0 <= i < starts.len() && starts[i] == x;
        lemma_forest(parents, times, starts, 0, parents.len(), None);
        assert(thread_order(parents, times).contains((starts[i], 0nat)));
    } else {
        match parents[x] {
            Some(p) => {
                assert(rooted(parents, p, (k - 1) as nat));
                lemma_descendant_is_listed(parents, times, p, (k - 1) as nat);
                lemma_chain_is_short(parents, x, k);
                lemma_members(parents, Some(p), parents.len());
                lemma_by_time(times, members(parents, Some(p), parents.len()));
                assert(members(parents, Some(p), parents.len()).contains(x));
                assert(children(parents, times, p).contains(x));
                lemma_forest_lists_children(
                    parents,
                    times,
                    starts,
                    0,
                    parents.len(),
                    p,
                    (k - 1) as nat,
                    x,
                );
            },
            None => {},
        }
    }
}

/// The parent links of records lead to records.
pub proof fn lemma_parent_links_in_range(records: Seq<Message>)
    ensures
        links_in_range(parent_links(records)),
{
    let parents = parent_links(records);
    assert forall|i: int| 0 <= i < parents.len() implies (#[trigger] parents[i] matches Some(p)
        ==> 0 <= p < parents.len()) by {
        match records[i].parent_uuid {
            Some(id) => {
                lemma_position_of_id(records, id@);
            },
            None => {},
        }
    }
}

/// What a thread hierarchy lists. Every entry stands at the depth that
/// counts its parent links up to a thread start, and behind its parent, with
/// nothing between the two that stands higher than the entry. Every record
/// that stands below a thread start is listed, and none twice: records whose
/// parent links never reach a thread start, because they run in a circle, are
/// left out.
pub proof fn lemma_hierarchy_lists_each_descendant_once(records: Seq<Message>)
    ensures
        forall|a: int|
            0 <= a < display_order(records).len() ==> {
                let entry = #[trigger] display_order(records)[a];
                0 <= entry.0 < records.len() && rooted(parent_links(records), entry.0, entry.1)
            },
        lists_once(display_order(records)),
        follows_parent(parent_links(records), display_order(records), 0),
        forall|x: int, k: nat|
            0 <= x < records.len() && #[trigger] rooted(parent_links(records), x, k)
                ==> display_order(records).contains((x, k)),
        hierarchy(records).len() <= records.len(),
{
    let parents = parent_links(records);
    let times = times_of(records);
    let starts = by_time(times, members(parents, None, parents.len()));
    let order = thread_order(parents, times);
    lemma_parent_links_in_range(records);
    lemma_thread_starts(parents, times);
    lemma_forest_once(parents, times, starts, 0, parents.len());
    lemma_forest_follows_parents(parents, times, starts, 0, parents.len());
    lemma_listed_positions(parents, times, starts, 0, parents.len());
    assert forall|x: int, k: nat|
        0 <= x < records.len() && #[trigger] rooted(parents, x, k) implies order.contains(
        (x, k),
    ) by {
        lemma_descendant_is_listed(parents, times, x, k);
    }
    let listed = order.map_values(|entry: (int, nat)| entry.0);
    assert forall|a: int, b: int|
        0 <= a < listed.len() && 0 <= b < listed.len() && a != b implies listed[a]
        != listed[b] by {
        if a < b {
            assert(order[a].0 != order[b].0);
        } else {
            assert(order[b].0 != order[a].0);
        }
    }
    assert(listed.no_duplicates());
    listed.unique_seq_to_set();
    vstd::set_lib::lemma_int_range(0, records.len() as int);
    assert(listed.to_set().subset_of(vstd::set_lib::set_int_range(0, records.len() as int))) by {
        assert forall|y: int| listed.to_set().contains(y) implies vstd::set_lib::set_int_range(
            0,
            records.len() as int,
        ).contains(y) by {
            let a = choose|a: int| 0 <= a < listed.len() && listed[a] == y;
            assert(0 <= order[a].0 < records.len());
        }
    }
    vstd::set_lib::lemma_len_subset(
        listed.to_set(),
        vstd::set_lib::set_int_range(0, records.len() as int),
    );
}

/// The order of a thread hierarchy: of two entries with one parent, and of
/// two thread starts, the one that is listed first is not the younger.
pub proof fn lemma_siblings_are_listed_by_time(records: Seq<Message>)
    ensures
        siblings_by_time(parent_links(records), times_of(records), display_order(records)),
{
    let parents = parent_links(records);
    let times = times_of(records);
    let starts = by_time(times, members(parents, None, parents.len()));
    lemma_thread_starts(parents, times);
    lemma_forest_once(parents, times, starts, 0, parents.len());
}

/// The order of a thread hierarchy, as its nodes show it. A node starts a
/// thread exactly where its depth is zero. Of two thread starts, and of two
/// nodes that name one parent, the one that is listed first is not the
/// younger.
pub proof fn lemma_hierarchy_is_by_time(records: Seq<Message>)
    requires
        records.len() <= usize::MAX,
    ensures
        forall|a: int|
            0 <= a < hierarchy(records).len() ==> ((#[trigger] hierarchy(records)[a]).is_initial
                <==> hierarchy(records)[a].chain_depth == 0),
        forall|a: int, b: int|
            0 <= a < b < hierarchy(records).len() && (#[trigger] hierarchy(
                records,
            )[a]).is_initial && (#[trigger] hierarchy(records)[b]).is_initial ==> hierarchy(
                records,
            )[a].message.timestamp.at_most(hierarchy(records)[b].message.timestamp),
        forall|a: int, b: int|
            0 <= a < b < hierarchy(records).len() && (#[trigger] hierarchy(
                records,
            )[a]).message.parent_uuid == (#[trigger] hierarchy(records)[b]).message.parent_uuid
                ==> hierarchy(records)[a].message.timestamp.at_most(
                hierarchy(records)[b].message.timestamp,
            ),
{
    let parents = parent_links(records);
    let times = times_of(records);
    let order = thread_order(parents, times);
    let nodes = hierarchy(records);
    lemma_hierarchy_lists_each_descendant_once(records);
    lemma_siblings_are_listed_by_time(records);
    lemma_forest_depths(
        parents,
        times,
        by_time(times, members(parents, None, parents.len())),
        0,
        parents.len(),
    );
    assert(nodes.len() == order.len());
    assert forall|a: int| 0 <= a < nodes.len() implies (#[trigger] nodes[a]).message
        == records[order[a].0] && nodes[a].chain_depth == order[a].1 && nodes[a].is_initial
        == (parents[order[a].0] is None) by {
        assert(order[a].1 <= parents.len());
    }
    assert forall|a: int| 0 <= a < nodes.len() implies ((#[trigger] nodes[a]).is_initial
        <==> nodes[a].chain_depth == 0) by {
        let entry = order[a];
        assert(rooted(parents, entry.0, entry.1));
        if parents[entry.0] is None {
            assert(rooted(parents, entry.0, 0));
            lemma_rooted_unique(parents, entry.0, entry.1, 0);
        }
    }
    assert forall|a: int, b: int|
        0 <= a < b < nodes.len() && (#[trigger] nodes[a]).is_initial && (
        #[trigger] nodes[b]).is_initial implies nodes[a].message.timestamp.at_most(
        nodes[b].message.timestamp,
    ) by {
        assert(parents[order[a].0] == parents[order[b].0]);
        assert(times[order[a].0].at_most(times[order[b].0]));
    }
    assert forall|a: int, b: int|
        0 <= a < b < nodes.len() && (#[trigger] nodes[a]).message.parent_uuid == (
        #[trigger] nodes[b]).message.parent_uuid implies nodes[a].message.timestamp.at_most(
        nodes[b].message.timestamp,
    ) by {
        assert(0 <= order[a].0 < records.len());
        assert(0 <= order[b].0 < records.len());
        assert(parents[order[a].0] == parents[order[b].0]);
        assert(times[order[a].0].at_most(times[order[b].0]));
    }
}

/// Where the timestamps of two thread starts, or of two nodes that name one
/// parent, differ, the one that is listed first is the older.
pub proof fn lemma_hierarchy_is_strictly_by_time(records: Seq<Message>)
    requires
        records.len() <= usize::MAX,
    ensures
        forall|a: int, b: int|
            #![trigger hierarchy(records)[a], hierarchy(records)[b]]
            {
                let nodes = hierarchy(records);
                &&& 0 <= a < b < nodes.len()
                &&& nodes[a].message.timestamp != nodes[b].message.timestamp
                &&& (nodes[a].is_initial && nodes[b].is_initial) || nodes[a].message.parent_uuid
                    == nodes[b].message.parent_uuid
            } ==> hierarchy(records)[a].message.timestamp.before(
                hierarchy(records)[b].message.timestamp,
            ),
{
    lemma_hierarchy_is_by_time(records);
}

} // verus!
