//! The thread hierarchy of a chat session.
//!
//! A message names its parent by identifier. A message without a parent, or
//! with one that is not among the messages, starts a thread. The display
//! order lists each thread start, oldest first, followed at once by all that
//! descends from it: depth first, the children of each message oldest first.

use crate::project::{HierarchicalMessage, Message, Timestamp};
use vstd::prelude::*;

verus! {

/// The first position at which a record with identifier `id` stands.
pub open spec fn position_of_id(records: Seq<Message>, id: Seq<char>) -> Option<int>
    decreases records.len(),
{
    if records.len() == 0 {
        None
    } else {
        match position_of_id(records.drop_last(), id) {
            Some(j) => Some(j),
            None => if records.last().uuid@ == id {
                Some(records.len() - 1)
            } else {
                None
            },
        }
    }
}

/// The position of the record that record `i` names as its parent, where it
/// names one that is among the records.
pub open spec fn parent_of(records: Seq<Message>, i: int) -> Option<int> {
    match records[i].parent_uuid {
        Some(id) => position_of_id(records, id@),
        None => None,
    }
}

/// For each record, the position of its parent.
pub open spec fn parent_links(records: Seq<Message>) -> Seq<Option<int>> {
    Seq::new(records.len(), |i: int| parent_of(records, i))
}

/// For each record, its timestamp.
pub open spec fn times_of(records: Seq<Message>) -> Seq<Timestamp> {
    Seq::new(records.len(), |i: int| records[i].timestamp)
}

/// The positions below `n` whose parent is `parent`, in increasing order.
/// With `None` these are the thread starts, with `Some(j)` the children of
/// `j`.
pub open spec fn members(parents: Seq<Option<int>>, parent: Option<int>, n: nat) -> Seq<int>
    decreases n,
{
    if n == 0 {
        Seq::empty()
    } else {
        let rest = members(parents, parent, (n - 1) as nat);
        if parents[n - 1] == parent {
            rest.push(n - 1)
        } else {
            rest
        }
    }
}

/// `sorted` with `x` put behind the last entry that is not younger than `x`.
pub open spec fn insert_by_time(times: Seq<Timestamp>, sorted: Seq<int>, x: int) -> Seq<int>
    decreases sorted.len(),
{
    if sorted.len() == 0 {
        seq![x]
    } else if times[sorted.last()].at_most(times[x]) {
        sorted.push(x)
    } else {
        insert_by_time(times, sorted.drop_last(), x).push(sorted.last())
    }
}

/// `nodes` ordered by timestamp, oldest first; entries of one timestamp keep
/// their order.
pub open spec fn by_time(times: Seq<Timestamp>, nodes: Seq<int>) -> Seq<int>
    decreases nodes.len(),
{
    if nodes.len() == 0 {
        nodes
    } else {
        insert_by_time(times, by_time(times, nodes.drop_last()), nodes.last())
    }
}

/// The children of `node`, oldest first.
pub open spec fn children(parents: Seq<Option<int>>, times: Seq<Timestamp>, node: int) -> Seq<
    int,
> {
    by_time(times, members(parents, Some(node), parents.len()))
}

/// The display order of `nodes` and all that descends from them: each node
/// at `depth`, followed by the display order of its children one level
/// deeper. `levels` bounds how many levels below `depth` are listed.
pub open spec fn forest(
    parents: Seq<Option<int>>,
    times: Seq<Timestamp>,
    nodes: Seq<int>,
    depth: nat,
    levels: nat,
) -> Seq<(int, nat)>
    decreases levels, nodes.len(),
{
    if nodes.len() == 0 {
        Seq::empty()
    } else {
        let below = if levels == 0 {
            Seq::empty()
        } else {
            forest(
                parents,
                times,
                children(parents, times, nodes.last()),
                depth + 1,
                (levels - 1) as nat,
            )
        };
        forest(parents, times, nodes.drop_last(), depth, levels).push((nodes.last(), depth))
            + below
    }
}

/// The display order of all threads: each entry is a position and its depth.
/// No chain of `n` records is deeper than `n` levels, which is the bound that
/// is handed down.
pub open spec fn thread_order(parents: Seq<Option<int>>, times: Seq<Timestamp>) -> Seq<
    (int, nat),
> {
    forest(parents, times, by_time(times, members(parents, None, parents.len())), 0, parents.len())
}

/// The node that stands for record `entry.0` at depth `entry.1`.
pub open spec fn node_at(
    records: Seq<Message>,
    parents: Seq<Option<int>>,
    entry: (int, nat),
) -> HierarchicalMessage {
    HierarchicalMessage {
        message: records[entry.0],
        is_initial: parents[entry.0] is None,
        chain_depth: entry.1 as usize,
        has_continuation: members(parents, Some(entry.0), parents.len()).len() > 0,
    }
}

/// The nodes that stand for the entries of `order`.
pub open spec fn nodes_for(
    records: Seq<Message>,
    parents: Seq<Option<int>>,
    order: Seq<(int, nat)>,
) -> Seq<HierarchicalMessage> {
    order.map_values(|entry: (int, nat)| node_at(records, parents, entry))
}

/// The display order of `records`: the position and the depth of each
/// record that is shown.
pub open spec fn display_order(records: Seq<Message>) -> Seq<(int, nat)> {
    thread_order(parent_links(records), times_of(records))
}

/// The thread hierarchy of `records`, in display order.
pub open spec fn hierarchy(records: Seq<Message>) -> Seq<HierarchicalMessage> {
    nodes_for(records, parent_links(records), display_order(records))
}

/// Positions as the model holds them.
pub open spec fn indices(positions: Seq<usize>) -> Seq<int> {
    positions.map_values(|i: usize| i as int)
}

/// A parent link as the model holds it.
pub open spec fn link(parent: Option<usize>) -> Option<int> {
    match parent {
        Some(j) => Some(j as int),
        None => None,
    }
}

/// Parent links as the model holds them.
pub open spec fn links(parents: Seq<Option<usize>>) -> Seq<Option<int>> {
    parents.map_values(|p: Option<usize>| link(p))
}

/// What `position_of_id` finds: the first record with that identifier, and
/// nothing where no record has it.
pub proof fn lemma_position_of_id(records: Seq<Message>, id: Seq<char>)
    ensures
        match position_of_id(records, id) {
            Some(j) => {
                &&& 0 <= j < records.len()
                &&& records[j].uuid@ == id
                &&& forall|q: int| 0 <= q < j ==> records[q].uuid@ != id
            },
            None => forall|q: int| 0 <= q < records.len() ==> records[q].uuid@ != id,
        },
    decreases records.len(),
{
    if records.len() > 0 {
        let rest = records.drop_last();
        lemma_position_of_id(rest, id);
        assert forall|q: int| 0 <= q < rest.len() implies rest[q] == records[q] by {}
        match position_of_id(rest, id) {
            Some(j) => {
                assert(rest[j] == records[j]);
                assert forall|q: int| 0 <= q < j implies records[q].uuid@ != id by {
                    assert(rest[q] == records[q]);
                }
            },
            None => {
                assert forall|q: int| 0 <= q < records.len() - 1 implies records[q].uuid@
                    != id by {
                    assert(rest[q] == records[q]);
                }
            },
        }
    }
}

/// The first position at which a record with identifier `id` stands.
fn find_by_id(records: &Vec<Message>, id: &String) -> (found: Option<usize>)
    ensures
        link(found) == position_of_id(records@, id@),
{
    let mut j: usize = 0;
    while j < records.len()
        invariant
            j <= records@.len(),
            forall|q: int| 0 <= q < j ==> records@[q].uuid@ != id@,
        decreases records@.len() - j,
    {
        if records[j].uuid == *id {
            proof {
                lemma_position_of_id(records@, id@);
            }
            return Some(j);
        }
        j += 1;
    }
    proof {
        lemma_position_of_id(records@, id@);
    }
    None
}

/// For each record, the position of its parent.
fn resolve_parents(records: &Vec<Message>) -> (parents: Vec<Option<usize>>)
    ensures
        links(parents@) == parent_links(records@),
        forall|i: int|
            0 <= i < parents@.len() ==> (#[trigger] parents@[i] matches Some(j) ==> j
                < records@.len()),
{
    let mut parents: Vec<Option<usize>> = Vec::new();
    let mut i: usize = 0;
    while i < records.len()
        invariant
            i <= records@.len(),
            parents@.len() == i,
            forall|k: int| 0 <= k < i ==> link(#[trigger] parents@[k]) == parent_of(records@, k),
            forall|k: int|
                0 <= k < i ==> (#[trigger] parents@[k] matches Some(j) ==> j < records@.len()),
        decreases records@.len() - i,
    {
        let parent = match &records[i].parent_uuid {
            Some(id) => {
                let found = find_by_id(records, id);
                proof {
                    lemma_position_of_id(records@, id@);
                }
                found
            },
            None => None,
        };
        parents.push(parent);
        i += 1;
    }
    parents
}

/// For each record, its timestamp.
fn collect_times(records: &Vec<Message>) -> (times: Vec<Timestamp>)
    ensures
        times@ == times_of(records@),
{
    let mut times: Vec<Timestamp> = Vec::new();
    let mut i: usize = 0;
    while i < records.len()
        invariant
            i <= records@.len(),
            times@.len() == i,
            forall|k: int| 0 <= k < i ==> #[trigger] times@[k] == records@[k].timestamp,
        decreases records@.len() - i,
    {
        times.push(records[i].timestamp);
        i += 1;
    }
    times
}

/// Whether two parent links are the same.
fn same_link(a: Option<usize>, b: Option<usize>) -> (same: bool)
    ensures
        same == (link(a) == link(b)),
{
    match (a, b) {
        (Some(x), Some(y)) => x == y,
        (None, None) => true,
        _ => false,
    }
}

/// The positions whose parent is `parent`, in increasing order.
fn members_of(parents: &Vec<Option<usize>>, parent: Option<usize>) -> (found: Vec<usize>)
    ensures
        indices(found@) == members(links(parents@), link(parent), parents@.len() as nat),
        forall|k: int| 0 <= k < found@.len() ==> #[trigger] found@[k] < parents@.len(),
{
    let mut found: Vec<usize> = Vec::new();
    let mut i: usize = 0;
    while i < parents.len()
        invariant
            i <= parents@.len(),
            indices(found@) == members(links(parents@), link(parent), i as nat),
            forall|k: int| 0 <= k < found@.len() ==> #[trigger] found@[k] < i,
        decreases parents@.len() - i,
    {
        if same_link(parents[i], parent) {
            found.push(i);
        }
        i += 1;
    }
    found
}

/// For each record, its children in increasing order.
fn children_lists(parents: &Vec<Option<usize>>) -> (lists: Vec<Vec<usize>>)
    requires
        forall|i: int|
            0 <= i < parents@.len() ==> (#[trigger] parents@[i] matches Some(j) ==> j
                < parents@.len()),
    ensures
        lists@.len() == parents@.len(),
        forall|j: int|
            0 <= j < lists@.len() ==> indices((#[trigger] lists@[j])@) == members(
                links(parents@),
                Some(j),
                parents@.len(),
            ),
        forall|j: int, k: int|
            0 <= j < lists@.len() && 0 <= k < lists@[j]@.len() ==> (#[trigger] lists@[j]@[k])
                < parents@.len(),
{
    let n = parents.len();
    let mut lists: Vec<Vec<usize>> = Vec::new();
    while lists.len() < n
        invariant
            lists@.len() <= n,
            forall|j: int| 0 <= j < lists@.len() ==> (#[trigger] lists@[j])@.len() == 0,
        decreases n - lists@.len(),
    {
        lists.push(Vec::new());
    }
    let mut i: usize = 0;
    while i < n
        invariant
            i <= n,
            n == parents@.len(),
            lists@.len() == n,
            forall|k: int|
                0 <= k < parents@.len() ==> (#[trigger] parents@[k] matches Some(j) ==> j
                    < parents@.len()),
            forall|j: int|
                0 <= j < lists@.len() ==> indices((#[trigger] lists@[j])@) == members(
                    links(parents@),
                    Some(j),
                    i as nat,
                ),
            forall|j: int, k: int|
                0 <= j < lists@.len() && 0 <= k < lists@[j]@.len() ==> (#[trigger] lists@[j]@[k])
                    < i,
        decreases n - i,
    {
        if let Some(p) = parents[i] {
            lists[p].push(i);
        }
        i += 1;
    }
    lists
}

/// `nodes` ordered by timestamp, oldest first; entries of one timestamp keep
/// their order.
pub(crate) fn sort_by_time(nodes: &Vec<usize>, times: &Vec<Timestamp>) -> (sorted: Vec<usize>)
    requires
        forall|k: int| 0 <= k < nodes@.len() ==> #[trigger] nodes@[k] < times@.len(),
    ensures
        indices(sorted@) == by_time(times@, indices(nodes@)),
        sorted@.len() == nodes@.len(),
        forall|k: int| 0 <= k < sorted@.len() ==> #[trigger] sorted@[k] < times@.len(),
{
    let mut sorted: Vec<usize> = Vec::new();
    let mut k: usize = 0;
    while k < nodes.len()
        invariant
            k <= nodes@.len(),
            forall|j: int| 0 <= j < nodes@.len() ==> #[trigger] nodes@[j] < times@.len(),
            forall|j: int| 0 <= j < sorted@.len() ==> #[trigger] sorted@[j] < times@.len(),
            sorted@.len() == k,
            indices(sorted@) == by_time(times@, indices(nodes@).take(k as int)),
        decreases nodes@.len() - k,
    {
        let x = nodes[k];
        let ghost run = indices(sorted@);
        let mut at: usize = sorted.len();
        assert(run.take(at as int) =~= run);
        while at > 0 && times[x].is_before(&times[sorted[at - 1]])
            invariant
                at <= sorted@.len(),
                x < times@.len(),
                run == indices(sorted@),
                forall|j: int| 0 <= j < sorted@.len() ==> #[trigger] sorted@[j] < times@.len(),
                insert_by_time(times@, run, x as int) == insert_by_time(
                    times@,
                    run.take(at as int),
                    x as int,
                ) + run.skip(at as int),
            decreases at,
        {
            assert(run.take(at as int).drop_last() =~= run.take(at - 1));
            at -= 1;
        }
        proof {
            assert(indices(nodes@).take(k + 1).drop_last() =~= indices(nodes@).take(k as int));
        }
        sorted.insert(at, x);
        k += 1;
    }
    assert(indices(nodes@).take(k as int) =~= indices(nodes@));
    sorted
}

/// Appends to `out` the nodes for `nodes` and all that descends from them.
fn emit_threads(
    records: &Vec<Message>,
    parents: &Vec<Option<usize>>,
    kids_of: &Vec<Vec<usize>>,
    times: &Vec<Timestamp>,
    nodes: &Vec<usize>,
    depth: usize,
    levels: usize,
    out: &mut Vec<HierarchicalMessage>,
)
    requires
        parents@.len() == records@.len(),
        times@.len() == records@.len(),
        kids_of@.len() == records@.len(),
        forall|j: int|
            0 <= j < kids_of@.len() ==> indices((#[trigger] kids_of@[j])@) == members(
                links(parents@),
                Some(j),
                parents@.len(),
            ),
        forall|j: int, k: int|
            0 <= j < kids_of@.len() && 0 <= k < kids_of@[j]@.len() ==> (#[trigger] kids_of@[j]@[k])
                < records@.len(),
        forall|k: int| 0 <= k < nodes@.len() ==> #[trigger] nodes@[k] < records@.len(),
        depth + levels <= usize::MAX,
    ensures
        final(out)@ == old(out)@ + nodes_for(
            records@,
            links(parents@),
            forest(links(parents@), times@, indices(nodes@), depth as nat, levels as nat),
        ),
    decreases levels,
{
    let ghost start = out@;
    let ghost model = links(parents@);
    let mut k: usize = 0;
    while k < nodes.len()
        invariant
            k <= nodes@.len(),
            parents@.len() == records@.len(),
            times@.len() == records@.len(),
            kids_of@.len() == records@.len(),
            forall|j: int|
                0 <= j < kids_of@.len() ==> indices((#[trigger] kids_of@[j])@) == members(
                    links(parents@),
                    Some(j),
                    parents@.len(),
                ),
            forall|j: int, k: int|
                0 <= j < kids_of@.len() && 0 <= k < kids_of@[j]@.len() ==> (
                #[trigger] kids_of@[j]@[k]) < records@.len(),
            model == links(parents@),
            forall|j: int| 0 <= j < nodes@.len() ==> #[trigger] nodes@[j] < records@.len(),
            depth + levels <= usize::MAX,
            out@ == start + nodes_for(
                records@,
                model,
                forest(model, times@, indices(nodes@).take(k as int), depth as nat, levels as nat),
            ),
        decreases nodes@.len() - k,
    {
        let node = nodes[k];
        let kids = &kids_of[node];
        let entry = HierarchicalMessage {
            message: records[node].clone(),
            is_initial: parents[node].is_none(),
            chain_depth: depth,
            has_continuation: kids.len() > 0,
        };
        proof {
            assert(indices(nodes@).take(k + 1).drop_last() =~= indices(nodes@).take(k as int));
        }
        out.push(entry);
        if levels > 0 {
            let sorted = sort_by_time(kids, times);
            emit_threads(records, parents, kids_of, times, &sorted, depth + 1, levels - 1, out);
        }
        k += 1;
    }
    assert(indices(nodes@).take(k as int) =~= indices(nodes@));
}

/// Orders `messages` for display: each message that starts a thread, oldest
/// first, followed at once by all that descends from it, depth first, the
/// children of each message oldest first. Each node says whether it starts a
/// thread, how deep it stands below the start of its thread, and whether any
/// message continues it.
///
/// A parent that is not among the messages is no parent: such a message
/// starts a thread. Messages of one timestamp keep the order in which they
/// came. A message that is its own ancestor belongs to no thread and is left
/// out.
pub fn build_message_hierarchy(messages: Vec<Message>) -> (nodes: Vec<HierarchicalMessage>)
    ensures
        nodes@ == hierarchy(messages@),
{
    let parents = resolve_parents(&messages);
    let times = collect_times(&messages);
    assert(links(parents@).len() == parents@.len());
    let starts = members_of(&parents, None);
    let sorted = sort_by_time(&starts, &times);
    let mut nodes: Vec<HierarchicalMessage> = Vec::new();
    let kids_of = children_lists(&parents);
    emit_threads(&messages, &parents, &kids_of, &times, &sorted, 0, messages.len(), &mut nodes);
    nodes
}

} // verus!
