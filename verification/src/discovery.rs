//! What is done with the projects, chats and messages that were found on
//! disk before they are shown: projects and chats are ordered, the newest
//! first, and the lines of a chat file are taken as its messages.

use crate::hierarchy::{by_time, indices, sort_by_time};
use crate::hierarchy_laws::lemma_by_time;
use crate::project::{Chat, Message, Project, Timestamp};
use vstd::prelude::*;

verus! {

/// An instant mirrored at the epoch, so that the later of two instants
/// becomes the earlier.
pub open spec fn mirrored(instant: Timestamp) -> Timestamp {
    Timestamp {
        seconds: (-1 - instant.seconds) as i64,
        nanos: (u32::MAX - instant.nanos) as u32,
    }
}

/// The positions `0..n`.
pub open spec fn all_positions(n: nat) -> Seq<int> {
    Seq::new(n, |i: int| i)
}

/// The positions of `times` ordered by time, the newest first; positions of
/// one time keep their order.
pub open spec fn newest_first(times: Seq<Timestamp>) -> Seq<int> {
    by_time(times.map_values(|t: Timestamp| mirrored(t)), all_positions(times.len()))
}

/// The times at which projects were last modified.
pub open spec fn project_times(projects: Seq<Project>) -> Seq<Timestamp> {
    projects.map_values(|p: Project| p.last_modified)
}

/// The times at which chats were last modified.
pub open spec fn chat_times(chats: Seq<Chat>) -> Seq<Timestamp> {
    chats.map_values(|c: Chat| c.last_modified)
}

/// The items at the positions `order`.
pub open spec fn arranged<T>(items: Seq<T>, order: Seq<int>) -> Seq<T> {
    order.map_values(|i: int| items[i])
}

/// The lines that were read as messages, in their order.
pub open spec fn parsed_messages(lines: Seq<Option<Message>>) -> Seq<Message>
    decreases lines.len(),
{
    if lines.len() == 0 {
        Seq::empty()
    } else {
        match lines.last() {
            Some(message) => parsed_messages(lines.drop_last()).push(message),
            None => parsed_messages(lines.drop_last()),
        }
    }
}

/// The number of lines that could not be read as a message.
pub open spec fn malformed_lines(lines: Seq<Option<Message>>) -> nat
    decreases lines.len(),
{
    if lines.len() == 0 {
        0
    } else {
        malformed_lines(lines.drop_last()) + (if lines.last() is None {
            1nat
        } else {
            0nat
        })
    }
}

/// Ordering the newest first yields every position once, and no position
/// comes before one that is newer.
pub proof fn lemma_newest_first(times: Seq<Timestamp>)
    ensures
        newest_first(times).len() == times.len(),
        forall|i: int| 0 <= i < times.len() ==> newest_first(times).contains(i),
        forall|k: int|
            0 <= k < newest_first(times).len() ==> 0 <= #[trigger] newest_first(times)[k]
                < times.len(),
        forall|a: int, b: int|
            0 <= a < b < newest_first(times).len() ==> !times[#[trigger] newest_first(
                times,
            )[a]].before(times[#[trigger] newest_first(times)[b]]),
{
    let keys = times.map_values(|t: Timestamp| mirrored(t));
    let all = all_positions(times.len());
    let order = newest_first(times);
    lemma_by_time(keys, all);
    assert forall|i: int| 0 <= i < times.len() implies order.contains(i) by {
        assert(all[i] == i);
        assert(all.contains(i));
    }
    assert forall|k: int| 0 <= k < order.len() implies 0 <= #[trigger] order[k] < times.len() by {
        assert(order.contains(order[k]));
        assert(all.contains(order[k]));
    }
    assert forall|a: int, b: int| 0 <= a < b < order.len() implies !times[#[trigger] order[a]]
        .before(times[#[trigger] order[b]]) by {
        assert(keys[order[a]].at_most(keys[order[b]]));
        assert(0 <= order[a] < times.len());
        assert(0 <= order[b] < times.len());
        assert(keys[order[a]] == mirrored(times[order[a]]));
        assert(keys[order[b]] == mirrored(times[order[b]]));
    }
}

/// The positions of `times` ordered by time, the newest first.
fn newest_first_order(times: &Vec<Timestamp>) -> (order: Vec<usize>)
    ensures
        indices(order@) == newest_first(times@),
        order@.len() == times@.len(),
        forall|k: int| 0 <= k < order@.len() ==> #[trigger] order@[k] < times@.len(),
{
    let mut keys: Vec<Timestamp> = Vec::new();
    let mut all: Vec<usize> = Vec::new();
    let mut i: usize = 0;
    while i < times.len()
        invariant
            i <= times@.len(),
            keys@.len() == i,
            all@.len() == i,
            forall|k: int| 0 <= k < i ==> #[trigger] keys@[k] == mirrored(times@[k]),
            forall|k: int| 0 <= k < i ==> #[trigger] all@[k] == k,
        decreases times@.len() - i,
    {
        let instant = times[i];
        keys.push(Timestamp::new(-1 - instant.seconds, u32::MAX - instant.nanos));
        all.push(i);
        i += 1;
    }
    assert(keys@ =~= times@.map_values(|t: Timestamp| mirrored(t)));
    assert(indices(all@) =~= all_positions(times@.len()));
    sort_by_time(&all, &keys)
}

/// Orders the projects that were found, the one that was modified last
/// first; projects of one time keep their order.
pub fn discover_projects(found: Vec<Project>) -> (projects: Vec<Project>)
    ensures
        projects@ == arranged(found@, newest_first(project_times(found@))),
{
    let mut times: Vec<Timestamp> = Vec::new();
    let mut i: usize = 0;
    while i < found.len()
        invariant
            i <= found@.len(),
            times@.len() == i,
            forall|k: int| 0 <= k < i ==> #[trigger] times@[k] == found@[k].last_modified,
        decreases found@.len() - i,
    {
        times.push(found[i].last_modified);
        i += 1;
    }
    assert(times@ =~= project_times(found@));
    let order = newest_first_order(&times);
    let mut projects: Vec<Project> = Vec::new();
    let mut k: usize = 0;
    while k < order.len()
        invariant
            k <= order@.len(),
            projects@.len() == k,
            forall|j: int| 0 <= j < order@.len() ==> #[trigger] order@[j] < found@.len(),
            forall|j: int| 0 <= j < k ==> #[trigger] projects@[j] == found@[order@[j] as int],
        decreases order@.len() - k,
    {
        projects.push(found[order[k]].clone());
        k += 1;
    }
    projects
}

/// Orders the chats that were found, the one that was modified last first;
/// chats of one time keep their order.
pub fn discover_chats(found: Vec<Chat>) -> (chats: Vec<Chat>)
    ensures
        chats@ == arranged(found@, newest_first(chat_times(found@))),
{
    let mut times: Vec<Timestamp> = Vec::new();
    let mut i: usize = 0;
    while i < found.len()
        invariant
            i <= found@.len(),
            times@.len() == i,
            forall|k: int| 0 <= k < i ==> #[trigger] times@[k] == found@[k].last_modified,
        decreases found@.len() - i,
    {
        times.push(found[i].last_modified);
        i += 1;
    }
    assert(times@ =~= chat_times(found@));
    let order = newest_first_order(&times);
    let mut chats: Vec<Chat> = Vec::new();
    let mut k: usize = 0;
    while k < order.len()
        invariant
            k <= order@.len(),
            chats@.len() == k,
            forall|j: int| 0 <= j < order@.len() ==> #[trigger] order@[j] < found@.len(),
            forall|j: int| 0 <= j < k ==> #[trigger] chats@[j] == found@[order@[j] as int],
        decreases order@.len() - k,
    {
        chats.push(found[order[k]].clone());
        k += 1;
    }
    chats
}

/// Takes the lines of a chat file as its messages. Each entry of `lines`
/// stands for one line that is not blank: the message that was read from it,
/// or nothing where the line is malformed. Malformed lines are skipped. Only
/// where no line could be read and at least one is malformed, the file is
/// refused, with the number of its malformed lines.
pub fn load_messages(lines: Vec<Option<Message>>) -> (loaded: Result<Vec<Message>, usize>)
    ensures
        match loaded {
            Ok(messages) => {
                &&& messages@ == parsed_messages(lines@)
                &&& (messages@.len() > 0 || malformed_lines(lines@) == 0)
            },
            Err(count) => {
                &&& parsed_messages(lines@).len() == 0
                &&& count == malformed_lines(lines@)
                &&& count > 0
            },
        },
{
    let mut messages: Vec<Message> = Vec::new();
    let mut error_count: usize = 0;
    let mut i: usize = 0;
    while i < lines.len()
        invariant
            i <= lines@.len(),
            messages@ == parsed_messages(lines@.take(i as int)),
            error_count == malformed_lines(lines@.take(i as int)),
            error_count <= i,
        decreases lines@.len() - i,
    {
        assert(lines@.take(i + 1).drop_last() =~= lines@.take(i as int));
        match &lines[i] {
            Some(message) => {
                messages.push(message.clone());
            },
            None => {
                error_count += 1;
            },
        }
        i += 1;
    }
    assert(lines@.take(i as int) =~= lines@);
    if messages.len() == 0 && error_count > 0 {
        Err(error_count)
    } else {
        Ok(messages)
    }
}

} // verus!
