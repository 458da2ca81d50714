use cocohibo::hierarchy::build_message_hierarchy;
use cocohibo::project::{HierarchicalMessage, Message, Timestamp};

fn record(uuid: &str, parent_uuid: Option<&str>, seconds: i64) -> Message {
    record_at(uuid, parent_uuid, seconds, 0)
}

fn record_at(uuid: &str, parent_uuid: Option<&str>, seconds: i64, nanos: u32) -> Message {
    Message {
        msg_type: "user".to_string(),
        message: None,
        timestamp: Timestamp::new(seconds, nanos),
        uuid: uuid.to_string(),
        parent_uuid: parent_uuid.map(|p| p.to_string()),
        is_sidechain: None,
        session_id: None,
        role: None,
        content: None,
        user_type: None,
        cwd: None,
        version: None,
        git_branch: None,
        is_meta: None,
        request_id: None,
        model: None,
        usage: None,
        stop_reason: None,
        stop_sequence: None,
    }
}

fn shape(nodes: &[HierarchicalMessage]) -> Vec<(String, bool, usize, bool)> {
    nodes
        .iter()
        .map(|n| (n.message.uuid.clone(), n.is_initial, n.chain_depth, n.has_continuation))
        .collect()
}

fn entry(uuid: &str, is_initial: bool, depth: usize, continues: bool) -> (String, bool, usize, bool) {
    (uuid.to_string(), is_initial, depth, continues)
}

#[test]
fn hierarchy_of_two_threads() {
    let nodes = build_message_hierarchy(vec![
        record("1", None, 1),
        record("2", Some("1"), 2),
        record("3", None, 3),
    ]);
    assert_eq!(
        shape(&nodes),
        vec![entry("1", true, 0, true), entry("2", false, 1, false), entry("3", true, 0, false)]
    );
}

#[test]
fn hierarchy_of_nothing_is_empty() {
    assert!(build_message_hierarchy(Vec::new()).is_empty());
}

#[test]
fn a_dangling_parent_makes_a_thread_start() {
    let nodes = build_message_hierarchy(vec![record("a", Some("nonexistent"), 5)]);
    assert_eq!(shape(&nodes), vec![entry("a", true, 0, false)]);
}

#[test]
fn a_dangling_parent_is_ordered_among_the_thread_starts() {
    let nodes = build_message_hierarchy(vec![
        record("late", None, 9),
        record("orphan", Some("gone"), 4),
        record("child", Some("orphan"), 6),
        record("early", None, 1),
    ]);
    assert_eq!(
        shape(&nodes),
        vec![
            entry("early", true, 0, false),
            entry("orphan", true, 0, true),
            entry("child", false, 1, false),
            entry("late", true, 0, false),
        ]
    );
}

#[test]
fn thread_starts_come_by_ascending_timestamp() {
    let nodes = build_message_hierarchy(vec![
        record("c", None, 30),
        record("a", None, 10),
        record("d", None, 40),
        record("b", None, 20),
    ]);
    let order: Vec<String> = nodes.iter().map(|n| n.message.uuid.clone()).collect();
    assert_eq!(order, vec!["a", "b", "c", "d"]);
}

#[test]
fn the_order_does_not_depend_on_the_order_of_the_input() {
    let forward = vec![
        record("root", None, 1),
        record("x", Some("root"), 2),
        record("y", Some("root"), 3),
        record("x1", Some("x"), 4),
        record("other", None, 5),
    ];
    let mut backward = forward.clone();
    backward.reverse();
    assert_eq!(shape(&build_message_hierarchy(forward)), shape(&build_message_hierarchy(backward)));
}

#[test]
fn siblings_come_by_ascending_timestamp() {
    let nodes = build_message_hierarchy(vec![
        record("k3", Some("p"), 30),
        record("k1", Some("p"), 10),
        record("p", None, 1),
        record("k2", Some("p"), 20),
    ]);
    assert_eq!(
        shape(&nodes),
        vec![
            entry("p", true, 0, true),
            entry("k1", false, 1, false),
            entry("k2", false, 1, false),
            entry("k3", false, 1, false),
        ]
    );
}

#[test]
fn nanoseconds_break_ties_of_seconds() {
    let nodes = build_message_hierarchy(vec![
        record_at("b", None, 7, 500),
        record_at("a", None, 7, 499),
        record_at("c", None, 6, 999_999_999),
    ]);
    let order: Vec<String> = nodes.iter().map(|n| n.message.uuid.clone()).collect();
    assert_eq!(order, vec!["c", "a", "b"]);
}

#[test]
fn equal_timestamps_keep_the_order_of_the_input() {
    let nodes = build_message_hierarchy(vec![
        record("second", None, 5),
        record("first", None, 5),
        record("third", None, 5),
        record("zero", None, 4),
    ]);
    let order: Vec<String> = nodes.iter().map(|n| n.message.uuid.clone()).collect();
    assert_eq!(order, vec!["zero", "second", "first", "third"]);
}

#[test]
fn negative_timestamps_come_first() {
    let nodes = build_message_hierarchy(vec![record("now", None, 0), record("before", None, -3)]);
    let order: Vec<String> = nodes.iter().map(|n| n.message.uuid.clone()).collect();
    assert_eq!(order, vec!["before", "now"]);
}

#[test]
fn descendants_follow_depth_first() {
    let nodes = build_message_hierarchy(vec![
        record("r1", None, 1),
        record("r2", None, 2),
        record("a", Some("r1"), 10),
        record("b", Some("r1"), 20),
        record("a1", Some("a"), 30),
        record("a2", Some("a"), 25),
        record("a1x", Some("a1"), 40),
        record("c", Some("r2"), 3),
    ]);
    assert_eq!(
        shape(&nodes),
        vec![
            entry("r1", true, 0, true),
            entry("a", false, 1, true),
            entry("a2", false, 2, false),
            entry("a1", false, 2, true),
            entry("a1x", false, 3, false),
            entry("b", false, 1, false),
            entry("r2", true, 0, true),
            entry("c", false, 1, false),
        ]
    );
}

#[test]
fn a_child_may_come_before_its_parent_in_the_input() {
    let nodes = build_message_hierarchy(vec![record("kid", Some("top"), 1), record("top", None, 2)]);
    assert_eq!(shape(&nodes), vec![entry("top", true, 0, true), entry("kid", false, 1, false)]);
}

#[test]
fn a_long_chain_counts_its_depth() {
    let mut records = vec![record("m0", None, 0)];
    for i in 1..50 {
        records.push(record(&format!("m{}", i), Some(&format!("m{}", i - 1)), i as i64));
    }
    let nodes = build_message_hierarchy(records);
    assert_eq!(nodes.len(), 50);
    for (i, node) in nodes.iter().enumerate() {
        assert_eq!(node.message.uuid, format!("m{}", i));
        assert_eq!(node.chain_depth, i);
        assert_eq!(node.is_initial, i == 0);
        assert_eq!(node.has_continuation, i < 49);
    }
}

#[test]
fn messages_that_are_their_own_ancestors_are_left_out() {
    let nodes = build_message_hierarchy(vec![
        record("x", Some("y"), 1),
        record("y", Some("x"), 2),
        record("self", Some("self"), 3),
        record("below", Some("x"), 4),
        record("free", None, 5),
    ]);
    assert_eq!(shape(&nodes), vec![entry("free", true, 0, false)]);
}

#[test]
fn the_nodes_carry_their_messages() {
    let mut first = record("1", None, 2);
    first.msg_type = "assistant".to_string();
    first.model = Some("m".to_string());
    first.content = Some(serde_json::Value::String("hello".to_string()));
    let nodes = build_message_hierarchy(vec![record("2", Some("1"), 1), first]);
    assert_eq!(nodes[0].message.msg_type, "assistant");
    assert_eq!(nodes[0].message.model, Some("m".to_string()));
    assert_eq!(nodes[0].message.content, Some(serde_json::Value::String("hello".to_string())));
    assert_eq!(nodes[0].message.timestamp, Timestamp::new(2, 0));
    assert_eq!(nodes[1].message.uuid, "2");
    assert_eq!(nodes[1].message.parent_uuid, Some("1".to_string()));
}

#[test]
fn a_new_node_has_no_continuation() {
    let node = HierarchicalMessage::new(record("n", None, 1), true, 0);
    assert!(node.is_initial);
    assert_eq!(node.chain_depth, 0);
    assert!(!node.has_continuation);
    let deep = HierarchicalMessage::new(record("d", Some("n"), 2), false, 3);
    assert!(!deep.is_initial);
    assert_eq!(deep.chain_depth, 3);
}

#[test]
fn timestamps_compare_by_seconds_then_nanoseconds() {
    assert!(Timestamp::new(1, 0).is_before(&Timestamp::new(2, 0)));
    assert!(Timestamp::new(1, 5).is_before(&Timestamp::new(1, 6)));
    assert!(!Timestamp::new(1, 5).is_before(&Timestamp::new(1, 5)));
    assert!(!Timestamp::new(2, 0).is_before(&Timestamp::new(1, 999)));
    assert!(Timestamp::new(-1, 999).is_before(&Timestamp::new(0, 0)));
}

#[test]
fn a_large_session_keeps_its_shape() {
    let mut records = Vec::new();
    for thread in 0..40 {
        let start = format!("t{}", thread);
        records.push(record(&start, None, 1_000 - thread as i64));
        let mut parent = start;
        for step in 0..100 {
            let id = format!("t{}s{}", thread, step);
            records.push(record(&id, Some(&parent), step as i64));
            parent = id;
        }
    }
    records.reverse();
    let nodes = build_message_hierarchy(records);
    assert_eq!(nodes.len(), 40 * 101);
    for (k, node) in nodes.iter().enumerate() {
        let thread = 39 - k / 101;
        let depth = k % 101;
        assert_eq!(node.chain_depth, depth);
        assert_eq!(node.is_initial, depth == 0);
        assert_eq!(node.has_continuation, depth < 100);
        if depth == 0 {
            assert_eq!(node.message.uuid, format!("t{}", thread));
        } else {
            assert_eq!(node.message.uuid, format!("t{}s{}", thread, depth - 1));
        }
    }
}

#[test]
fn every_record_below_a_thread_start_is_listed_once() {
    let records = vec![
        record("a", None, 3),
        record("b", Some("a"), 2),
        record("c", Some("b"), 1),
        record("d", Some("a"), 1),
        record("e", Some("missing"), 0),
        record("f", Some("e"), 9),
        record("loop1", Some("loop2"), 1),
        record("loop2", Some("loop1"), 1),
    ];
    let nodes = build_message_hierarchy(records);
    let mut listed: Vec<String> = nodes.iter().map(|n| n.message.uuid.clone()).collect();
    assert_eq!(listed, vec!["e", "f", "a", "d", "b", "c"]);
    listed.sort();
    listed.dedup();
    assert_eq!(listed.len(), 6);
}
