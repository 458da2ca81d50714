use cocohibo::details::{message_details, DetailLine, CONTENT_LINES};
use cocohibo::discovery::{discover_chats, discover_projects, load_messages};
use cocohibo::project::{Chat, HierarchicalMessage, Message, MessageInner, Project, Timestamp, Usage};
use cocohibo::text::{chars_of, split_lines};

fn project(name: &str, seconds: i64, nanos: u32) -> Project {
    Project { name: name.to_string(), last_modified: Timestamp::new(seconds, nanos), chat_count: 0 }
}

fn chat(name: &str, seconds: i64) -> Chat {
    Chat { name: name.to_string(), last_modified: Timestamp::new(seconds, 0), message_count: 0 }
}

fn record(uuid: &str) -> Message {
    Message {
        msg_type: "user".to_string(),
        message: None,
        timestamp: Timestamp::new(0, 0),
        uuid: uuid.to_string(),
        parent_uuid: None,
        is_sidechain: None,
        session_id: None,
        role: None,
        content: None,
        user_type: None,
        cwd: None,
        version: None,
        git_branch: None,
        is_meta: None,
        request_id: None,
        model: None,
        usage: None,
        stop_reason: None,
        stop_sequence: None,
    }
}

fn plain(text: &str) -> DetailLine {
    DetailLine { text: text.to_string(), bold: false }
}

fn heading(text: &str) -> DetailLine {
    DetailLine { text: text.to_string(), bold: true }
}

#[test]
fn projects_come_newest_first() {
    let projects = discover_projects(vec![
        project("old", 10, 0),
        project("new", 30, 0),
        project("newest", 30, 1),
        project("middle", 20, 0),
        project("ancient", -5, 0),
    ]);
    let names: Vec<String> = projects.iter().map(|p| p.name.clone()).collect();
    assert_eq!(names, vec!["newest", "new", "middle", "old", "ancient"]);
}

#[test]
fn projects_of_one_time_keep_their_order() {
    let projects = discover_projects(vec![
        project("a", 5, 0),
        project("b", 7, 0),
        project("c", 5, 0),
        project("d", 7, 0),
        project("e", 5, 0),
    ]);
    let names: Vec<String> = projects.iter().map(|p| p.name.clone()).collect();
    assert_eq!(names, vec!["b", "d", "a", "c", "e"]);
}

#[test]
fn the_extremes_of_time_can_be_ordered() {
    let projects = discover_projects(vec![
        project("first", i64::MIN, 0),
        project("last", i64::MAX, u32::MAX),
        project("zero", 0, 0),
    ]);
    let names: Vec<String> = projects.iter().map(|p| p.name.clone()).collect();
    assert_eq!(names, vec!["last", "zero", "first"]);
    assert!(discover_projects(Vec::new()).is_empty());
}

#[test]
fn chats_come_newest_first() {
    let chats = discover_chats(vec![chat("a", 1), chat("b", 3), chat("c", 2), chat("d", 3)]);
    let names: Vec<String> = chats.iter().map(|c| c.name.clone()).collect();
    assert_eq!(names, vec!["b", "d", "c", "a"]);
    assert_eq!(chats[0].last_modified, Timestamp::new(3, 0));
    assert!(discover_chats(Vec::new()).is_empty());
}

#[test]
fn malformed_lines_are_skipped() {
    let loaded = load_messages(vec![Some(record("a")), None, Some(record("b")), None]);
    let uuids: Vec<String> = loaded.unwrap().iter().map(|m| m.uuid.clone()).collect();
    assert_eq!(uuids, vec!["a", "b"]);
}

#[test]
fn a_file_without_lines_has_no_messages() {
    assert!(load_messages(Vec::new()).unwrap().is_empty());
}

#[test]
fn a_file_of_malformed_lines_only_is_refused() {
    assert_eq!(load_messages(vec![None]).err(), Some(1));
    assert_eq!(load_messages(vec![None, None, None]).err(), Some(3));
}

#[test]
fn chars_of_lists_the_characters() {
    assert_eq!(chars_of(""), Vec::<char>::new());
    assert_eq!(chars_of("aé日"), vec!['a', 'é', '日']);
}

#[test]
fn split_lines_splits_at_line_feeds() {
    assert_eq!(split_lines(""), Vec::<String>::new());
    assert_eq!(split_lines("abc"), vec!["abc"]);
    assert_eq!(split_lines("abc\ndef"), vec!["abc", "def"]);
    assert_eq!(split_lines("abc\ndef\n"), vec!["abc", "def"]);
    assert_eq!(split_lines("\n"), vec![""]);
    assert_eq!(split_lines("\n\n"), vec!["", ""]);
    assert_eq!(split_lines("a\n\nb"), vec!["a", "", "b"]);
    assert_eq!(split_lines("日本\n語"), vec!["日本", "語"]);
}

#[test]
fn split_lines_drops_the_return_before_a_line_feed() {
    assert_eq!(split_lines("abc\r\ndef"), vec!["abc", "def"]);
    assert_eq!(split_lines("abc\r\n"), vec!["abc"]);
    assert_eq!(split_lines("a\rb\nc"), vec!["a\rb", "c"]);
    assert_eq!(split_lines("abc\r"), vec!["abc\r"]);
    assert_eq!(split_lines("\r\n"), vec![""]);
    assert_eq!(split_lines("a\r\r\nb"), vec!["a\r", "b"]);
}

#[test]
fn split_lines_agrees_with_the_standard_library() {
    for text in ["", "a", "a\n", "\na", "a\r\nb\r\n\r\nc", "\r", "\r\r\n\n", "x\ny\rz\r\n", "end\r"] {
        let expected: Vec<String> = text.lines().map(|l| l.to_string()).collect();
        assert_eq!(split_lines(text), expected);
    }
}

#[test]
fn details_of_a_thread_start() {
    let mut message = record("abc");
    message.content = Some(serde_json::Value::String("Hello\nworld".to_string()));
    let node = HierarchicalMessage::new(message, true, 0);
    assert_eq!(
        message_details(&node, "2024-01-02 03:04:05"),
        vec![
            heading("Message Details"),
            plain(""),
            plain("UUID: abc"),
            plain("Time: 2024-01-02 03:04:05"),
            plain("Type: user"),
            plain("Role: user"),
            plain("Status: Initial message"),
            plain(""),
            heading("Content:"),
            plain("Hello"),
            plain("world"),
        ]
    );
}

#[test]
fn details_of_a_reply_with_everything() {
    let mut message = record("reply");
    message.msg_type = "assistant".to_string();
    message.parent_uuid = Some("0123456789012345678901234567890123456789".to_string());
    message.message = Some(MessageInner {
        role: "assistant".to_string(),
        content: serde_json::Value::String("answer".to_string()),
    });
    message.user_type = Some("external".to_string());
    message.cwd = Some("/work".to_string());
    message.version = Some("1.2.3".to_string());
    message.git_branch = Some("main".to_string());
    message.is_meta = Some(false);
    message.model = Some("big".to_string());
    message.request_id = Some("req_0123456789012345678901234567890".to_string());
    message.stop_reason = Some("end_turn".to_string());
    message.usage = Some(Usage {
        input_tokens: Some(10),
        output_tokens: Some(200),
        cache_creation_input_tokens: Some(0),
        cache_read_input_tokens: Some(4000),
        service_tier: Some("standard".to_string()),
    });
    let node = HierarchicalMessage::new(message, false, 12);
    assert_eq!(
        message_details(&node, "now"),
        vec![
            heading("Message Details"),
            plain(""),
            plain("UUID: reply"),
            plain("Time: now"),
            plain("Type: assistant"),
            plain("Role: assistant"),
            plain("Depth: 12 (chain message)"),
            plain("Parent: 012345678901234567890123456789012..."),
            plain(""),
            heading("Metadata:"),
            plain("User Type: external"),
            plain("Working Dir: /work"),
            plain("Version: 1.2.3"),
            plain("Git Branch: main"),
            plain("Meta: false"),
            plain(""),
            heading("Assistant Info:"),
            plain("Model: big"),
            plain("Request ID: req_01234567890123456789012..."),
            plain("Stop Reason: end_turn"),
            plain("Token Usage:"),
            plain("  Input: 10"),
            plain("  Output: 200"),
            plain("  Cache Create: 0"),
            plain("  Cache Read: 4000"),
            plain("  Service Tier: standard"),
            plain(""),
            heading("Content:"),
            plain("answer"),
        ]
    );
}

#[test]
fn details_show_sections_only_where_there_is_something_to_show() {
    let mut message = record("m");
    message.git_branch = Some("main".to_string());
    message.is_meta = Some(true);
    message.request_id = Some("r".to_string());
    message.stop_reason = Some("s".to_string());
    let node = HierarchicalMessage::new(message.clone(), true, 0);
    let lines = message_details(&node, "t");
    assert!(!lines.contains(&heading("Metadata:")));
    assert!(!lines.contains(&heading("Assistant Info:")));
    assert_eq!(lines.last(), Some(&plain("[user]")));

    message.cwd = Some("/w".to_string());
    message.usage = Some(Usage {
        input_tokens: None,
        output_tokens: Some(u32::MAX),
        cache_creation_input_tokens: None,
        cache_read_input_tokens: None,
        service_tier: None,
    });
    let node = HierarchicalMessage::new(message, true, 0);
    let lines = message_details(&node, "t");
    assert_eq!(
        lines[8..].to_vec(),
        vec![
            heading("Metadata:"),
            plain("Working Dir: /w"),
            plain("Git Branch: main"),
            plain("Meta: true"),
            plain(""),
            heading("Assistant Info:"),
            plain("Request ID: r"),
            plain("Stop Reason: s"),
            plain("Token Usage:"),
            plain("  Output: 4294967295"),
            plain(""),
            heading("Content:"),
            plain("[user]"),
        ]
    );
}

#[test]
fn details_show_fifty_lines_of_content_at_most() {
    let long: Vec<String> = (0..80).map(|i| format!("line {}", i)).collect();
    let mut message = record("m");
    message.content = Some(serde_json::Value::String(long.join("\n")));
    let node = HierarchicalMessage::new(message, true, 0);
    let lines = message_details(&node, "t");
    assert_eq!(CONTENT_LINES, 50);
    assert_eq!(lines.len(), 9 + 50);
    assert_eq!(lines[9], plain("line 0"));
    assert_eq!(lines[58], plain("line 49"));
}
