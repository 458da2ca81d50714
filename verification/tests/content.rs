use cocohibo::project::{HierarchicalMessage, Message, MessageInner, Timestamp, Usage};
use cocohibo::ui::message_line;
use serde_json::Value;

fn bare(msg_type: &str) -> Message {
    Message {
        msg_type: msg_type.to_string(),
        message: None,
        timestamp: Timestamp::new(0, 0),
        uuid: "id".to_string(),
        parent_uuid: None,
        is_sidechain: None,
        session_id: None,
        role: None,
        content: None,
        user_type: None,
        cwd: None,
        version: None,
        git_branch: None,
        is_meta: None,
        request_id: None,
        model: None,
        usage: None,
        stop_reason: None,
        stop_sequence: None,
    }
}

fn with_content(msg_type: &str, content: Value) -> Message {
    let mut message = bare(msg_type);
    message.content = Some(content);
    message
}

fn text(s: &str) -> Value {
    Value::String(s.to_string())
}

fn object(members: &[(&str, Value)]) -> Value {
    let mut map = serde_json::Map::new();
    for (key, value) in members {
        map.insert(key.to_string(), value.clone());
    }
    Value::Object(map)
}

fn blocks() -> Value {
    Value::Array(vec![
        object(&[("type", text("text")), ("text", text("Hello"))]),
        object(&[
            ("type", text("tool_use")),
            ("name", text("Read")),
            ("input", object(&[("path", text("a"))])),
        ]),
        object(&[("type", text("thinking")), ("thinking", text("hmm"))]),
        object(&[("type", text("tool_result")), ("content", text("done"))]),
    ])
}

#[test]
fn a_string_is_its_own_text() {
    let message = with_content("user", text("Hello world"));
    assert_eq!(message.get_content_text(), "Hello world");
    assert_eq!(message.get_detailed_content(), "Hello world");
}

#[test]
fn an_empty_string_is_an_empty_text() {
    let message = with_content("user", text(""));
    assert_eq!(message.get_content_text(), "");
    assert_eq!(message.get_detailed_content(), "");
}

#[test]
fn missing_content_is_named_by_the_type() {
    let message = bare("summary");
    assert_eq!(message.get_content_text(), "[summary]");
    assert_eq!(message.get_detailed_content(), "[summary]");
}

#[test]
fn the_nested_body_comes_before_the_own_content() {
    let mut message = with_content("user", text("outer"));
    message.message = Some(MessageInner { role: "assistant".to_string(), content: text("inner") });
    assert_eq!(message.get_content_text(), "inner");
    assert_eq!(message.get_detailed_content(), "inner");
}

#[test]
fn content_blocks_are_summed_up_in_one_line() {
    let message = with_content("assistant", blocks());
    assert_eq!(
        message.get_content_text(),
        "Hello [tool: Read] [thinking: hmm...] [tool result: done]"
    );
}

#[test]
fn content_blocks_are_shown_in_full() {
    let message = with_content("assistant", blocks());
    assert_eq!(
        message.get_detailed_content(),
        "Hello\n\n[Tool: Read]\nParameters:\n{\n  \"path\": \"a\"\n}\n\n[Thinking]\nhmm\n\n[Tool Result]\ndone"
    );
}

#[test]
fn blocks_without_a_kind_fall_back_to_their_members() {
    let message = with_content(
        "user",
        Value::Array(vec![
            object(&[("text", text("a"))]),
            object(&[("content", text("b"))]),
            object(&[("thinking", text("c"))]),
            object(&[("other", text("d"))]),
            object(&[("text", Value::Bool(true)), ("content", text("hidden"))]),
        ]),
    );
    assert_eq!(message.get_content_text(), "a b [thinking: c]");
    assert_eq!(message.get_detailed_content(), "[user content]");
}

#[test]
fn blocks_of_unknown_kind_are_left_out() {
    let message = with_content(
        "user",
        Value::Array(vec![
            object(&[("type", text("image")), ("text", text("a"))]),
            object(&[("type", Value::Bool(true)), ("text", text("b"))]),
            object(&[("type", text("text"))]),
            object(&[("type", text("text")), ("text", Value::Null)]),
            text("plain"),
            Value::Null,
        ]),
    );
    assert_eq!(message.get_content_text(), "[user content]");
    assert_eq!(message.get_detailed_content(), "[user content]");
}

#[test]
fn an_empty_array_is_named_by_the_type() {
    let message = with_content("assistant", Value::Array(Vec::new()));
    assert_eq!(message.get_content_text(), "[assistant content]");
    assert_eq!(message.get_detailed_content(), "[assistant content]");
}

#[test]
fn an_empty_block_text_still_parts_its_neighbours() {
    let message = with_content(
        "user",
        Value::Array(vec![
            object(&[("type", text("text")), ("text", text("a"))]),
            object(&[("type", text("text")), ("text", text(""))]),
            object(&[("type", text("text")), ("text", text("b"))]),
        ]),
    );
    assert_eq!(message.get_content_text(), "a  b");
    assert_eq!(message.get_detailed_content(), "a\n\n\n\nb");
}

#[test]
fn long_blocks_are_shortened_in_the_summary() {
    let long: String = "x".repeat(1200);
    let thought: String = "t".repeat(60);
    let result: String = "r".repeat(250);
    let message = with_content(
        "assistant",
        Value::Array(vec![
            object(&[("type", text("text")), ("text", text(&long))]),
            object(&[("type", text("thinking")), ("thinking", text(&thought))]),
            object(&[("type", text("tool_result")), ("content", text(&result))]),
        ]),
    );
    let expected = format!(
        "{} [thinking: {}...] [tool result: {}]",
        "x".repeat(1000),
        "t".repeat(50),
        "r".repeat(200)
    );
    assert_eq!(message.get_content_text(), expected);
    let detailed = format!("{}\n\n[Thinking]\n{}\n\n[Tool Result]\n{}", long, thought, result);
    assert_eq!(message.get_detailed_content(), detailed);
}

#[test]
fn a_tool_use_without_name_or_input_still_takes_its_place() {
    let message = with_content(
        "assistant",
        Value::Array(vec![
            object(&[("type", text("text")), ("text", text("a"))]),
            object(&[("type", text("tool_use"))]),
            object(&[("type", text("text")), ("text", text("b"))]),
        ]),
    );
    assert_eq!(message.get_content_text(), "a b");
    assert_eq!(message.get_detailed_content(), "a\n\n\n\nb");
}

#[test]
fn a_tool_use_shows_its_parameters_as_indented_json() {
    let input = object(&[("command", text("ls")), ("count", Value::from(2))]);
    let message = with_content(
        "assistant",
        Value::Array(vec![object(&[
            ("type", text("tool_use")),
            ("name", text("Bash")),
            ("input", input.clone()),
        ])]),
    );
    let expected =
        format!("[Tool: Bash]\nParameters:\n{}", serde_json::to_string_pretty(&input).unwrap());
    assert_eq!(message.get_detailed_content(), expected);
    assert_eq!(
        message.get_detailed_content(),
        "[Tool: Bash]\nParameters:\n{\n  \"command\": \"ls\",\n  \"count\": 2\n}"
    );
    assert_eq!(message.get_content_text(), "[tool: Bash]");
}

#[test]
fn other_content_is_shown_as_it_is_in_brackets() {
    assert_eq!(with_content("user", Value::from(42)).get_content_text(), "[user: Number(42)]");
    assert_eq!(with_content("user", Value::Bool(true)).get_content_text(), "[user: Bool(true)]");
    assert_eq!(with_content("user", Value::Null).get_content_text(), "[user: Null]");
    let nested = object(&[("k", text("v"))]);
    assert_eq!(
        with_content("user", nested.clone()).get_content_text(),
        "[user: Object {\"k\": String(\"v\")}]"
    );
    assert_eq!(
        with_content("user", nested).get_detailed_content(),
        "[user: Object {\"k\": String(\"v\")}]"
    );
}

#[test]
fn other_content_is_shortened_in_the_summary_only() {
    let big = object(&[("key", text(&"v".repeat(300)))]);
    let shown = format!("{:?}", big);
    let short: String = shown.chars().take(100).collect();
    let message = with_content("user", big);
    assert_eq!(message.get_content_text(), format!("[user: {}]", short));
    assert_eq!(message.get_detailed_content(), format!("[user: {}]", shown));
}

#[test]
fn the_role_comes_from_the_nested_body_first() {
    let mut message = bare("user");
    assert_eq!(message.get_role(), "user");
    message.role = Some("system".to_string());
    assert_eq!(message.get_role(), "system");
    message.message = Some(MessageInner { role: "assistant".to_string(), content: Value::Null });
    assert_eq!(message.get_role(), "assistant");
}

#[test]
fn an_empty_role_gives_way_to_the_type() {
    let mut message = bare("user");
    message.role = Some(String::new());
    assert_eq!(message.get_role(), "user");
    message.role = Some("system".to_string());
    message.message = Some(MessageInner { role: String::new(), content: Value::Null });
    assert_eq!(message.get_role(), "user");
}

#[test]
fn clones_equal_their_originals() {
    let mut message = with_content("assistant", blocks());
    message.usage = Some(Usage {
        input_tokens: Some(1),
        output_tokens: Some(2),
        cache_creation_input_tokens: None,
        cache_read_input_tokens: Some(3),
        service_tier: Some("standard".to_string()),
    });
    message.model = Some("model".to_string());
    message.message = Some(MessageInner { role: "assistant".to_string(), content: blocks() });
    let copy = message.clone();
    assert_eq!(format!("{:?}", copy), format!("{:?}", message));
    let node = HierarchicalMessage::new(message, false, 2);
    let twin = node.clone();
    assert_eq!(format!("{:?}", twin), format!("{:?}", node));
}

#[test]
fn the_line_of_a_thread_start_has_no_prefix() {
    let node = HierarchicalMessage::new(with_content("user", text("Hello")), true, 0);
    assert_eq!(message_line(1, &node, 80), "1   U Hello");
    assert_eq!(message_line(1, &node, 80), format!("{:<3} {} {}{}{}", 1, "U", "", "", "Hello"));
    assert_eq!(message_line(1234, &node, 80), "1234 U Hello");
}

#[test]
fn the_line_of_a_reply_shows_a_connector() {
    let mut node = HierarchicalMessage::new(with_content("assistant", text("Hi")), false, 1);
    assert_eq!(message_line(2, &node, 80), "2   A   └─Hi");
    node.has_continuation = true;
    assert_eq!(message_line(12, &node, 80), "12  A   ├─Hi");
}

#[test]
fn the_line_cuts_the_content_to_the_width() {
    let start = HierarchicalMessage::new(with_content("user", text("Hello wonderful world")), true, 0);
    assert_eq!(message_line(1, &start, 18), "1   U Hello w...");
    assert_eq!(message_line(1, &start, 8), "1   U ");
    assert_eq!(message_line(1, &start, 10), "1   U ..");
    let reply =
        HierarchicalMessage::new(with_content("system", text("Hello wonderful world")), false, 1);
    assert_eq!(message_line(3, &reply, 26), "3   S   └─Hello w...");
    assert_eq!(message_line(3, &reply, 16), "3   S   └─");
    assert_eq!(message_line(3, &reply, 200), "3   S   └─Hello wonderful world");
}

#[test]
fn the_line_marks_messages_of_hooks() {
    let mut message = with_content("progress", text("PostToolUse ran"));
    let node = HierarchicalMessage::new(message.clone(), true, 0);
    assert_eq!(message_line(5, &node, 80), "5   H PostToolUse ran");
    message.content = Some(text("quiet"));
    let node = HierarchicalMessage::new(message, true, 0);
    assert_eq!(message_line(5, &node, 80), "5   ? quiet");
}
