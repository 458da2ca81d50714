use std::path::PathBuf;

use cocohibo::app::{App, Screen};
use cocohibo::project::{Chat, HierarchicalMessage, Message, Project, Timestamp};

fn now() -> Timestamp {
    let instant = chrono::Utc::now();
    Timestamp::new(instant.timestamp(), instant.timestamp_subsec_nanos())
}

fn project(name: &str, chat_count: usize) -> Project {
    Project { name: name.to_string(), last_modified: now(), chat_count }
}

fn chat(name: &str, message_count: usize) -> Chat {
    Chat { name: name.to_string(), last_modified: now(), message_count }
}

fn message(
    msg_type: &str,
    uuid: &str,
    parent_uuid: Option<&str>,
    content: Option<&str>,
) -> Message {
    Message {
        msg_type: msg_type.to_string(),
        message: None,
        timestamp: now(),
        uuid: uuid.to_string(),
        parent_uuid: parent_uuid.map(|p| p.to_string()),
        is_sidechain: None,
        session_id: None,
        role: None,
        content: content.map(|c| serde_json::Value::String(c.to_string())),
        user_type: None,
        cwd: None,
        version: None,
        git_branch: None,
        is_meta: None,
        request_id: None,
        model: None,
        usage: None,
        stop_reason: None,
        stop_sequence: None,
    }
}

fn three_messages(first: Option<&str>, second: Option<&str>, third: Option<&str>) -> Vec<HierarchicalMessage> {
    vec![
        HierarchicalMessage::new(message("user", "msg1", None, first), true, 0),
        HierarchicalMessage::new(message("assistant", "msg2", Some("msg1"), second), false, 1),
        HierarchicalMessage::new(message("user", "msg3", None, third), true, 0),
    ]
}

#[test]
fn smoke_test() {
    assert_eq!(2 + 2, 4);
}

#[test]
fn test_go_to_top_empty_lists() {
    let mut app = App::new(PathBuf::from("/tmp"), false);
    app.go_to_top();
    assert_eq!(app.projects.selected(), None);
}

#[test]
fn test_go_to_top_projects() {
    let mut app = App::new(PathBuf::from("/tmp"), false);
    app.projects.items = vec![project("project1", 1), project("project2", 1), project("project3", 1)];
    app.projects.select(Some(2));
    app.projects.set_offset(1);

    app.go_to_top();

    assert_eq!(app.projects.selected(), Some(0));
    assert_eq!(app.projects.offset(), 0);
}

#[test]
fn test_go_to_bottom_projects() {
    let mut app = App::new(PathBuf::from("/tmp"), false);
    app.projects.items = vec![project("project1", 1), project("project2", 1), project("project3", 1)];
    app.projects.select(Some(0));

    app.go_to_bottom();

    assert_eq!(app.projects.selected(), Some(2));
}

#[test]
fn test_select_middle_of_screen() {
    let mut app = App::new(PathBuf::from("/tmp"), false);
    app.projects.items = (0..10).map(|i| project(&format!("project{}", i), 1)).collect();
    app.projects.select(Some(0));
    app.projects.set_offset(2);

    app.select_middle_of_screen(4);

    assert_eq!(app.projects.selected(), Some(4));
    assert_eq!(app.projects.offset(), 2);
}

#[test]
fn test_select_top_of_screen() {
    let mut app = App::new(PathBuf::from("/tmp"), false);
    app.projects.items = (0..10).map(|i| project(&format!("project{}", i), 1)).collect();
    app.projects.select(Some(5));
    app.projects.set_offset(2);

    app.select_top_of_screen();

    assert_eq!(app.projects.selected(), Some(2));
    assert_eq!(app.projects.offset(), 2);
}

#[test]
fn test_select_bottom_of_screen() {
    let mut app = App::new(PathBuf::from("/tmp"), false);
    app.projects.items = (0..10).map(|i| project(&format!("project{}", i), 1)).collect();
    app.projects.select(Some(2));
    app.projects.set_offset(2);

    app.select_bottom_of_screen(4);

    assert_eq!(app.projects.selected(), Some(5));
    assert_eq!(app.projects.offset(), 2);
}

#[test]
fn test_initial_message_navigation() {
    let mut app = App::new(PathBuf::from("/tmp"), false);
    app.screen = Screen::Messages;

    app.messages.items = three_messages(None, None, None);

    // Start at the first message.
    app.messages.select(Some(0));

    app.go_to_next_initial_message();
    assert_eq!(app.messages.selected(), Some(2));

    app.go_to_previous_initial_message();
    assert_eq!(app.messages.selected(), Some(0));

    // From a message that starts no thread.
    app.messages.select(Some(1));
    app.go_to_next_initial_message();
    assert_eq!(app.messages.selected(), Some(2));
}

#[test]
fn test_search_functionality() {
    let mut app = App::new(PathBuf::from("/tmp"), false);

    app.projects.items = vec![
        project("test-project", 1),
        project("another-project", 1),
        project("debug-session", 1),
    ];

    assert!(!app.search_mode);
    assert_eq!(app.search_query, "");
    assert_eq!(app.projects.active_items().len(), 3);
    assert!(!app.projects.is_filtered());

    app.enter_search_mode();
    assert!(app.search_mode);
    assert_eq!(app.search_query, "");
    assert_eq!(app.projects.active_items().len(), 3);

    app.add_to_search_query('t');
    app.add_to_search_query('e');
    app.add_to_search_query('s');
    app.add_to_search_query('t');
    assert_eq!(app.search_query, "test");
    assert_eq!(app.projects.active_items().len(), 1);
    assert_eq!(app.projects.active_items()[0].name, "test-project");
    assert!(app.projects.is_filtered());

    app.remove_from_search_query();
    assert_eq!(app.search_query, "tes");
    assert_eq!(app.projects.active_items().len(), 1);

    app.remove_from_search_query();
    app.remove_from_search_query();
    app.remove_from_search_query();
    assert_eq!(app.search_query, "");
    assert_eq!(app.projects.active_items().len(), 3);

    app.add_to_search_query('d');
    app.add_to_search_query('e');
    app.add_to_search_query('b');
    app.add_to_search_query('u');
    app.add_to_search_query('g');
    assert_eq!(app.search_query, "debug");
    assert_eq!(app.projects.active_items().len(), 1);
    assert_eq!(app.projects.active_items()[0].name, "debug-session");

    app.exit_search_mode();
    assert!(!app.search_mode);
    assert_eq!(app.search_query, "");
    assert_eq!(app.projects.active_items().len(), 3);
    assert!(!app.projects.is_filtered());

    app.enter_search_mode();
    app.add_to_search_query('a');
    app.add_to_search_query('n');
    app.add_to_search_query('o');
    app.add_to_search_query('t');
    app.add_to_search_query('h');
    app.add_to_search_query('e');
    app.add_to_search_query('r');
    assert_eq!(app.search_query, "another");
    assert_eq!(app.projects.active_items().len(), 1);

    app.exit_search_mode_keep_filter();
    assert!(!app.search_mode);
    assert_eq!(app.search_query, "another");
    assert_eq!(app.projects.active_items().len(), 1);
    assert!(app.projects.is_filtered());
}

#[test]
fn test_message_numbering_with_filtering() {
    let mut app = App::new(PathBuf::from("/tmp"), false);
    app.screen = Screen::Messages;

    app.messages.items =
        three_messages(Some("Hello world"), Some("Hi there"), Some("Another message"));

    assert_eq!(app.messages.active_items().len(), 3);
    assert_eq!(app.messages.original_index(0), 0);
    assert_eq!(app.messages.original_index(1), 1);
    assert_eq!(app.messages.original_index(2), 2);

    app.apply_message_filter("hi");
    assert_eq!(app.messages.active_items().len(), 1);
    assert_eq!(app.messages.original_index(0), 1);

    app.apply_message_filter("3");
    assert_eq!(app.messages.active_items().len(), 1);
    assert_eq!(app.messages.original_index(0), 2);

    app.apply_message_filter("message");
    assert_eq!(app.messages.active_items().len(), 1);
    assert_eq!(app.messages.original_index(0), 2);

    app.messages.clear_filter();
    assert_eq!(app.messages.active_items().len(), 3);
    assert!(!app.messages.is_filtered());
}

#[test]
fn test_selection_preservation_during_filtering() {
    let mut app = App::new(PathBuf::from("/tmp"), false);
    app.screen = Screen::Messages;

    app.messages.items =
        three_messages(Some("First message"), Some("Second message"), Some("Third message"));

    app.messages.select(Some(1));
    assert_eq!(app.messages.selected(), Some(1));
    assert_eq!(app.messages.original_index(1), 1);

    app.apply_message_filter("message");
    assert_eq!(app.messages.active_items().len(), 3);
    assert_eq!(app.messages.selected(), Some(1));
    assert_eq!(app.messages.original_index(1), 1);

    app.apply_message_filter("second");
    assert_eq!(app.messages.active_items().len(), 1);
    assert_eq!(app.messages.selected(), Some(0));
    assert_eq!(app.messages.original_index(0), 1);

    app.apply_message_filter("m");
    assert_eq!(app.messages.active_items().len(), 3);
    assert_eq!(app.messages.selected(), Some(1));
    assert_eq!(app.messages.original_index(1), 1);

    app.messages.select(Some(2));
    assert_eq!(app.messages.original_index(2), 2);

    app.apply_message_filter("first");
    assert_eq!(app.messages.active_items().len(), 1);
    assert_eq!(app.messages.selected(), Some(0));
    assert_eq!(app.messages.original_index(0), 0);
}

#[test]
fn test_selection_preservation_on_search_mode_changes() {
    let mut app = App::new(PathBuf::from("/tmp"), false);
    app.screen = Screen::Messages;

    app.messages.items =
        three_messages(Some("First message"), Some("Second message"), Some("Third message"));

    app.messages.select(Some(1));
    assert_eq!(app.messages.selected(), Some(1));

    app.enter_search_mode();
    assert!(app.search_mode);
    assert_eq!(app.search_query, "");
    assert_eq!(app.messages.selected(), Some(1));
    assert!(!app.messages.is_filtered());

    app.add_to_search_query('s');
    app.add_to_search_query('e');
    app.add_to_search_query('c');
    assert_eq!(app.messages.active_items().len(), 1);
    assert_eq!(app.messages.selected(), Some(0));
    assert_eq!(app.messages.original_index(0), 1);

    app.exit_search_mode();
    assert!(!app.search_mode);
    assert_eq!(app.search_query, "");
    assert_eq!(app.messages.selected(), Some(1));
    assert!(!app.messages.is_filtered());

    app.messages.select(Some(2));

    app.enter_search_mode();
    assert_eq!(app.messages.selected(), Some(2));

    app.add_to_search_query('f');
    assert_eq!(app.messages.active_items().len(), 1);
    assert_eq!(app.messages.selected(), Some(0));
    assert_eq!(app.messages.original_index(0), 0);

    app.exit_search_mode();
    assert_eq!(app.messages.selected(), Some(0));
}

#[test]
fn test_selection_preservation_on_navigation() {
    let mut app = App::new(PathBuf::from("/tmp"), false);

    app.projects.items = vec![project("project1", 1), project("project2", 2), project("project3", 3)];

    let test_chats = vec![chat("chat1", 10), chat("chat2", 20), chat("chat3", 30)];

    app.screen = Screen::Projects;
    app.projects.select(Some(1));
    assert_eq!(app.projects.selected(), Some(1));

    app.current_project = Some(app.projects.items[1].clone());
    app.chats.items = test_chats;
    app.screen = Screen::Chats;
    app.chats.select(Some(0));

    app.chats.select(Some(1));
    assert_eq!(app.chats.selected(), Some(1));

    app.current_chat = Some(app.chats.items[1].clone());
    app.screen = Screen::Messages;

    app.go_back();
    assert_eq!(app.screen, Screen::Chats);
    assert_eq!(app.chats.selected(), Some(1));

    app.go_back();
    assert_eq!(app.screen, Screen::Projects);
    assert_eq!(app.projects.selected(), Some(1));
    assert!(app.current_project.is_none());
    assert!(app.current_chat.is_none());
}
