use cocohibo::text::{decimal_string, default_uuid, take_chars};
use cocohibo::ui::{
    chat_line, chat_name_columns, name_column_width, pad_left, pad_right, project_line,
    project_name_columns, role_display, truncate_from_beginning, truncate_string,
};

#[test]
fn decimal_string_writes_digits() {
    assert_eq!(decimal_string(0), "0");
    assert_eq!(decimal_string(7), "7");
    assert_eq!(decimal_string(10), "10");
    assert_eq!(decimal_string(12345), "12345");
    assert_eq!(decimal_string(9_007_199_254_740_993), "9007199254740993");
    assert_eq!(decimal_string(u64::MAX), "18446744073709551615");
}

#[test]
fn default_uuid_numbers_the_record() {
    assert_eq!(default_uuid(1), "generated-uuid-1");
    assert_eq!(default_uuid(42), "generated-uuid-42");
    assert_ne!(default_uuid(1), default_uuid(2));
}

#[test]
fn take_chars_counts_characters() {
    assert_eq!(take_chars("hello", 3), "hel");
    assert_eq!(take_chars("hello", 5), "hello");
    assert_eq!(take_chars("hello", 9), "hello");
    assert_eq!(take_chars("hello", 0), "");
    assert_eq!(take_chars("héllo wörld", 8), "héllo wö");
    assert_eq!(take_chars("日本語のテキスト", 3), "日本語");
}

#[test]
fn truncate_string_keeps_short_texts() {
    assert_eq!(truncate_string("hello", 5), "hello");
    assert_eq!(truncate_string("hello", 10), "hello");
    assert_eq!(truncate_string("", 0), "");
}

#[test]
fn truncate_string_cuts_the_end() {
    assert_eq!(truncate_string("hello world", 8), "hello...");
    assert_eq!(truncate_string("hello world", 10), "hello w...");
    assert_eq!(truncate_string("hello world", 4), "h...");
    assert_eq!(truncate_string("héllo wörld", 9), "héllo ...");
    assert_eq!(truncate_string("日本語のテキスト", 6), "日本語...");
}

#[test]
fn truncate_string_shows_only_dots_in_narrow_space() {
    assert_eq!(truncate_string("hello", 3), "...");
    assert_eq!(truncate_string("hello", 2), "..");
    assert_eq!(truncate_string("hello", 1), ".");
    assert_eq!(truncate_string("hello", 0), "");
}

#[test]
fn truncate_from_beginning_keeps_short_texts() {
    assert_eq!(truncate_from_beginning("hello", 5), "hello");
    assert_eq!(truncate_from_beginning("hello", 10), "hello");
}

#[test]
fn truncate_from_beginning_cuts_the_start() {
    assert_eq!(truncate_from_beginning("hello world", 8), "...world");
    assert_eq!(truncate_from_beginning("hello world", 4), "...d");
    assert_eq!(truncate_from_beginning("-home-user-project", 10), "...project");
    assert_eq!(truncate_from_beginning("日本語のテキスト", 6), "...キスト");
}

#[test]
fn truncate_from_beginning_shows_only_dots_in_narrow_space() {
    assert_eq!(truncate_from_beginning("hello", 3), "...");
    assert_eq!(truncate_from_beginning("hello", 2), "..");
    assert_eq!(truncate_from_beginning("hello", 0), "");
}

#[test]
fn padding_fills_with_spaces() {
    assert_eq!(pad_right("ab", 5), "ab   ");
    assert_eq!(pad_right("abcdef", 5), "abcdef");
    assert_eq!(pad_right("", 2), "  ");
    assert_eq!(pad_left("ab", 5), "   ab");
    assert_eq!(pad_left("abcdef", 5), "abcdef");
    assert_eq!(pad_right("né", 4), format!("{:<4}", "né"));
    assert_eq!(pad_left("né", 4), format!("{:>4}", "né"));
}

#[test]
fn name_column_is_as_wide_as_the_longest_name() {
    assert_eq!(name_column_width(&Vec::new()), 0);
    let names = vec!["ab".to_string(), "abcde".to_string(), "héé".to_string()];
    assert_eq!(name_column_width(&names), 5);
    assert_eq!(name_column_width(&vec!["日本語のテキスト".to_string()]), 8);
}

#[test]
fn name_columns_leave_room_for_date_and_count() {
    assert_eq!(project_name_columns(80), 49);
    assert_eq!(project_name_columns(31), 0);
    assert_eq!(project_name_columns(10), 0);
    assert_eq!(chat_name_columns(80), 46);
    assert_eq!(chat_name_columns(34), 0);
    assert_eq!(chat_name_columns(0), 0);
}

#[test]
fn project_line_has_three_columns() {
    let line = project_line("proj", "2024-01-01 10:00", 3, 6);
    assert_eq!(line, "proj   2024-01-01 10:00         3");
    assert_eq!(
        line,
        format!("{} {:<20} {:>5}", format!("{:<width$}", "proj", width = 6), "2024-01-01 10:00", 3)
    );
    assert_eq!(project_line("p", "d", 123456, 1), "p d                    123456");
}

#[test]
fn chat_line_has_three_columns() {
    let line = chat_line("chat", "2024-01-01 10:00", 12, 4);
    assert_eq!(line, format!("{} {:<20} {:>8}", "chat", "2024-01-01 10:00", 12));
    assert_eq!(line, "chat 2024-01-01 10:00           12");
}

#[test]
fn role_display_knows_the_roles() {
    assert_eq!(role_display("user", ""), "U");
    assert_eq!(role_display("assistant", ""), "A");
    assert_eq!(role_display("system", ""), "S");
    assert_eq!(role_display("PostToolUse:Edit", ""), "H");
    assert_eq!(role_display("SessionHook", ""), "H");
    assert_eq!(role_display("other", "ran PostToolUse"), "H");
    assert_eq!(role_display("other", "a Hook fired"), "H");
    assert_eq!(role_display("other", "nothing"), "?");
    assert_eq!(role_display("User", "hook"), "?");
    assert_eq!(role_display("user", "Hook"), "U");
}
