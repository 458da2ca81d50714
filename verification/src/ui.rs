//! The texts that the screens show: names cut to the width at hand, the lines
//! of the three lists, and the status line.

use crate::app::{App, Screen};
use crate::app_view::AppView;
use crate::content::text_eq;
use crate::list_view::minus;
use crate::project::HierarchicalMessage;
use crate::text::{
    contains_text, decimal, decimal_string, first_chars, last_chars, occurs_in, push_char,
    take_chars,
};
use vstd::prelude::*;
use vstd::string::StrSliceExecFns;
use vstd::string::StringExecFns;

verus! {

/// A text cut to at most `max_len` characters: where it is longer, its start
/// followed by three dots, or as many dots as fit where fewer than four
/// characters fit.
pub open spec fn truncated(text: Seq<char>, max_len: nat) -> Seq<char> {
    if text.len() <= max_len {
        text
    } else if max_len <= 3 {
        first_chars("..."@, max_len)
    } else {
        first_chars(text, (max_len - 3) as nat) + "..."@
    }
}

/// A text cut to at most `max_len` characters: where it is longer, three
/// dots followed by its end, or as many dots as fit where fewer than four
/// characters fit.
pub open spec fn truncated_from_beginning(text: Seq<char>, max_len: nat) -> Seq<char> {
    if text.len() <= max_len {
        text
    } else if max_len <= 3 {
        first_chars("..."@, max_len)
    } else {
        "..."@ + last_chars(text, (max_len - 3) as nat)
    }
}

/// `n` spaces.
pub open spec fn spaces(n: nat) -> Seq<char> {
    Seq::new(n, |i: int| ' ')
}

/// A text with spaces behind it up to `width` characters.
pub open spec fn padded_right(text: Seq<char>, width: nat) -> Seq<char> {
    text + spaces(minus(width, text.len()))
}

/// A text with spaces before it up to `width` characters.
pub open spec fn padded_left(text: Seq<char>, width: nat) -> Seq<char> {
    spaces(minus(width, text.len())) + text
}

/// The longest of the texts, in characters.
pub open spec fn widest(texts: Seq<String>) -> nat
    decreases texts.len(),
{
    if texts.len() == 0 {
        0
    } else {
        let rest = widest(texts.drop_last());
        if texts.last()@.len() > rest {
            texts.last()@.len()
        } else {
            rest
        }
    }
}

/// The line of a project or chat: the name, padded to the width of the name
/// column, the date in a column of twenty, and the count, flush right in a
/// column of `count_width`.
pub open spec fn entry_line(
    name: Seq<char>,
    date: Seq<char>,
    count: nat,
    name_width: nat,
    count_width: nat,
) -> Seq<char> {
    padded_right(name, name_width) + " "@ + padded_right(date, 20) + " "@ + padded_left(
        decimal(count),
        count_width,
    )
}

/// The letter that stands for a role in the message list. Messages of hooks
/// are known by their role or, failing that, by their content.
pub open spec fn role_letter(role: Seq<char>, content: Seq<char>) -> Seq<char> {
    if role == "user"@ {
        "U"@
    } else if role == "assistant"@ {
        "A"@
    } else if role == "system"@ {
        "S"@
    } else if occurs_in("PostToolUse"@, role) || occurs_in("Hook"@, role) {
        "H"@
    } else if occurs_in("PostToolUse"@, content) || occurs_in("Hook"@, content) {
        "H"@
    } else {
        "?"@
    }
}

/// What stands before the content of a message in the list: nothing for a
/// message that starts a thread, else an indent and a connector that tells
/// whether the thread goes on.
pub open spec fn line_prefix(node: HierarchicalMessage) -> Seq<char> {
    if node.is_initial {
        Seq::empty()
    } else if node.has_continuation {
        "  ├─"@
    } else {
        "  └─"@
    }
}

/// The columns that are not available to the content of a message: number,
/// role and spacing, and the indent and connector by their size in bytes.
pub open spec fn reserved_columns(node: HierarchicalMessage) -> nat {
    if node.is_initial {
        8
    } else {
        16
    }
}

/// The line of a message in a list `width` columns wide: its number in a
/// column of three, the letter of its role, and its content cut to what is
/// left of the width.
pub open spec fn message_line_text(number: nat, node: HierarchicalMessage, width: nat) -> Seq<
    char,
> {
    padded_right(decimal(number), 3) + " "@ + role_letter(
        node.message.role_text(),
        node.message.content_text(),
    ) + " "@ + line_prefix(node) + truncated(
        node.message.content_text(),
        minus(width, reserved_columns(node)),
    )
}

/// The name of the project that is open, or `Unknown`.
pub open spec fn project_name(app: AppView) -> Seq<char> {
    match app.selected_project() {
        Some(project) => project.name@,
        None => "Unknown"@,
    }
}

/// The name of the chat that is selected, or `Unknown`.
pub open spec fn chat_name(app: AppView) -> Seq<char> {
    match app.selected_chat() {
        Some(chat) => chat.name@,
        None => "Unknown"@,
    }
}

/// The status line: the query while a search runs, else a note where the
/// list is empty, else the path to the current screen.
pub open spec fn status_line(app: AppView) -> Seq<char> {
    if app.search_mode {
        "/"@ + app.search_query
    } else {
        match app.screen {
            Screen::Projects => if app.projects.active().len() == 0 {
                "No projects found"@
            } else {
                "Project list"@
            },
            Screen::Chats => if app.chats.active().len() == 0 {
                "No chats found"@
            } else {
                project_name(app) + " > Chat list"@
            },
            Screen::Messages => if app.messages.active().len() == 0 {
                "No messages found"@
            } else {
                project_name(app) + " > "@ + chat_name(app) + " > Messages"@
            },
        }
    }
}

/// Cuts a text to at most `max_len` characters, keeping its start.
pub fn truncate_string(s: &str, max_len: usize) -> (shown: String)
    ensures
        shown@ == truncated(s@, max_len as nat),
{
    let char_count = s.unicode_len();
    if char_count <= max_len {
        String::from_str(s)
    } else if max_len <= 3 {
        take_chars("...", max_len)
    } else {
        let mut shown = take_chars(s, max_len - 3);
        shown.append("...");
        shown
    }
}

/// Cuts a text to at most `max_len` characters, keeping its end.
pub fn truncate_from_beginning(s: &str, max_len: usize) -> (shown: String)
    ensures
        shown@ == truncated_from_beginning(s@, max_len as nat),
{
    let char_count = s.unicode_len();
    if char_count <= max_len {
        String::from_str(s)
    } else if max_len <= 3 {
        take_chars("...", max_len)
    } else {
        let start_index = char_count - (max_len - 3);
        let tail = s.substring_char(start_index, char_count);
        let mut shown = String::from_str("...");
        shown.append(tail);
        shown
    }
}

/// Appends `n` spaces to `text`.
fn push_spaces(text: &mut String, n: usize)
    ensures
        final(text)@ == old(text)@ + spaces(n as nat),
{
    let mut k: usize = 0;
    while k < n
        invariant
            k <= n,
            text@ == old(text)@ + spaces(k as nat),
        decreases n - k,
    {
        push_char(text, ' ');
        k += 1;
    }
}

/// A text with spaces behind it up to `width` characters.
pub fn pad_right(text: &str, width: usize) -> (padded: String)
    ensures
        padded@ == padded_right(text@, width as nat),
{
    let len = text.unicode_len();
    let mut padded = String::from_str(text);
    push_spaces(&mut padded, width.saturating_sub(len));
    padded
}

/// A text with spaces before it up to `width` characters.
pub fn pad_left(text: &str, width: usize) -> (padded: String)
    ensures
        padded@ == padded_left(text@, width as nat),
{
    let len = text.unicode_len();
    let mut padded = String::new();
    push_spaces(&mut padded, width.saturating_sub(len));
    padded.append(text);
    padded
}

/// The width of the name column: the longest of the names, in characters.
pub fn name_column_width(names: &Vec<String>) -> (width: usize)
    ensures
        width == widest(names@),
{
    let mut width: usize = 0;
    let mut i: usize = 0;
    while i < names.len()
        invariant
            i <= names@.len(),
            width == widest(names@.take(i as int)),
        decreases names@.len() - i,
    {
        assert(names@.take(i + 1).drop_last() =~= names@.take(i as int));
        let len = names[i].as_str().unicode_len();
        if len > width {
            width = len;
        }
        i += 1;
    }
    assert(names@.take(i as int) =~= names@);
    width
}

/// The columns that are left for the name of a project in a list `width`
/// columns wide.
pub fn project_name_columns(width: u16) -> (columns: usize)
    ensures
        columns == minus(width as nat, 31),
{
    (width as usize).saturating_sub(20 + 5 + 6)
}

/// The columns that are left for the name of a chat in a list `width`
/// columns wide.
pub fn chat_name_columns(width: u16) -> (columns: usize)
    ensures
        columns == minus(width as nat, 34),
{
    (width as usize).saturating_sub(20 + 8 + 6)
}

/// The line of a project or chat in its list.
fn entry(name: &str, date: &str, count: usize, name_width: usize, count_width: usize) -> (line:
    String)
    ensures
        line@ == entry_line(
            name@,
            date@,
            count as nat,
            name_width as nat,
            count_width as nat,
        ),
{
    let mut line = pad_right(name, name_width);
    line.append(" ");
    let date_column = pad_right(date, 20);
    line.append(date_column.as_str());
    line.append(" ");
    let number = decimal_string(count as u64);
    let count_column = pad_left(number.as_str(), count_width);
    line.append(count_column.as_str());
    line
}

/// The line of a project: its name, the date of its last change as the
/// caller has formatted it, and the number of its chats.
pub fn project_line(name: &str, date: &str, chat_count: usize, name_width: usize) -> (line:
    String)
    ensures
        line@ == entry_line(name@, date@, chat_count as nat, name_width as nat, 5),
{
    entry(name, date, chat_count, name_width, 5)
}

/// The line of a chat: its name, the date of its last change as the caller
/// has formatted it, and the number of its messages.
pub fn chat_line(name: &str, date: &str, message_count: usize, name_width: usize) -> (line:
    String)
    ensures
        line@ == entry_line(name@, date@, message_count as nat, name_width as nat, 8),
{
    entry(name, date, message_count, name_width, 8)
}

/// The letter that stands for a role in the message list.
pub fn role_display(role: &str, content_text: &str) -> (letter: &'static str)
    ensures
        letter@ == role_letter(role@, content_text@),
{
    if text_eq(role, "user") {
        "U"
    } else if text_eq(role, "assistant") {
        "A"
    } else if text_eq(role, "system") {
        "S"
    } else if contains_text(role, "PostToolUse") || contains_text(role, "Hook") {
        "H"
    } else if contains_text(content_text, "PostToolUse") || contains_text(content_text, "Hook") {
        "H"
    } else {
        "?"
    }
}

/// The line of a message in a list `width` columns wide. `number` is the
/// number of the message among all messages, counted from one.
pub fn message_line(number: usize, node: &HierarchicalMessage, width: u16) -> (line: String)
    ensures
        line@ == message_line_text(number as nat, *node, width as nat),
{
    let content_text = node.message.get_content_text();
    let letter = role_display(node.message.get_role(), content_text.as_str());
    let reserved: usize = if node.is_initial {
        8
    } else {
        16
    };
    let available_width = (width as usize).saturating_sub(reserved);
    let digits = decimal_string(number as u64);
    let mut line = pad_right(digits.as_str(), 3);
    line.append(" ");
    line.append(letter);
    line.append(" ");
    if !node.is_initial {
        if node.has_continuation {
            line.append("  ├─");
        } else {
            line.append("  └─");
        }
    }
    let shown = truncate_string(content_text.as_str(), available_width);
    line.append(shown.as_str());
    line
}

/// The status line of the current screen.
pub fn status_text(app: &App) -> (text: String)
    ensures
        text@ == status_line(app@),
{
    if app.search_mode {
        let mut text = String::from_str("/");
        text.append(app.search_query.as_str());
        text
    } else {
        match app.screen {
            Screen::Projects => if app.projects.is_empty() {
                String::from_str("No projects found")
            } else {
                String::from_str("Project list")
            },
            Screen::Chats => if app.chats.is_empty() {
                String::from_str("No chats found")
            } else {
                let mut text = String::from_str(current_project_name(app));
                text.append(" > Chat list");
                text
            },
            Screen::Messages => if app.messages.is_empty() {
                String::from_str("No messages found")
            } else {
                let mut text = String::from_str(current_project_name(app));
                text.append(" > ");
                text.append(current_chat_name(app));
                text.append(" > Messages");
                text
            },
        }
    }
}

/// The name of the project that is open, or `Unknown`.
fn current_project_name(app: &App) -> (name: &str)
    ensures
        name@ == project_name(app@),
{
    match app.selected_project() {
        Some(project) => project.name.as_str(),
        None => "Unknown",
    }
}

/// The name of the chat that is selected, or `Unknown`.
fn current_chat_name(app: &App) -> (name: &str)
    ensures
        name@ == chat_name(app@),
{
    match app.selected_chat() {
        Some(chat) => chat.name.as_str(),
        None => "Unknown",
    }
}

} // verus!
