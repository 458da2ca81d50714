//! The detail pane: what is shown of the selected message, line by line.

use crate::list_view::least;
use crate::project::{HierarchicalMessage, Message, Usage};
use crate::text::{decimal, decimal_string, lines_of, split_lines, views};
use crate::ui::{truncate_string, truncated};
use vstd::prelude::*;
use vstd::string::StringExecFns;

verus! {

/// One line of the detail pane.
#[derive(Debug, PartialEq, Eq)]
pub struct DetailLine {
    pub text: String,
    /// Whether the line is a heading.
    pub bold: bool,
}

impl Clone for DetailLine {
    fn clone(&self) -> (copy: Self)
        ensures
            copy == *self,
    {
        DetailLine { text: self.text.clone(), bold: self.bold }
    }
}

impl View for DetailLine {
    type V = (Seq<char>, bool);

    open spec fn view(&self) -> (Seq<char>, bool) {
        (self.text@, self.bold)
    }
}

/// The most lines of content that the detail pane shows.
pub const CONTENT_LINES: usize = 50;

/// Lines as the model holds them.
pub open spec fn shown(lines: Seq<DetailLine>) -> Seq<(Seq<char>, bool)> {
    lines.map_values(|line: DetailLine| line@)
}

/// An ordinary line.
pub open spec fn plain(text: Seq<char>) -> (Seq<char>, bool) {
    (text, false)
}

/// A heading.
pub open spec fn heading(text: Seq<char>) -> (Seq<char>, bool) {
    (text, true)
}

/// The line for a text that may be missing.
pub open spec fn optional(label: Seq<char>, value: Option<String>) -> Seq<(Seq<char>, bool)> {
    match value {
        Some(v) => seq![plain(label + v@)],
        None => Seq::empty(),
    }
}

/// The line for a text that may be missing, cut to `max_len` characters.
pub open spec fn optional_cut(label: Seq<char>, value: Option<String>, max_len: nat) -> Seq<
    (Seq<char>, bool),
> {
    match value {
        Some(v) => seq![plain(label + truncated(v@, max_len))],
        None => Seq::empty(),
    }
}

/// The line for a count that may be missing.
pub open spec fn counted(label: Seq<char>, value: Option<u32>) -> Seq<(Seq<char>, bool)> {
    match value {
        Some(n) => seq![plain(label + decimal(n as nat))],
        None => Seq::empty(),
    }
}

/// The line for a flag that may be missing.
pub open spec fn flagged(label: Seq<char>, value: Option<bool>) -> Seq<(Seq<char>, bool)> {
    match value {
        Some(flag) => seq![plain(label + (if flag {
            "true"@
        } else {
            "false"@
        }))],
        None => Seq::empty(),
    }
}

/// The lines that say which message it is. `time` is the timestamp of the
/// message as the caller has formatted it.
pub open spec fn identity_lines(message: Message, time: Seq<char>) -> Seq<(Seq<char>, bool)> {
    seq![
        heading("Message Details"@),
        plain(""@),
        plain("UUID: "@ + message.uuid@),
        plain("Time: "@ + time),
        plain("Type: "@ + message.msg_type@),
        plain("Role: "@ + message.role_text()),
    ]
}

/// The lines that say where the message stands in its thread.
pub open spec fn placement_lines(node: HierarchicalMessage) -> Seq<(Seq<char>, bool)> {
    seq![
        if node.is_initial {
            plain("Status: Initial message"@)
        } else {
            plain("Depth: "@ + decimal(node.chain_depth as nat) + " (chain message)"@)
        },
    ] + optional_cut("Parent: "@, node.message.parent_uuid, 36) + seq![plain(""@)]
}

/// Whether the message carries metadata that has a section of its own.
pub open spec fn has_metadata(message: Message) -> bool {
    message.user_type is Some || message.cwd is Some || message.version is Some
}

/// The section of metadata.
pub open spec fn metadata_lines(message: Message) -> Seq<(Seq<char>, bool)> {
    if has_metadata(message) {
        seq![heading("Metadata:"@)] + optional("User Type: "@, message.user_type) + optional(
            "Working Dir: "@,
            message.cwd,
        ) + optional("Version: "@, message.version) + optional(
            "Git Branch: "@,
            message.git_branch,
        ) + flagged("Meta: "@, message.is_meta) + seq![plain(""@)]
    } else {
        Seq::empty()
    }
}

/// The lines of the token counts.
pub open spec fn usage_lines(usage: Option<Usage>) -> Seq<(Seq<char>, bool)> {
    match usage {
        Some(u) => seq![plain("Token Usage:"@)] + counted("  Input: "@, u.input_tokens)
            + counted("  Output: "@, u.output_tokens) + counted(
            "  Cache Create: "@,
            u.cache_creation_input_tokens,
        ) + counted("  Cache Read: "@, u.cache_read_input_tokens) + optional(
            "  Service Tier: "@,
            u.service_tier,
        ),
        None => Seq::empty(),
    }
}

/// Whether the message carries what an assistant reports of itself.
pub open spec fn has_assistant_info(message: Message) -> bool {
    message.model is Some || message.usage is Some
}

/// The section of what an assistant reports of itself.
pub open spec fn assistant_lines(message: Message) -> Seq<(Seq<char>, bool)> {
    if has_assistant_info(message) {
        seq![heading("Assistant Info:"@)] + optional("Model: "@, message.model) + optional_cut(
            "Request ID: "@,
            message.request_id,
            30,
        ) + optional("Stop Reason: "@, message.stop_reason) + usage_lines(message.usage) + seq![
            plain(""@),
        ]
    } else {
        Seq::empty()
    }
}

/// The section of the content: its first lines, fifty at most.
pub open spec fn content_lines(message: Message) -> Seq<(Seq<char>, bool)> {
    let lines = lines_of(message.detailed_content());
    seq![heading("Content:"@)] + lines.take(
        least(lines.len(), CONTENT_LINES as nat) as int,
    ).map_values(|line: Seq<char>| plain(line))
}

/// The lines of the detail pane for a message.
pub open spec fn details(node: HierarchicalMessage, time: Seq<char>) -> Seq<(Seq<char>, bool)> {
    identity_lines(node.message, time) + placement_lines(node) + metadata_lines(node.message)
        + assistant_lines(node.message) + content_lines(node.message)
}

/// Appends a line.
fn push_line(lines: &mut Vec<DetailLine>, text: String, bold: bool)
    ensures
        shown(final(lines)@) == shown(old(lines)@).push((text@, bold)),
{
    lines.push(DetailLine { text, bold });
}

/// Appends an ordinary line of a label and a value.
fn push_labelled(lines: &mut Vec<DetailLine>, label: &str, value: &str)
    ensures
        shown(final(lines)@) == shown(old(lines)@).push(plain(label@ + value@)),
{
    let mut text = String::from_str(label);
    text.append(value);
    push_line(lines, text, false);
}

/// Appends the line for a text that may be missing.
fn push_optional(lines: &mut Vec<DetailLine>, label: &str, value: &Option<String>)
    ensures
        shown(final(lines)@) == shown(old(lines)@) + optional(label@, *value),
{
    match value {
        Some(v) => {
            push_labelled(lines, label, v.as_str());
        },
        None => {},
    }
}

/// Appends the line for a text that may be missing, cut to `max_len`
/// characters.
fn push_optional_cut(
    lines: &mut Vec<DetailLine>,
    label: &str,
    value: &Option<String>,
    max_len: usize,
)
    ensures
        shown(final(lines)@) == shown(old(lines)@) + optional_cut(
            label@,
            *value,
            max_len as nat,
        ),
{
    match value {
        Some(v) => {
            let cut = truncate_string(v.as_str(), max_len);
            push_labelled(lines, label, cut.as_str());
        },
        None => {},
    }
}

/// Appends the line for a count that may be missing.
fn push_counted(lines: &mut Vec<DetailLine>, label: &str, value: Option<u32>)
    ensures
        shown(final(lines)@) == shown(old(lines)@) + counted(label@, value),
{
    match value {
        Some(n) => {
            let number = decimal_string(n as u64);
            push_labelled(lines, label, number.as_str());
        },
        None => {},
    }
}

/// Appends the line for a flag that may be missing.
fn push_flagged(lines: &mut Vec<DetailLine>, label: &str, value: Option<bool>)
    ensures
        shown(final(lines)@) == shown(old(lines)@) + flagged(label@, value),
{
    match value {
        Some(flag) => {
            if flag {
                push_labelled(lines, label, "true");
            } else {
                push_labelled(lines, label, "false");
            }
        },
        None => {},
    }
}

/// Appends the lines that say which message it is.
fn push_identity(lines: &mut Vec<DetailLine>, message: &Message, time: &str)
    ensures
        shown(final(lines)@) == shown(old(lines)@) + identity_lines(*message, time@),
{
    push_line(lines, String::from_str("Message Details"), true);
    push_line(lines, String::from_str(""), false);
    push_labelled(lines, "UUID: ", message.uuid.as_str());
    push_labelled(lines, "Time: ", time);
    push_labelled(lines, "Type: ", message.msg_type.as_str());
    push_labelled(lines, "Role: ", message.get_role());
}

/// Appends the lines that say where the message stands in its thread.
fn push_placement(lines: &mut Vec<DetailLine>, node: &HierarchicalMessage)
    ensures
        shown(final(lines)@) == shown(old(lines)@) + placement_lines(*node),
{
    if node.is_initial {
        push_line(lines, String::from_str("Status: Initial message"), false);
    } else {
        let mut text = String::from_str("Depth: ");
        let depth = decimal_string(node.chain_depth as u64);
        text.append(depth.as_str());
        text.append(" (chain message)");
        push_line(lines, text, false);
    }
    push_optional_cut(lines, "Parent: ", &node.message.parent_uuid, 36);
    push_line(lines, String::from_str(""), false);
}

/// Appends the section of metadata.
fn push_metadata(lines: &mut Vec<DetailLine>, message: &Message)
    ensures
        shown(final(lines)@) == shown(old(lines)@) + metadata_lines(*message),
{
    if message.user_type.is_some() || message.cwd.is_some() || message.version.is_some() {
        push_line(lines, String::from_str("Metadata:"), true);
        push_optional(lines, "User Type: ", &message.user_type);
        push_optional(lines, "Working Dir: ", &message.cwd);
        push_optional(lines, "Version: ", &message.version);
        push_optional(lines, "Git Branch: ", &message.git_branch);
        push_flagged(lines, "Meta: ", message.is_meta);
        push_line(lines, String::from_str(""), false);
    }
}

/// Appends the lines of the token counts.
fn push_usage(lines: &mut Vec<DetailLine>, usage: &Option<Usage>)
    ensures
        shown(final(lines)@) == shown(old(lines)@) + usage_lines(*usage),
{
    match usage {
        Some(u) => {
            push_line(lines, String::from_str("Token Usage:"), false);
            push_counted(lines, "  Input: ", u.input_tokens);
            push_counted(lines, "  Output: ", u.output_tokens);
            push_counted(lines, "  Cache Create: ", u.cache_creation_input_tokens);
            push_counted(lines, "  Cache Read: ", u.cache_read_input_tokens);
            push_optional(lines, "  Service Tier: ", &u.service_tier);
        },
        None => {},
    }
}

/// Appends the section of what an assistant reports of itself.
fn push_assistant(lines: &mut Vec<DetailLine>, message: &Message)
    ensures
        shown(final(lines)@) == shown(old(lines)@) + assistant_lines(*message),
{
    if message.model.is_some() || message.usage.is_some() {
        push_line(lines, String::from_str("Assistant Info:"), true);
        push_optional(lines, "Model: ", &message.model);
        push_optional_cut(lines, "Request ID: ", &message.request_id, 30);
        push_optional(lines, "Stop Reason: ", &message.stop_reason);
        push_usage(lines, &message.usage);
        push_line(lines, String::from_str(""), false);
    }
}

/// Appends the section of the content.
fn push_content(lines: &mut Vec<DetailLine>, message: &Message)
    ensures
        shown(final(lines)@) == shown(old(lines)@) + content_lines(*message),
{
    push_line(lines, String::from_str("Content:"), true);
    let content = message.get_detailed_content();
    let texts = split_lines(content.as_str());
    let ghost all = lines_of(message.detailed_content());
    let ghost start = shown(lines@);
    let count = if texts.len() < CONTENT_LINES {
        texts.len()
    } else {
        CONTENT_LINES
    };
    let mut i: usize = 0;
    while i < count
        invariant
            i <= count <= texts@.len(),
            views(texts@) == all,
            shown(lines@) == start + all.take(i as int).map_values(|line: Seq<char>| plain(line)),
        decreases count - i,
    {
        push_line(lines, texts[i].clone(), false);
        i += 1;
    }
}

/// The lines of the detail pane for a message: which message it is, where it
/// stands in its thread, its metadata, what an assistant reports of itself,
/// and the first lines of its content. `time` is the timestamp of the
/// message as the caller has formatted it.
pub fn message_details(node: &HierarchicalMessage, time: &str) -> (lines: Vec<DetailLine>)
    ensures
        shown(lines@) == details(*node, time@),
{
    let mut lines: Vec<DetailLine> = Vec::new();
    push_identity(&mut lines, &node.message, time);
    push_placement(&mut lines, node);
    push_metadata(&mut lines, &node.message);
    push_assistant(&mut lines, &node.message);
    push_content(&mut lines, &node.message);
    lines
}

} // verus!
