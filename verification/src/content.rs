//! What a message says: its role, and its content as one line for the list
//! and in full for the detail pane.
//!
//! The content of a message is a JSON document of any shape. Every shape has
//! a text: a string is its own text, an array of content blocks is the texts
//! of its blocks, and anything else is shown as it is, in brackets.

use crate::json::{
    debug_text, field, json_debug, json_field, json_items, json_pretty, json_text, pretty_text,
};
use crate::project::Message;
use crate::text::{first_chars, take_chars};
use serde_json::Value;
use vstd::prelude::*;
use vstd::string::StringExecFns;

verus! {

/// The text of the member `key` of `item`, where it has one that is a string.
pub open spec fn member_text(item: Value, key: Seq<char>) -> Option<Seq<char>> {
    match json_field(item, key) {
        Some(member) => json_text(member),
        None => None,
    }
}

/// `result` with `part` behind it, the two parted by `separator` where
/// `result` is not empty.
pub open spec fn append_part(
    result: Seq<char>,
    separator: Seq<char>,
    part: Option<Seq<char>>,
) -> Seq<char> {
    match part {
        Some(p) => if result.len() == 0 {
            p
        } else {
            result + separator + p
        },
        None => result,
    }
}

/// The one-line text of a content block of the given kind.
pub open spec fn typed_summary(item: Value, kind: Seq<char>) -> Option<Seq<char>> {
    if kind == "text"@ {
        match member_text(item, "text"@) {
            Some(t) => Some(first_chars(t, 1000)),
            None => None,
        }
    } else if kind == "tool_use"@ {
        match member_text(item, "name"@) {
            Some(n) => Some("[tool: "@ + n + "]"@),
            None => None,
        }
    } else if kind == "thinking"@ {
        match member_text(item, "thinking"@) {
            Some(t) => Some("[thinking: "@ + first_chars(t, 50) + "...]"@),
            None => None,
        }
    } else if kind == "tool_result"@ {
        match member_text(item, "content"@) {
            Some(c) => Some("[tool result: "@ + first_chars(c, 200) + "]"@),
            None => None,
        }
    } else {
        None
    }
}

/// The one-line text of a content block that names no kind: its `text`,
/// else its `content`, else its `thinking`, whichever member comes first.
pub open spec fn untyped_summary(item: Value) -> Option<Seq<char>> {
    if json_field(item, "text"@) is Some {
        match member_text(item, "text"@) {
            Some(t) => Some(first_chars(t, 1000)),
            None => None,
        }
    } else if json_field(item, "content"@) is Some {
        match member_text(item, "content"@) {
            Some(c) => Some(first_chars(c, 1000)),
            None => None,
        }
    } else if json_field(item, "thinking"@) is Some {
        match member_text(item, "thinking"@) {
            Some(t) => Some("[thinking: "@ + first_chars(t, 50) + "]"@),
            None => None,
        }
    } else {
        None
    }
}

/// The one-line text of a content block, where it has one.
pub open spec fn summary_part(item: Value) -> Option<Seq<char>> {
    match json_field(item, "type"@) {
        Some(kind) => match json_text(kind) {
            Some(k) => typed_summary(item, k),
            None => None,
        },
        None => untyped_summary(item),
    }
}

/// The one-line text of content blocks: the texts of the blocks, parted by
/// one space.
pub open spec fn summary_of(items: Seq<Value>) -> Seq<char>
    decreases items.len(),
{
    if items.len() == 0 {
        Seq::empty()
    } else {
        append_part(summary_of(items.drop_last()), " "@, summary_part(items.last()))
    }
}

/// The line that names the tool of a `tool_use` block.
pub open spec fn tool_name_line(item: Value) -> Seq<char> {
    match member_text(item, "name"@) {
        Some(n) => "[Tool: "@ + n + "]\n"@,
        None => Seq::empty(),
    }
}

/// The parameters of a `tool_use` block: its `input` as indented JSON.
pub open spec fn tool_parameters(item: Value) -> Seq<char> {
    match json_field(item, "input"@) {
        Some(input) => "Parameters:\n"@ + (match json_pretty(input) {
            Some(p) => p,
            None => json_debug(input),
        }),
        None => Seq::empty(),
    }
}

/// The full text of a content block of the given kind.
pub open spec fn typed_detail(item: Value, kind: Seq<char>) -> Option<Seq<char>> {
    if kind == "text"@ {
        member_text(item, "text"@)
    } else if kind == "tool_use"@ {
        Some(tool_name_line(item) + tool_parameters(item))
    } else if kind == "thinking"@ {
        match member_text(item, "thinking"@) {
            Some(t) => Some("[Thinking]\n"@ + t),
            None => None,
        }
    } else if kind == "tool_result"@ {
        match member_text(item, "content"@) {
            Some(c) => Some("[Tool Result]\n"@ + c),
            None => None,
        }
    } else {
        None
    }
}

/// The full text of a content block, where it has one.
pub open spec fn detail_part(item: Value) -> Option<Seq<char>> {
    match json_field(item, "type"@) {
        Some(kind) => match json_text(kind) {
            Some(k) => typed_detail(item, k),
            None => None,
        },
        None => None,
    }
}

/// The full text of content blocks: the texts of the blocks, parted by an
/// empty line.
pub open spec fn details_of(items: Seq<Value>) -> Seq<char>
    decreases items.len(),
{
    if items.len() == 0 {
        Seq::empty()
    } else {
        append_part(details_of(items.drop_last()), "\n\n"@, detail_part(items.last()))
    }
}

/// The view of an optional text.
pub open spec fn text_of(text: Option<String>) -> Option<Seq<char>> {
    match text {
        Some(s) => Some(s@),
        None => None,
    }
}

impl Message {
    /// The document that holds the content: that of the nested body where
    /// there is one, else the message's own.
    pub open spec fn body(self) -> Option<Value> {
        match self.message {
            Some(inner) => Some(inner.content),
            None => self.content,
        }
    }

    /// The content as one line.
    pub open spec fn content_text(self) -> Seq<char> {
        match self.body() {
            Some(body) => match json_text(body) {
                Some(text) => text,
                None => match json_items(body) {
                    Some(items) => if summary_of(items).len() == 0 {
                        "["@ + self.msg_type@ + " content]"@
                    } else {
                        summary_of(items)
                    },
                    None => "["@ + self.msg_type@ + ": "@ + first_chars(json_debug(body), 100)
                        + "]"@,
                },
            },
            None => "["@ + self.msg_type@ + "]"@,
        }
    }

    /// The content in full.
    pub open spec fn detailed_content(self) -> Seq<char> {
        match self.body() {
            Some(body) => match json_text(body) {
                Some(text) => text,
                None => match json_items(body) {
                    Some(items) => if details_of(items).len() == 0 {
                        "["@ + self.msg_type@ + " content]"@
                    } else {
                        details_of(items)
                    },
                    None => "["@ + self.msg_type@ + ": "@ + json_debug(body) + "]"@,
                },
            },
            None => "["@ + self.msg_type@ + "]"@,
        }
    }

    /// The role: that of the nested body, else the message's own, else, where
    /// that is missing or empty, the type of the message.
    pub open spec fn role_text(self) -> Seq<char> {
        match self.message {
            Some(inner) => if inner.role@.len() > 0 {
                inner.role@
            } else {
                self.msg_type@
            },
            None => match self.role {
                Some(role) => if role@.len() > 0 {
                    role@
                } else {
                    self.msg_type@
                },
                None => self.msg_type@,
            },
        }
    }

    /// The document that holds the content.
    fn content_value(&self) -> (body: Option<&Value>)
        ensures
            match body {
                Some(v) => self.body() == Some(*v),
                None => self.body() is None,
            },
    {
        match &self.message {
            Some(inner) => Some(&inner.content),
            None => match &self.content {
                Some(content) => Some(content),
                None => None,
            },
        }
    }

    /// The content as one line for the message list. A string is shown as
    /// it is. Of an array of content blocks the texts are shown, shortened
    /// and parted by spaces. Any other content, and missing content, is
    /// named in brackets.
    pub fn get_content_text(&self) -> (text: String)
        ensures
            text@ == self.content_text(),
    {
        match self.content_value() {
            Some(body) => match body.as_str() {
                Some(text) => String::from_str(text),
                None => match body.as_array() {
                    Some(items) => {
                        let result = summarize(items);
                        if result.as_str().is_empty() {
                            bracket("[", self.msg_type.as_str(), " content]")
                        } else {
                            result
                        }
                    },
                    None => {
                        let shown = debug_text(body);
                        let short = take_chars(shown.as_str(), 100);
                        let mut text = bracket("[", self.msg_type.as_str(), ": ");
                        text.append(short.as_str());
                        text.append("]");
                        text
                    },
                },
            },
            None => bracket("[", self.msg_type.as_str(), "]"),
        }
    }

    /// The content in full for the detail pane. A string is shown as it is.
    /// Of an array of content blocks the texts are shown, parted by empty
    /// lines. Any other content, and missing content, is named in brackets.
    pub fn get_detailed_content(&self) -> (text: String)
        ensures
            text@ == self.detailed_content(),
    {
        match self.content_value() {
            Some(body) => match body.as_str() {
                Some(text) => String::from_str(text),
                None => match body.as_array() {
                    Some(items) => {
                        let result = detail(items);
                        if result.as_str().is_empty() {
                            bracket("[", self.msg_type.as_str(), " content]")
                        } else {
                            result
                        }
                    },
                    None => {
                        let shown = debug_text(body);
                        let mut text = bracket("[", self.msg_type.as_str(), ": ");
                        text.append(shown.as_str());
                        text.append("]");
                        text
                    },
                },
            },
            None => bracket("[", self.msg_type.as_str(), "]"),
        }
    }

    /// The role of the message.
    pub fn get_role(&self) -> (role: &str)
        ensures
            role@ == self.role_text(),
    {
        match &self.message {
            Some(inner) => if !inner.role.as_str().is_empty() {
                inner.role.as_str()
            } else {
                self.msg_type.as_str()
            },
            None => match &self.role {
                Some(role) => if !role.as_str().is_empty() {
                    role.as_str()
                } else {
                    self.msg_type.as_str()
                },
                None => self.msg_type.as_str(),
            },
        }
    }
}

/// `str::eq`: whether two texts are the same.
#[verifier::external_body]
pub(crate) fn text_eq(a: &str, b: &str) -> (same: bool)
    ensures
        same == (a@ == b@),
{
    a == b
}

/// `open`, `body` and `close` in one text.
fn bracket(open: &str, body: &str, close: &str) -> (text: String)
    ensures
        text@ == open@ + body@ + close@,
{
    let mut text = String::from_str(open);
    text.append(body);
    text.append(close);
    text
}

/// The text of the member `key` of `item`, where it has one that is a string.
fn member_str<'a>(item: &'a Value, key: &str) -> (text: Option<&'a str>)
    ensures
        match text {
            Some(s) => member_text(*item, key@) == Some(s@),
            None => member_text(*item, key@) is None,
        },
{
    match field(item, key) {
        Some(member) => member.as_str(),
        None => None,
    }
}

/// Puts `part` behind `result`, parted by `separator` where `result` is not
/// empty.
fn push_part(result: &mut String, separator: &str, part: &str)
    ensures
        final(result)@ == append_part(old(result)@, separator@, Some(part@)),
{
    if !result.as_str().is_empty() {
        result.append(separator);
        result.append(part);
    } else {
        result.append(part);
    }
}

/// The first `n` characters of the member `key` of `item`, between `open`
/// and `close`.
fn shortened_member(item: &Value, key: &str, n: usize, open: &str, close: &str) -> (text: Option<
    String,
>)
    ensures
        text_of(text) == (match member_text(*item, key@) {
            Some(t) => Some(open@ + first_chars(t, n as nat) + close@),
            None => None,
        }),
{
    match member_str(item, key) {
        Some(t) => {
            let short = take_chars(t, n);
            Some(bracket(open, short.as_str(), close))
        },
        None => None,
    }
}

/// The one-line text of a content block, where it has one.
fn item_summary(item: &Value) -> (part: Option<String>)
    ensures
        text_of(part) == summary_part(*item),
{
    match field(item, "type") {
        Some(kind) => match kind.as_str() {
            Some(k) => {
                if text_eq(k, "text") {
                    let part = shortened_member(item, "text", 1000, "", "");
                    proof {
                        lemma_bare(member_text(*item, "text"@), 1000);
                    }
                    part
                } else if text_eq(k, "tool_use") {
                    match member_str(item, "name") {
                        Some(n) => Some(bracket("[tool: ", n, "]")),
                        None => None,
                    }
                } else if text_eq(k, "thinking") {
                    shortened_member(item, "thinking", 50, "[thinking: ", "...]")
                } else if text_eq(k, "tool_result") {
                    shortened_member(item, "content", 200, "[tool result: ", "]")
                } else {
                    None
                }
            },
            None => None,
        },
        None => {
            if field(item, "text").is_some() {
                let part = shortened_member(item, "text", 1000, "", "");
                proof {
                    lemma_bare(member_text(*item, "text"@), 1000);
                }
                part
            } else if field(item, "content").is_some() {
                let part = shortened_member(item, "content", 1000, "", "");
                proof {
                    lemma_bare(member_text(*item, "content"@), 1000);
                }
                part
            } else if field(item, "thinking").is_some() {
                shortened_member(item, "thinking", 50, "[thinking: ", "]")
            } else {
                None
            }
        },
    }
}

/// Between two empty texts a text stands bare.
proof fn lemma_bare(text: Option<Seq<char>>, n: nat)
    ensures
        text matches Some(t) ==> ""@ + first_chars(t, n) + ""@ == first_chars(t, n),
{
    reveal_strlit("");
}

/// The one-line text of content blocks.
fn summarize(items: &Vec<Value>) -> (result: String)
    ensures
        result@ == summary_of(items@),
{
    let mut result = String::new();
    let mut i: usize = 0;
    while i < items.len()
        invariant
            i <= items@.len(),
            result@ == summary_of(items@.take(i as int)),
        decreases items@.len() - i,
    {
        assert(items@.take(i + 1).drop_last() =~= items@.take(i as int));
        match item_summary(&items[i]) {
            Some(part) => {
                push_part(&mut result, " ", part.as_str());
            },
            None => {},
        }
        i += 1;
    }
    assert(items@.take(i as int) =~= items@);
    result
}

/// The full text of a `tool_use` block.
fn tool_use_detail(item: &Value) -> (text: String)
    ensures
        text@ == tool_name_line(*item) + tool_parameters(*item),
{
    let mut text = String::new();
    match member_str(item, "name") {
        Some(n) => {
            text.append("[Tool: ");
            text.append(n);
            text.append("]\n");
        },
        None => {},
    }
    match field(item, "input") {
        Some(input) => {
            text.append("Parameters:\n");
            match pretty_text(input) {
                Some(p) => {
                    text.append(p.as_str());
                },
                None => {
                    let shown = debug_text(input);
                    text.append(shown.as_str());
                },
            }
        },
        None => {},
    }
    text
}

/// The text of the member `key` of `item` behind `open`.
fn headed_member(item: &Value, key: &str, open: &str) -> (text: Option<String>)
    ensures
        text_of(text) == (match member_text(*item, key@) {
            Some(t) => Some(open@ + t),
            None => None,
        }),
{
    match member_str(item, key) {
        Some(t) => {
            let mut text = String::from_str(open);
            text.append(t);
            Some(text)
        },
        None => None,
    }
}

/// The full text of a content block, where it has one.
fn item_detail(item: &Value) -> (part: Option<String>)
    ensures
        text_of(part) == detail_part(*item),
{
    match field(item, "type") {
        Some(kind) => match kind.as_str() {
            Some(k) => {
                if text_eq(k, "text") {
                    match member_str(item, "text") {
                        Some(t) => Some(String::from_str(t)),
                        None => None,
                    }
                } else if text_eq(k, "tool_use") {
                    Some(tool_use_detail(item))
                } else if text_eq(k, "thinking") {
                    headed_member(item, "thinking", "[Thinking]\n")
                } else if text_eq(k, "tool_result") {
                    headed_member(item, "content", "[Tool Result]\n")
                } else {
                    None
                }
            },
            None => None,
        },
        None => None,
    }
}

/// The full text of content blocks.
fn detail(items: &Vec<Value>) -> (result: String)
    ensures
        result@ == details_of(items@),
{
    let mut result = String::new();
    let mut i: usize = 0;
    while i < items.len()
        invariant
            i <= items@.len(),
            result@ == details_of(items@.take(i as int)),
        decreases items@.len() - i,
    {
        assert(items@.take(i + 1).drop_last() =~= items@.take(i as int));
        match item_detail(&items[i]) {
            Some(part) => {
                push_part(&mut result, "\n\n", part.as_str());
            },
            None => {},
        }
        i += 1;
    }
    assert(items@.take(i as int) =~= items@);
    result
}

} // verus!
