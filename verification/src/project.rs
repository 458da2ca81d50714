//! The records that the browser shows: projects, chat sessions and messages,
//! and the thread hierarchy that a chat session's messages form.

pub use crate::discovery::{discover_chats, discover_projects, load_messages};
pub use crate::hierarchy::build_message_hierarchy;
use serde_json::Value;
use vstd::prelude::*;

verus! {

/// An instant: whole seconds since the Unix epoch, and the nanoseconds past
/// that second. Instants are ordered by the seconds, then by the nanoseconds.
#[derive(Clone, Copy, Debug, PartialEq, Eq, Structural)]
pub struct Timestamp {
    pub seconds: i64,
    pub nanos: u32,
}

impl Timestamp {
    /// Whether `self` lies strictly before `other`.
    pub open spec fn before(self, other: Timestamp) -> bool {
        self.seconds < other.seconds || (self.seconds == other.seconds && self.nanos
            < other.nanos)
    }

    /// Whether `self` lies before `other` or at the same instant.
    pub open spec fn at_most(self, other: Timestamp) -> bool {
        !other.before(self)
    }

    /// The instant that lies `seconds` and `nanos` past the Unix epoch.
    pub fn new(seconds: i64, nanos: u32) -> (instant: Self)
        ensures
            instant == (Timestamp { seconds, nanos }),
    {
        Timestamp { seconds, nanos }
    }

    /// Whether `self` lies strictly before `other`.
    pub fn is_before(&self, other: &Timestamp) -> (earlier: bool)
        ensures
            earlier == self.before(*other),
    {
        self.seconds < other.seconds || (self.seconds == other.seconds && self.nanos
            < other.nanos)
    }
}

/// A copy of an optional text.
fn clone_text(text: &Option<String>) -> (copy: Option<String>)
    ensures
        copy == *text,
{
    match text {
        Some(s) => Some(s.clone()),
        None => None,
    }
}

/// A directory of chat sessions.
#[derive(Debug)]
pub struct Project {
    pub name: String,
    pub last_modified: Timestamp,
    pub chat_count: usize,
}

impl Clone for Project {
    fn clone(&self) -> (copy: Self)
        ensures
            copy == *self,
    {
        Project {
            name: self.name.clone(),
            last_modified: self.last_modified,
            chat_count: self.chat_count,
        }
    }
}

/// One chat session: a file of messages.
#[derive(Debug)]
pub struct Chat {
    pub name: String,
    pub last_modified: Timestamp,
    pub message_count: usize,
}

impl Clone for Chat {
    fn clone(&self) -> (copy: Self)
        ensures
            copy == *self,
    {
        Chat {
            name: self.name.clone(),
            last_modified: self.last_modified,
            message_count: self.message_count,
        }
    }
}

/// The nested form of a message body: a role and its content.
#[derive(Debug)]
pub struct MessageInner {
    pub role: String,
    pub content: Value,
}

impl Clone for MessageInner {
    fn clone(&self) -> (copy: Self)
        ensures
            copy == *self,
    {
        MessageInner { role: self.role.clone(), content: self.content.clone() }
    }
}

/// Token counts that an assistant message reports.
#[derive(Debug)]
pub struct Usage {
    pub input_tokens: Option<u32>,
    pub output_tokens: Option<u32>,
    pub cache_creation_input_tokens: Option<u32>,
    pub cache_read_input_tokens: Option<u32>,
    pub service_tier: Option<String>,
}

impl Clone for Usage {
    fn clone(&self) -> (copy: Self)
        ensures
            copy == *self,
    {
        Usage {
            input_tokens: self.input_tokens,
            output_tokens: self.output_tokens,
            cache_creation_input_tokens: self.cache_creation_input_tokens,
            cache_read_input_tokens: self.cache_read_input_tokens,
            service_tier: clone_text(&self.service_tier),
        }
    }
}

/// One record of a chat session.
#[derive(Debug)]
pub struct Message {
    pub msg_type: String,
    pub message: Option<MessageInner>,
    pub timestamp: Timestamp,
    pub uuid: String,
    pub parent_uuid: Option<String>,
    pub is_sidechain: Option<bool>,
    pub session_id: Option<String>,
    /// The role, for messages without a nested body.
    pub role: Option<String>,
    /// The content, for messages without a nested body.
    pub content: Option<Value>,
    pub user_type: Option<String>,
    pub cwd: Option<String>,
    pub version: Option<String>,
    pub git_branch: Option<String>,
    pub is_meta: Option<bool>,
    pub request_id: Option<String>,
    pub model: Option<String>,
    pub usage: Option<Usage>,
    pub stop_reason: Option<String>,
    pub stop_sequence: Option<String>,
}

impl Clone for Message {
    fn clone(&self) -> (copy: Self)
        ensures
            copy == *self,
    {
        Message {
            msg_type: self.msg_type.clone(),
            message: match &self.message {
                Some(inner) => Some(inner.clone()),
                None => None,
            },
            timestamp: self.timestamp,
            uuid: self.uuid.clone(),
            parent_uuid: clone_text(&self.parent_uuid),
            is_sidechain: self.is_sidechain,
            session_id: clone_text(&self.session_id),
            role: clone_text(&self.role),
            content: match &self.content {
                Some(value) => Some(value.clone()),
                None => None,
            },
            user_type: clone_text(&self.user_type),
            cwd: clone_text(&self.cwd),
            version: clone_text(&self.version),
            git_branch: clone_text(&self.git_branch),
            is_meta: self.is_meta,
            request_id: clone_text(&self.request_id),
            model: clone_text(&self.model),
            usage: match &self.usage {
                Some(usage) => Some(usage.clone()),
                None => None,
            },
            stop_reason: clone_text(&self.stop_reason),
            stop_sequence: clone_text(&self.stop_sequence),
        }
    }
}

/// A message with its place in the thread hierarchy.
#[derive(Debug)]
pub struct HierarchicalMessage {
    pub message: Message,
    /// Whether the message starts a thread: it has no parent, or none that
    /// is among the messages.
    pub is_initial: bool,
    /// The number of parent hops from the message to the start of its thread.
    pub chain_depth: usize,
    /// Whether another message names this one as its parent.
    pub has_continuation: bool,
}

impl Clone for HierarchicalMessage {
    fn clone(&self) -> (copy: Self)
        ensures
            copy == *self,
    {
        HierarchicalMessage {
            message: self.message.clone(),
            is_initial: self.is_initial,
            chain_depth: self.chain_depth,
            has_continuation: self.has_continuation,
        }
    }
}

impl HierarchicalMessage {
    /// A node for `message` that no other message continues yet.
    pub fn new(message: Message, is_initial: bool, chain_depth: usize) -> (node: Self)
        ensures
            node.message == message,
            node.is_initial == is_initial,
            node.chain_depth == chain_depth,
            !node.has_continuation,
    {
        Self { message, is_initial, chain_depth, has_continuation: false }
    }
}

} // verus!
