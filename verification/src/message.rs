//! Message types: System / User / Assistant / Tool.
use vstd::prelude::*;
use vstd::string::StringExecFns;

use crate::ffi;

verus! {

/// Role of a message in the conversation.
#[derive(Debug, Clone, Copy, PartialEq, Eq, Hash, Structural)]
pub enum Role {
    /// System prompt (set model behavior).
    System,
    /// User turn.
    User,
    /// Model turn. May contain text and/or tool calls.
    Assistant,
    /// Tool result. `tool_call_id` must be set.
    Tool,
}

/// The wire-format name of a role.
pub open spec fn role_name(role: Role) -> Seq<char> {
    match role {
        Role::System => "system"@,
        Role::User => "user"@,
        Role::Assistant => "assistant"@,
        Role::Tool => "tool"@,
    }
}

impl Role {
    /// Wire-format string the chat templates expect.
    pub fn as_str(&self) -> (s: &'static str)
        ensures
            s@ == role_name(*self),
    {
        match self {
            Role::System => "system",
            Role::User => "user",
            Role::Assistant => "assistant",
            Role::Tool => "tool",
        }
    }
}

/// A single message in a chat conversation.
#[derive(Debug)]
pub struct Message {
    /// Role discriminator.
    pub role: Role,
    /// Text content of the message. Empty for assistant turns that
    /// contain only tool calls.
    pub content: String,
    /// For `Role::Tool`: the id of the tool call this result belongs to.
    pub tool_call_id: String,
    /// For `Role::Tool`: the name of the tool (some chat templates
    /// require it, e.g. llama-3 `<tool_result name="...">`).
    pub tool_name: String,
    /// For `Role::Assistant`: a JSON array of tool call objects emitted
    /// by the model. Empty for plain text turns.
    pub tool_calls_json: String,
}

/// `m` is a plain message of role `role` with text `content`: no tool
/// call id, tool name or tool calls.
pub open spec fn is_plain_message(m: Message, role: Role, content: Seq<char>) -> bool {
    &&& m.role == role
    &&& m.content@ == content
    &&& m.tool_call_id@ == Seq::<char>::empty()
    &&& m.tool_name@ == Seq::<char>::empty()
    &&& m.tool_calls_json@ == Seq::<char>::empty()
}

impl Clone for Message {
    fn clone(&self) -> (r: Message)
        ensures
            r == *self,
    {
        Message {
            role: self.role,
            content: self.content.clone(),
            tool_call_id: self.tool_call_id.clone(),
            tool_name: self.tool_name.clone(),
            tool_calls_json: self.tool_calls_json.clone(),
        }
    }
}

impl Message {
    fn plain(role: Role, content: &str) -> (m: Message)
        ensures
            is_plain_message(m, role, content@),
    {
        Message {
            role,
            content: String::from_str(content),
            tool_call_id: String::new(),
            tool_name: String::new(),
            tool_calls_json: String::new(),
        }
    }

    /// Construct a system message.
    pub fn system(content: &str) -> (m: Message)
        ensures
            is_plain_message(m, Role::System, content@),
    {
        Message::plain(Role::System, content)
    }

    /// Construct a user message.
    pub fn user(content: &str) -> (m: Message)
        ensures
            is_plain_message(m, Role::User, content@),
    {
        Message::plain(Role::User, content)
    }

    /// Construct an assistant text message.
    pub fn assistant(content: &str) -> (m: Message)
        ensures
            is_plain_message(m, Role::Assistant, content@),
    {
        Message::plain(Role::Assistant, content)
    }

    /// Attach raw `tool_calls_json` to an assistant message. Used by
    /// the harness when echoing tool calls back into the conversation.
    pub fn with_tool_calls_json(self, s: &str) -> (m: Message)
        ensures
            m.tool_calls_json@ == s@,
            m.role == self.role,
            m.content == self.content,
            m.tool_call_id == self.tool_call_id,
            m.tool_name == self.tool_name,
    {
        let mut m = self;
        m.tool_calls_json = String::from_str(s);
        m
    }

    /// Construct a tool result message.
    pub fn tool_result(tool_call_id: &str, tool_name: &str, content: &str) -> (m: Message)
        ensures
            m.role == Role::Tool,
            m.content@ == content@,
            m.tool_call_id@ == tool_call_id@,
            m.tool_name@ == tool_name@,
            m.tool_calls_json@ == Seq::<char>::empty(),
    {
        Message {
            role: Role::Tool,
            content: String::from_str(content),
            tool_call_id: String::from_str(tool_call_id),
            tool_name: String::from_str(tool_name),
            tool_calls_json: String::new(),
        }
    }

    /// Convert to the engine's record.
    pub fn to_ffi(&self) -> (r: ffi::ChatMessage)
        ensures
            r.role@ == role_name(self.role),
            r.content == self.content,
            r.tool_call_id == self.tool_call_id,
            r.tool_name == self.tool_name,
            r.tool_calls_json == self.tool_calls_json,
    {
        ffi::ChatMessage {
            role: String::from_str(self.role.as_str()),
            content: self.content.clone(),
            tool_call_id: self.tool_call_id.clone(),
            tool_name: self.tool_name.clone(),
            tool_calls_json: self.tool_calls_json.clone(),
        }
    }
}

} // verus!
