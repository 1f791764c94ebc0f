//! Conversation primitives: [`Role`], [`Message`], and the [`Prompt`] input type.
use vstd::prelude::*;

use crate::content::Content;

verus! {

/// The author of a [`Message`].
#[derive(Debug, Clone, Copy, PartialEq, Eq, Structural)]
pub enum Role {
    /// System / developer instructions that steer the assistant.
    System,
    /// Input from the end user.
    User,
    /// Output from the model.
    Assistant,
    /// The result of a tool call, fed back into the conversation.
    Tool,
}

/// A single turn in a conversation.
#[derive(Debug, Clone, PartialEq, Eq)]
pub struct Message {
    /// Who authored this message.
    pub role: Role,
    /// The message content: plain text or typed parts.
    pub content: Content,
}

impl Message {
    /// Builds a [`Role::System`] message.
    pub fn system<C: Into<Content>>(content: C) -> (r: Self)
        ensures
            r.role == Role::System,
            call_ensures(C::into, (content,), r.content),
    {
        Message { role: Role::System, content: content.into() }
    }

    /// Builds a [`Role::User`] message.
    pub fn user<C: Into<Content>>(content: C) -> (r: Self)
        ensures
            r.role == Role::User,
            call_ensures(C::into, (content,), r.content),
    {
        Message { role: Role::User, content: content.into() }
    }

    /// Builds a [`Role::Assistant`] message.
    pub fn assistant<C: Into<Content>>(content: C) -> (r: Self)
        ensures
            r.role == Role::Assistant,
            call_ensures(C::into, (content,), r.content),
    {
        Message { role: Role::Assistant, content: content.into() }
    }

    /// Builds a [`Role::Tool`] message.
    pub fn tool<C: Into<Content>>(content: C) -> (r: Self)
        ensures
            r.role == Role::Tool,
            call_ensures(C::into, (content,), r.content),
    {
        Message { role: Role::Tool, content: content.into() }
    }
}

/// The input to an agent invocation: a bare string (the common case, one
/// user message) or a full message history.
#[derive(Debug, Clone)]
pub struct Prompt {
    /// The messages to send, in order.
    pub messages: Vec<Message>,
}

impl From<&str> for Prompt {
    /// One user message holding `s`.
    fn from(s: &str) -> (r: Self)
        ensures
            r.messages@.len() == 1,
            r.messages@[0].role == Role::User,
            r.messages@[0].content is Text,
            r.messages@[0].content->Text_0@ == s@,
    {
        let mut messages: Vec<Message> = Vec::new();
        messages.push(Message::user(s));
        Prompt { messages }
    }
}

impl vstd::std_specs::convert::FromSpecImpl<&str> for Prompt {
    // A `Vec` has no spec-level constructor, so the conversion is described
    // by the postcondition of `from` instead.
    open spec fn obeys_from_spec() -> bool {
        false
    }

    open spec fn from_spec(v: &str) -> Self {
        arbitrary()
    }
}

impl From<String> for Prompt {
    /// One user message holding `s`.
    fn from(s: String) -> (r: Self)
        ensures
            r.messages@ == seq![Message { role: Role::User, content: Content::Text(s) }],
    {
        let mut messages: Vec<Message> = Vec::new();
        messages.push(Message::user(s));
        Prompt { messages }
    }
}

impl vstd::std_specs::convert::FromSpecImpl<String> for Prompt {
    // A `Vec` has no spec-level constructor, so the conversion is described
    // by the postcondition of `from` instead.
    open spec fn obeys_from_spec() -> bool {
        false
    }

    open spec fn from_spec(v: String) -> Self {
        arbitrary()
    }
}

impl From<Message> for Prompt {
    /// The single message `m`.
    fn from(m: Message) -> (r: Self)
        ensures
            r.messages@ == seq![m],
    {
        let mut messages: Vec<Message> = Vec::new();
        messages.push(m);
        Prompt { messages }
    }
}

impl vstd::std_specs::convert::FromSpecImpl<Message> for Prompt {
    // A `Vec` has no spec-level constructor, so the conversion is described
    // by the postcondition of `from` instead.
    open spec fn obeys_from_spec() -> bool {
        false
    }

    open spec fn from_spec(v: Message) -> Self {
        arbitrary()
    }
}

impl From<Vec<Message>> for Prompt {
    /// The given history, unchanged.
    fn from(messages: Vec<Message>) -> (r: Self)
        ensures
            r.messages == messages,
    {
        Prompt { messages }
    }
}

impl vstd::std_specs::convert::FromSpecImpl<Vec<Message>> for Prompt {
    open spec fn obeys_from_spec() -> bool {
        true
    }

    open spec fn from_spec(v: Vec<Message>) -> Self {
        Prompt { messages: v }
    }
}

} // verus!
