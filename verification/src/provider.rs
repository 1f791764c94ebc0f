//! The value types that travel between an agent and a provider: the
//! [`CompletionRequest`] that is sent, and the [`CompletionChunk`]s of the
//! streamed answer.
use vstd::prelude::*;

use crate::message::Message;
use crate::tool::ToolSpec;

verus! {

/// Per-request knobs. All optional; a provider falls back to its defaults if not set.
#[derive(Debug, Clone)]
pub struct CompletionOptions {
    /// Model identifier, e.g. `"gpt-4o-mini"`. `None` means "provider default".
    pub model: Option<String>,
    /// Maximum tokens to generate.
    pub max_tokens: Option<u32>,
    /// Tools the model may call this turn.
    pub tools: Vec<ToolSpec>,
}

impl Default for CompletionOptions {
    /// No model, no token cap, no tools.
    fn default() -> (r: Self)
        ensures
            r.model is None,
            r.max_tokens is None,
            r.tools@.len() == 0,
    {
        CompletionOptions { model: None, max_tokens: None, tools: Vec::new() }
    }
}

/// A single completion request: the conversation and its options.
#[derive(Debug, Clone)]
pub struct CompletionRequest {
    /// The full message history to complete against.
    pub messages: Vec<Message>,
    /// Request options.
    pub options: CompletionOptions,
}

impl CompletionRequest {
    /// Builds a request from messages with default options.
    pub fn new(messages: Vec<Message>) -> (r: Self)
        ensures
            r.messages == messages,
            r.options.model is None,
            r.options.max_tokens is None,
            r.options.tools@.len() == 0,
    {
        CompletionRequest { messages, options: CompletionOptions::default() }
    }

    /// Sets the request options, returning `self` for chaining.
    pub fn with_options(self, options: CompletionOptions) -> (r: Self)
        ensures
            r.messages == self.messages,
            r.options == options,
    {
        CompletionRequest { messages: self.messages, options }
    }
}

/// One incremental piece of a streamed completion.
#[derive(Debug, Clone)]
pub struct CompletionChunk {
    /// The text delta carried by this chunk (may be empty).
    pub content: String,
    /// Reasoning/thinking delta.
    pub reasoning: Option<String>,
    /// Refusal-text delta; some providers stream refusals in a dedicated field.
    pub refusal: Option<String>,
    /// Tool-call fragments carried by this chunk.
    pub tool_calls: Vec<ToolCallDelta>,
    /// Present on the final chunk: why generation stopped.
    pub finish_reason: Option<FinishReason>,
    /// Present on the final chunk if the provider reports token usage.
    pub usage: Option<Usage>,
}

impl Default for CompletionChunk {
    /// A chunk that carries nothing.
    fn default() -> (r: Self)
        ensures
            r.content@.len() == 0,
            r.reasoning is None,
            r.refusal is None,
            r.tool_calls@.len() == 0,
            r.finish_reason is None,
            r.usage is None,
    {
        CompletionChunk {
            content: String::new(),
            reasoning: None,
            refusal: None,
            tool_calls: Vec::new(),
            finish_reason: None,
            usage: None,
        }
    }
}

/// A fragment of a streamed tool call.
///
/// `id` and `name` typically arrive once, in the first fragment; `arguments`
/// is a JSON string streamed in pieces. Consumers accumulate fragments by
/// `index` until the stream ends, then parse the assembled JSON.
#[derive(Debug, Clone)]
pub struct ToolCallDelta {
    /// Which concurrent tool call this fragment belongs to.
    pub index: u32,
    /// Provider-assigned call id (first fragment only).
    pub id: Option<String>,
    /// Tool name (first fragment only).
    pub name: Option<String>,
    /// Incremental JSON fragment of the arguments.
    pub arguments: String,
}

impl Default for ToolCallDelta {
    /// Index 0, no id, no name, empty arguments.
    fn default() -> (r: Self)
        ensures
            r.index == 0,
            r.id is None,
            r.name is None,
            r.arguments@.len() == 0,
    {
        ToolCallDelta { index: 0, id: None, name: None, arguments: String::new() }
    }
}

/// Why the model stopped generating.
#[derive(Debug, Clone, Copy, PartialEq, Eq, Structural)]
#[non_exhaustive]
pub enum FinishReason {
    /// Natural end of the response.
    Stop,
    /// Hit the `max_tokens` limit: output is truncated.
    Length,
    /// The model wants tool results before continuing.
    ToolCalls,
    /// The provider filtered the content.
    ContentFilter,
}

/// Token counts for a completion, usually reported on the final chunk.
#[derive(Debug, Clone, Copy, PartialEq, Eq, Structural)]
pub struct Usage {
    /// Tokens in the prompt.
    pub prompt_tokens: u32,
    /// Tokens generated.
    pub completion_tokens: u32,
}

impl Default for Usage {
    /// Zero tokens either way.
    fn default() -> (r: Self)
        ensures
            r.prompt_tokens == 0,
            r.completion_tokens == 0,
    {
        Usage { prompt_tokens: 0, completion_tokens: 0 }
    }
}

} // verus!
