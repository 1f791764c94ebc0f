//! Agent orchestration core.
pub mod agent;
pub mod builder;
pub mod content;
pub mod error;
pub mod json;
pub mod message;
pub mod provider;
pub mod router;
pub mod text;
pub mod tool;

pub use agent::{
    agent_options, render_assistant_turn, seed_messages, Dispatch, Invocation, PendingCall, PendingResult, Step, Turn, TurnEnd,
    MAX_TOOL_TURNS,
};
pub use builder::{AgentConfig, AgentSetup};
pub use content::{Content, ContentPart, ContentView, MediaSource};
pub use error::{Error, Result};
pub use message::{Message, Prompt, Role};
pub use provider::{CompletionChunk, CompletionOptions, CompletionRequest, FinishReason, ToolCallDelta, Usage};
pub use router::{ModelRouter, StaticRouter};
pub use tool::{ToolRegistry, ToolSpec};
