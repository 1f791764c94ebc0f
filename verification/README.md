# orko

The core of an agent-orchestration toolkit: messages and their content, the
values exchanged with a model provider, a name-indexed tool registry, and the
agent's tool-calling loop. The code under `src/` is verified with Verus,
resting on these trusted items, whose contracts are assumed:

- in `src/json.rs`: the declared types `serde_json::Value` and
  `serde_json::Error`; the wrappers `parse_json` (`serde_json::from_str`,
  its outcome named `json_parse`), `empty_json_object` and `json_error_text`;
  the specification of `serde_json::Value::clone`;
- in `src/text.rs`: the specifications of `String::from(&str)` and of the
  reflexive `From`.

- `src/content.rs`, `src/message.rs`: `Content` (text or typed parts),
  `ContentPart`, `MediaSource`, `Message`, `Role`, `Prompt`.
- `src/provider.rs`: `CompletionRequest`, `CompletionOptions`, the streamed
  `CompletionChunk` and `ToolCallDelta`, `FinishReason`, `Usage`.
- `src/tool.rs`: `ToolSpec` and `ToolRegistry`, which sorts tools by name,
  rejects repeated names and finds a tool by binary search.
- `src/agent.rs`: the loop as steps: `Invocation` (turn cap),
  `Turn` (folds streamed chunks, reassembling tool calls by index),
  `Dispatch` and `PendingResult` (each tool call answered by exactly one tool
  message, failures fed back to the model).
- `src/builder.rs`: `AgentConfig` (the settings an agent is built from, with
  the default turn cap) and `AgentSetup` (what `build` makes of them).
- `src/router.rs`: `ModelRouter` and `StaticRouter`.
- `src/error.rs`, `src/json.rs`, `src/text.rs`: the error type and its
  descriptions, the `serde_json` calls, text order and rendering helpers.

`app/` holds the asynchronous edge: the `Provider` and `Tool` traits, the
`Agent` and its builder, which await the provider and the tools and hand each
result to the verified steps, the provider-side request (which also carries a
sampling temperature), and serde/thiserror copies of the message and error
types for the wire format.
