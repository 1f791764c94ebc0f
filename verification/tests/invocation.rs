use orko::{
    agent_options, AgentConfig, AgentSetup, CompletionChunk, CompletionOptions, ContentView,
    Error, FinishReason, Invocation, Message, Prompt, Role, Step, ToolCallDelta, TurnEnd,
};
use std::cell::Cell;

type ToolFn = fn(&serde_json::Value) -> Result<String, Error>;

type Script<'a> =
    &'a dyn Fn(usize, &[Message], &CompletionOptions) -> Result<Vec<Result<CompletionChunk, Error>>, Error>;

/// Drives an invocation the way an agent does: one provider round-trip per
/// turn, each tool call run as the dispatch hands it out.
fn drive(setup: &AgentSetup<ToolFn>, prompt: Prompt, provider: Script<'_>) -> Result<String, Error> {
    let tools = &setup.tools;
    let mut invocation = Invocation::new(&setup.system_prompt, prompt, setup.max_tool_turns);
    let mut turn_no = 0;
    loop {
        let mut turn = invocation.begin_turn()?;
        let options = agent_options(&setup.model, vec![]);
        let chunks = provider(turn_no, turn.conversation(), &options)?;
        turn_no += 1;
        for chunk in chunks {
            if let Some(e) = turn.receive(chunk) {
                return Err(e);
            }
        }
        let mut dispatch = match turn.end() {
            TurnEnd::Reply(text) => return Ok(text),
            TurnEnd::Calls(d) => d,
        };
        invocation = loop {
            match dispatch.advance(tools) {
                Step::Done(inv) => break inv,
                Step::Run { tool, arguments, pending } => {
                    let f = tools.tool(tool).unwrap();
                    dispatch = pending.complete(f(&arguments));
                }
            }
        };
    }
}

fn text_of(m: &Message) -> Option<&str> {
    match m.content.pull() {
        ContentView::Text(t) => Some(t),
        ContentView::Parts(_) => None,
    }
}

fn delta(index: u32, id: Option<&str>, name: Option<&str>, arguments: &str) -> ToolCallDelta {
    ToolCallDelta {
        index,
        id: id.map(|s| s.to_string()),
        name: name.map(|s| s.to_string()),
        arguments: arguments.to_string(),
    }
}

fn never(_: &serde_json::Value) -> Result<String, Error> {
    panic!("wrong tool dispatched")
}

fn double(args: &serde_json::Value) -> Result<String, Error> {
    let mut expected = serde_json::Map::new();
    expected.insert("x".to_string(), serde_json::Value::from(3));
    assert_eq!(args, &serde_json::Value::Object(expected));
    Ok((args["x"].as_i64().unwrap() * 2).to_string())
}

fn noop(_: &serde_json::Value) -> Result<String, Error> {
    Ok(String::new())
}

fn boom(_: &serde_json::Value) -> Result<String, Error> {
    Err(Error::ToolExecution("kaboom".into()))
}

#[test]
fn invoke_runs_the_tool_call_loop() {
    let setup = AgentConfig::new()
        .with_tools(vec![("zeta".to_string(), never as ToolFn), ("alpha".to_string(), never as ToolFn)])
        .with_tool("double".to_string(), double as ToolFn)
        .build()
        .unwrap();
    let names: Vec<_> = setup.tools.names().iter().map(|n| n.as_str()).collect();
    assert_eq!(names, ["alpha", "double", "zeta"]);

    let script = |turn: usize, messages: &[Message], _: &CompletionOptions| -> Result<Vec<Result<CompletionChunk, Error>>, Error> {
        Ok(match turn {
            0 => vec![
                Ok(CompletionChunk {
                    tool_calls: vec![delta(0, Some("c1"), Some("double"), r#"{"x":"#)],
                    ..Default::default()
                }),
                Ok(CompletionChunk {
                    tool_calls: vec![delta(0, None, None, "3}")],
                    finish_reason: Some(FinishReason::ToolCalls),
                    ..Default::default()
                }),
            ],
            _ => {
                assert!(messages.iter().any(|m| m.role == Role::Assistant
                    && m.content.pull() == ContentView::Text(r#"[tool_call:c1] double({"x":3})"#)));
                assert!(messages.iter().any(|m| m.role == Role::Tool
                    && m.content.pull() == ContentView::Text("[double:c1] 6")));
                vec![Ok(CompletionChunk { content: "six".into(), ..Default::default() })]
            }
        })
    };
    assert_eq!(drive(&setup, "hi".into(), &script).unwrap(), "six");
}

#[test]
fn refusal_only_turn_is_not_an_empty_success() {
    let setup: AgentSetup<ToolFn> = AgentConfig::new().build().unwrap();
    let script = |_: usize, _: &[Message], _: &CompletionOptions| -> Result<Vec<Result<CompletionChunk, Error>>, Error> {
        Ok(vec![Ok(CompletionChunk { refusal: Some("no can do".into()), ..Default::default() })])
    };
    assert_eq!(drive(&setup, "hi".into(), &script).unwrap(), "no can do");
}

#[test]
fn invoke_errors_when_turn_cap_exhausted() {
    let setup = AgentConfig::new()
        .with_tool("noop".to_string(), noop as ToolFn)
        .with_max_tool_turns(2)
        .build()
        .unwrap();
    let calls = Cell::new(0);
    let script = |_: usize, _: &[Message], _: &CompletionOptions| -> Result<Vec<Result<CompletionChunk, Error>>, Error> {
        calls.set(calls.get() + 1);
        Ok(vec![Ok(CompletionChunk {
            tool_calls: vec![delta(0, None, Some("noop"), "{}")],
            ..Default::default()
        })])
    };
    let err = drive(&setup, "hi".into(), &script).unwrap_err();
    assert!(matches!(err, Error::ToolCallDepth(_)), "got: {err:?}");
    assert_eq!(calls.get(), 2);
}

#[test]
fn tool_failures_feed_back_for_self_correction() {
    let setup = AgentConfig::new().with_tool("boom".to_string(), boom as ToolFn).build().unwrap();
    let script = |turn: usize, messages: &[Message], _: &CompletionOptions| -> Result<Vec<Result<CompletionChunk, Error>>, Error> {
        Ok(match turn {
            0 => vec![Ok(CompletionChunk {
                tool_calls: vec![
                    delta(0, None, Some("nope"), "{}"),
                    delta(1, None, Some("boom"), "{"),
                    delta(2, None, Some("boom"), "{}"),
                ],
                finish_reason: Some(FinishReason::ToolCalls),
                ..Default::default()
            })],
            _ => {
                let tool_results: Vec<&str> = messages
                    .iter()
                    .filter(|m| m.role == Role::Tool)
                    .filter_map(text_of)
                    .collect();
                assert!(tool_results.iter().any(|c| c.contains("unknown tool `nope`")));
                assert!(tool_results.iter().any(|c| c.contains("invalid arguments")));
                assert!(tool_results.iter().any(|c| c.contains("tool execution error: kaboom")));
                vec![Ok(CompletionChunk { content: "recovered".into(), ..Default::default() })]
            }
        })
    };
    assert_eq!(drive(&setup, "hi".into(), &script).unwrap(), "recovered");
}

#[test]
fn duplicate_tool_names_rejected_at_build() {
    let err = match AgentConfig::new()
        .with_tools(vec![("dup".to_string(), noop as ToolFn), ("dup".to_string(), noop as ToolFn)])
        .build()
    {
        Ok(_) => panic!("duplicate tool names were accepted"),
        Err(e) => e,
    };
    assert!(matches!(err, Error::Config(_)), "got: {err:?}");
}

#[test]
fn cloned_builder_templates_multiple_agents() {
    // An echoing provider answers with the model it was asked for.
    let echo = |_: usize, _: &[Message], options: &CompletionOptions| -> Result<Vec<Result<CompletionChunk, Error>>, Error> {
        Ok(vec![Ok(CompletionChunk {
            content: options.model.clone().unwrap_or_default(),
            ..Default::default()
        })])
    };
    let base: AgentConfig<ToolFn> = AgentConfig::new().with_system_prompt("terse");
    let fast = base.clone().with_model("mini").build().unwrap();
    let smart = base.with_model("maxi").build().unwrap();
    assert_eq!(drive(&fast, "hi".into(), &echo).unwrap(), "mini");
    assert_eq!(drive(&smart, "hi".into(), &echo).unwrap(), "maxi");
    assert_eq!(fast.system_prompt.as_deref(), Some("terse"));
}

#[test]
fn builder_defaults_and_zero_cap() {
    let setup: AgentSetup<ToolFn> = AgentConfig::new().build().unwrap();
    assert_eq!(setup.max_tool_turns, orko::MAX_TOOL_TURNS);
    assert!(setup.model.is_none() && setup.system_prompt.is_none());
    assert_eq!(setup.tools.len(), 0);

    let never_called = |_: usize, _: &[Message], _: &CompletionOptions| -> Result<Vec<Result<CompletionChunk, Error>>, Error> {
        panic!("a cap of 0 must not reach the provider")
    };
    let zero: AgentSetup<ToolFn> = AgentConfig::new().with_max_tool_turns(0).build().unwrap();
    assert!(matches!(drive(&zero, "hi".into(), &never_called), Err(Error::ToolCallDepth(0))));
}

#[test]
fn provider_stream_errors_end_the_run() {
    let setup: AgentSetup<ToolFn> = AgentConfig::new().build().unwrap();
    let failing = |_: usize, _: &[Message], _: &CompletionOptions| -> Result<Vec<Result<CompletionChunk, Error>>, Error> {
        Ok(vec![
            Ok(CompletionChunk { content: "partial".into(), ..Default::default() }),
            Err(Error::Provider("connection reset".into())),
        ])
    };
    assert!(matches!(drive(&setup, "hi".into(), &failing), Err(Error::Provider(m)) if m == "connection reset"));
}
