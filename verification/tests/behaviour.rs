use orko::text::{chars_of, decimal_text, is_blank, text_equal, text_less};
use orko::{
    agent_options, render_assistant_turn, ToolSpec, seed_messages, CompletionChunk, CompletionOptions, CompletionRequest,
    Content, ContentPart, ContentView, Error, Invocation, MediaSource, Message, PendingCall,
    Prompt, Role, Step, ToolCallDelta, ToolRegistry, TurnEnd, Usage,
};

fn text(m: &Message) -> &str {
    match m.content.pull() {
        ContentView::Text(t) => t,
        ContentView::Parts(_) => panic!("expected text content"),
    }
}

fn call(id: Option<&str>, name: Option<&str>, arguments: &str) -> PendingCall {
    PendingCall {
        id: id.map(String::from),
        name: name.map(String::from),
        arguments: arguments.to_string(),
    }
}

fn fragment(index: u32, id: Option<&str>, name: Option<&str>, arguments: &str) -> ToolCallDelta {
    ToolCallDelta {
        index,
        id: id.map(String::from),
        name: name.map(String::from),
        arguments: arguments.to_string(),
    }
}

fn chunk(fragments: Vec<ToolCallDelta>) -> CompletionChunk {
    CompletionChunk { tool_calls: fragments, ..Default::default() }
}

/// Ends a fresh turn fed with `chunks` and returns the dispatch.
fn dispatch_of(chunks: Vec<CompletionChunk>) -> orko::Dispatch {
    let mut turn = Invocation::new(&None, "go".into(), 1).begin_turn().unwrap();
    for c in chunks {
        turn.absorb(c);
    }
    match turn.end() {
        TurnEnd::Calls(d) => d,
        TurnEnd::Reply(t) => panic!("expected tool calls, got reply {t:?}"),
    }
}

#[test]
fn message_constructors_set_the_role() {
    assert_eq!(Message::system("s").role, Role::System);
    assert_eq!(Message::user("u").role, Role::User);
    assert_eq!(Message::assistant("a").role, Role::Assistant);
    let m = Message::tool(String::from("t"));
    assert_eq!(m.role, Role::Tool);
    assert_eq!(m.content, Content::Text("t".into()));
}

#[test]
fn media_and_part_constructors() {
    let b = MediaSource::base64("application/pdf", "aGVsbG8=");
    assert_eq!(
        b,
        MediaSource::Base64 { mime_type: "application/pdf".into(), data: "aGVsbG8=".into() }
    );
    let f = ContentPart::file(b.clone());
    assert_eq!(f, ContentPart::File { source: b, name: None });
    let i = ContentPart::image(MediaSource::url("u"));
    assert_eq!(i, ContentPart::image_url("u"));
}

#[test]
fn content_conversions() {
    let c: Content = ContentPart::text("x").into();
    assert!(matches!(c.pull(), ContentView::Parts(p) if p.len() == 1));
    let c: Content = String::from("abc").into();
    assert_eq!(c.pull(), ContentView::Text("abc"));
    let mut p: Content = vec![ContentPart::text("a")].into();
    p.push_part(ContentPart::text("b"));
    assert!(matches!(p.pull(), ContentView::Parts(ps) if ps.len() == 2));
}

#[test]
fn prompt_conversions() {
    let p: Prompt = String::from("hello").into();
    assert_eq!(p.messages, vec![Message::user("hello")]);
    let p: Prompt = Message::assistant("x").into();
    assert_eq!(p.messages, vec![Message::assistant("x")]);
    let p: Prompt = vec![Message::user("a"), Message::user("b")].into();
    assert_eq!(p.messages.len(), 2);
}

#[test]
fn request_and_option_defaults() {
    let o = CompletionOptions::default();
    assert!(o.model.is_none() && o.max_tokens.is_none() && o.tools.is_empty());
    let r = CompletionRequest::new(vec![Message::user("x")]).with_options(CompletionOptions {
        model: Some("m".into()),
        ..Default::default()
    });
    assert_eq!(r.options.model.as_deref(), Some("m"));
    assert_eq!(r.messages.len(), 1);
    assert_eq!(Usage::default(), Usage { prompt_tokens: 0, completion_tokens: 0 });
    let d = ToolCallDelta::default();
    assert_eq!(d.index, 0);
    assert!(d.id.is_none() && d.name.is_none() && d.arguments.is_empty());
}

#[test]
fn seed_puts_the_system_prompt_first() {
    let seeded = seed_messages(&Some("be brief".into()), vec![Message::user("hi")].into());
    assert_eq!(seeded.len(), 2);
    assert_eq!(seeded[0].role, Role::System);
    assert_eq!(text(&seeded[0]), "be brief");
    assert_eq!(seeded[1], Message::user("hi"));
    assert_eq!(seed_messages(&None, "hi".into()), vec![Message::user("hi")]);
}

#[test]
fn assistant_turn_rendering() {
    let calls = vec![call(Some("a"), Some("f"), "{\"x\":1}"), call(None, None, "")];
    assert_eq!(
        render_assistant_turn("", &calls),
        "[tool_call:a] f({\"x\":1})\n[tool_call] ?()"
    );
    assert_eq!(render_assistant_turn("thinking", &calls[..1]), "thinking\n[tool_call:a] f({\"x\":1})");
    assert_eq!(render_assistant_turn("only text", &[]), "only text");
}

#[test]
fn fragments_merge_by_index_whatever_their_order() {
    // Index 1 arrives before index 0, and call 0's arguments are split.
    let d = dispatch_of(vec![
        chunk(vec![fragment(1, Some("b"), Some("g"), "{}")]),
        chunk(vec![fragment(0, Some("a"), Some("f"), "{\"x\""), fragment(0, None, None, ":2}")]),
    ]);
    let conv = d.conversation();
    assert_eq!(text(conv.last().unwrap()), "[tool_call:a] f({\"x\":2})\n[tool_call:b] g({})");
}

#[test]
fn split_chunks_reassemble_the_same_call() {
    // One chunk carrying both fragments, or two chunks: the same assistant turn.
    let one = dispatch_of(vec![chunk(vec![
        fragment(0, Some("id"), Some("t"), "{\"k\":"),
        fragment(0, None, None, "\"v\"}"),
    ])]);
    let two = dispatch_of(vec![
        chunk(vec![fragment(0, Some("id"), Some("t"), "{\"k\":")]),
        chunk(vec![fragment(0, None, None, "\"v\"}")]),
    ]);
    assert_eq!(one.conversation().last(), two.conversation().last());
    assert_eq!(text(one.conversation().last().unwrap()), "[tool_call:id] t({\"k\":\"v\"})");
}

#[test]
fn blank_arguments_become_an_empty_object() {
    let tools = ToolRegistry::new(vec![("t".to_string(), ())]).unwrap();
    let d = dispatch_of(vec![chunk(vec![fragment(0, None, Some("t"), " \u{3000}\n")])]);
    match d.advance(&tools) {
        Step::Run { tool, arguments, .. } => {
            assert_eq!(tool, 0);
            assert_eq!(arguments, serde_json::Value::Object(serde_json::Map::new()));
        }
        Step::Done(_) => panic!("the call should run"),
    }
}

#[test]
fn parsed_arguments_reach_the_tool() {
    let tools = ToolRegistry::new(vec![("a".to_string(), ()), ("t".to_string(), ())]).unwrap();
    let d = dispatch_of(vec![chunk(vec![fragment(0, None, Some("t"), "{\"n\":7}")])]);
    match d.advance(&tools) {
        Step::Run { tool, arguments, .. } => {
            assert_eq!(tool, 1);
            assert_eq!(arguments["n"].as_i64(), Some(7));
        }
        Step::Done(_) => panic!("the call should run"),
    }
}

#[test]
fn failures_are_fed_back_as_tool_messages() {
    let tools = ToolRegistry::new(vec![("boom".to_string(), ())]).unwrap();
    let d = dispatch_of(vec![chunk(vec![
        fragment(0, Some("c0"), Some("nope"), "{}"),
        fragment(1, None, Some("boom"), "{"),
    ])]);
    let before = d.conversation().len();
    let inv = match d.advance(&tools) {
        Step::Done(inv) => inv,
        Step::Run { .. } => panic!("nothing can run"),
    };
    let conv = inv.conversation();
    assert_eq!(conv.len(), before + 2);
    assert_eq!(conv[before].role, Role::Tool);
    assert_eq!(text(&conv[before]), "[nope:c0] tool execution error: model called unknown tool `nope`");
    let bad = text(&conv[before + 1]);
    let prefix = "[boom] tool execution error: invalid arguments: ";
    assert!(bad.starts_with(prefix), "got {bad}");
    assert!(bad.len() > prefix.len() && bad.contains("EOF"), "got {bad}");
}

#[test]
fn tool_results_and_errors_are_recorded() {
    let tools = ToolRegistry::new(vec![("t".to_string(), ())]).unwrap();
    let d = dispatch_of(vec![chunk(vec![
        fragment(0, Some("x"), Some("t"), "{}"),
        fragment(1, Some("y"), Some("t"), "{}"),
    ])]);
    let d = match d.advance(&tools) {
        Step::Run { pending, .. } => pending.complete(Ok("42".into())),
        Step::Done(_) => panic!("first call should run"),
    };
    let d = match d.advance(&tools) {
        Step::Run { pending, .. } => pending.complete(Err(Error::ToolExecution("kaboom".into()))),
        Step::Done(_) => panic!("second call should run"),
    };
    let conv = d.conversation();
    let n = conv.len();
    assert_eq!(text(&conv[n - 2]), "[t:x] 42");
    assert_eq!(text(&conv[n - 1]), "[t:y] tool execution error: kaboom");
    assert!(matches!(d.advance(&tools), Step::Done(_)));
}

#[test]
fn zero_turn_cap_fails_at_once() {
    match Invocation::new(&None, "hi".into(), 0).begin_turn() {
        Err(Error::ToolCallDepth(0)) => {}
        Err(e) => panic!("wrong error {e:?}"),
        Ok(_) => panic!("a cap of 0 must fail"),
    }
}

#[test]
fn reply_is_the_content_when_there_is_any() {
    let mut turn = Invocation::new(&None, "hi".into(), 1).begin_turn().unwrap();
    turn.absorb(CompletionChunk { content: "an".into(), refusal: Some("no".into()), ..Default::default() });
    turn.absorb(CompletionChunk { content: "swer".into(), ..Default::default() });
    assert!(matches!(turn.end(), TurnEnd::Reply(t) if t == "answer"));
}

#[test]
fn error_descriptions() {
    assert_eq!(Error::Provider("down".into()).describe(), "provider error: down");
    assert_eq!(Error::ToolExecution("x".into()).describe(), "tool execution error: x");
    assert_eq!(Error::Config("bad".into()).describe(), "configuration error: bad");
    assert_eq!(Error::Other("plain".into()).describe(), "plain");
    assert_eq!(
        Error::ToolCallDepth(8).describe(),
        "tool-call loop still requesting tools after 8 turns"
    );
    assert_eq!(
        Error::ToolCallDepth(120).describe(),
        "tool-call loop still requesting tools after 120 turns"
    );
    let json_err = serde_json::from_str::<serde_json::Value>("{").unwrap_err();
    let d = Error::Serialization(json_err).describe();
    assert!(d.starts_with("serialization error: ") && d.len() > 21, "got {d}");
}

#[test]
fn registry_sorts_finds_and_rejects() {
    let reg = ToolRegistry::new(vec![
        ("zeta".to_string(), 1),
        ("alpha".to_string(), 2),
        ("mid".to_string(), 3),
    ])
    .unwrap();
    let names: Vec<&str> = reg.names().iter().map(|n| n.as_str()).collect();
    assert_eq!(names, ["alpha", "mid", "zeta"]);
    assert_eq!(reg.as_slice(), &[2, 3, 1]);
    assert_eq!(reg.get("mid"), Some(&3));
    assert_eq!(reg.get("zeta"), Some(&1));
    assert_eq!(reg.get("beta"), None);
    assert_eq!(reg.position("alpha"), Some(0));
    assert_eq!(reg.tool(2), Some(&1));
    assert_eq!(reg.tool(3), None);
    assert_eq!(reg.len(), 3);

    // The error names the least repeated name.
    match ToolRegistry::new(vec![
        ("b".to_string(), ()),
        ("a".to_string(), ()),
        ("b".to_string(), ()),
        ("a".to_string(), ()),
    ]) {
        Err(Error::Config(m)) => assert_eq!(m, "duplicate tool name `a`"),
        other => panic!("expected a config error, got {:?}", other.map(|r| r.len())),
    }
}

#[test]
fn text_helpers() {
    assert_eq!(chars_of("héllo"), vec!['h', 'é', 'l', 'l', 'o']);
    assert!(text_less(&chars_of("ab"), &chars_of("abc")));
    assert!(text_less(&chars_of("abc"), &chars_of("abd")));
    assert!(!text_less(&chars_of("b"), &chars_of("abc")));
    assert!(text_less(&chars_of("Z"), &chars_of("a")));
    assert!(text_equal(&chars_of("x y"), &chars_of("x y")));
    assert!(!text_equal(&chars_of("x"), &chars_of("xy")));
    assert!(is_blank(" \t\n\u{A0}"));
    assert!(is_blank(""));
    assert!(!is_blank(" {} "));
    assert_eq!(decimal_text(0), "0");
    assert_eq!(decimal_text(1234), "1234");
}

#[test]
fn agent_options_carry_the_model_and_tool_specs() {
    let spec = ToolSpec {
        name: "double".into(),
        description: "doubles x".into(),
        parameters: serde_json::Value::Object(serde_json::Map::new()),
    };
    let o = agent_options(&Some("mini".into()), vec![spec]);
    assert_eq!(o.model.as_deref(), Some("mini"));
    assert_eq!(o.tools.len(), 1);
    assert_eq!(o.tools[0].name, "double");
    assert!(o.max_tokens.is_none());
    assert!(agent_options(&None, vec![]).model.is_none());
}
