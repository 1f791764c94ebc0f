use orko::{
    CompletionChunk, CompletionRequest, Content, ContentPart, ContentView, Error, FinishReason,
    Invocation, Message, ModelRouter, Prompt, Role, StaticRouter, Step, ToolCallDelta,
    ToolRegistry, TurnEnd,
};

#[test]
fn content_push_part_promotes_text_to_parts() {
    let mut c: Content = "hi".into();
    c.push_part(ContentPart::image_url("https://example.com/cat.png"));
    let ContentView::Parts(parts) = c.pull() else {
        panic!("promoted to Parts");
    };
    assert_eq!(parts.len(), 2);
    assert!(matches!(&parts[0], ContentPart::Text { text } if text == "hi"));
    assert!(matches!(&parts[1], ContentPart::Image { .. }));

    c.push_part(ContentPart::text("more"));
    assert!(matches!(c.pull(), ContentView::Parts(p) if p.len() == 3));

    // Empty text is dropped on promotion, not kept as an empty part.
    let mut empty: Content = "".into();
    empty.push_part(ContentPart::image_url("https://example.com/cat.png"));
    assert!(matches!(empty.pull(), ContentView::Parts(p) if p.len() == 1));
}

#[test]
fn content_push_text_appends_by_variant() {
    // Onto Text: plain concatenation.
    let mut t: Content = "he".into();
    t.push_text("llo");
    assert_eq!(t.pull(), ContentView::Text("hello"));

    // Onto Parts: appended as a new text part.
    let mut p: Content = vec![ContentPart::image_url("https://example.com/cat.png")].into();
    p.push_text("caption");
    let ContentView::Parts(parts) = p.pull() else {
        panic!("still Parts");
    };
    assert_eq!(parts.len(), 2);
    assert!(matches!(&parts[1], ContentPart::Text { text } if text == "caption"));
}

#[test]
fn prompt_from_str_wraps_a_user_message() {
    let prompt: Prompt = "hi".into();
    assert_eq!(prompt.messages.len(), 1);
    assert_eq!(prompt.messages[0].role, Role::User);
}

#[test]
fn chunk_functional_update_construction() {
    let last = CompletionChunk {
        finish_reason: Some(FinishReason::ToolCalls),
        ..Default::default()
    };
    assert!(last.content.is_empty());
    assert!(last.tool_calls.is_empty());
    assert_eq!(last.finish_reason, Some(FinishReason::ToolCalls));
}

#[test]
fn static_router_ignores_request() {
    let router = StaticRouter::new("gpt-4o-mini");
    let req = CompletionRequest::new(vec![Message::user("x")]);
    assert_eq!(router.route(&req), "gpt-4o-mini");
}
