//! The agent's decisions: seeding a conversation, reassembling streamed tool
//! calls, and the tool-calling loop, broken into steps between which the
//! caller talks to the provider and runs the tools.
//!
//! A run goes: [`Invocation::begin_turn`] (fails once the turn cap is
//! spent), [`Turn::absorb`] for each streamed chunk, [`Turn::end`], then
//! [`Dispatch::advance`] and [`PendingResult::complete`] for each tool call
//! until the dispatch is done, and back to `begin_turn`.
use vstd::prelude::*;

use crate::content::Content;
use crate::error::{describes, Error};
use crate::json::{empty_json_object, empty_object_text, json_parse, parse_json, parses_to};
use crate::message::{Message, Prompt, Role};
use crate::provider::{CompletionChunk, CompletionOptions, ToolCallDelta};
use crate::text::{is_blank, is_blank_text};
use crate::tool::{names_of, ToolRegistry, ToolSpec};

verus! {

/// Default upper bound on provider round-trips per invocation.
pub const MAX_TOOL_TURNS: usize = 8;

/// One tool call reassembled from streamed [`ToolCallDelta`] fragments.
#[derive(Debug, Clone)]
pub struct PendingCall {
    /// Provider-assigned call id, if one arrived.
    pub id: Option<String>,
    /// Tool name, if one arrived.
    pub name: Option<String>,
    /// The arguments' JSON text, as assembled so far.
    pub arguments: String,
}

/// The characters of an optional text.
pub open spec fn opt_text(o: Option<String>) -> Option<Seq<char>> {
    match o {
        Some(s) => Some(s@),
        None => None,
    }
}

/// What a [`PendingCall`] holds, as plain text.
pub ghost struct CallView {
    pub id: Option<Seq<char>>,
    pub name: Option<Seq<char>>,
    pub arguments: Seq<char>,
}

impl View for PendingCall {
    type V = CallView;

    open spec fn view(&self) -> CallView {
        CallView { id: opt_text(self.id), name: opt_text(self.name), arguments: self.arguments@ }
    }
}

/// A call nothing has arrived for yet.
pub open spec fn blank_call() -> CallView {
    CallView { id: None, name: None, arguments: Seq::empty() }
}

impl Default for PendingCall {
    /// No id, no name, no arguments.
    fn default() -> (r: Self)
        ensures
            r@ == blank_call(),
    {
        PendingCall { id: None, name: None, arguments: String::new() }
    }
}

/// The calls after one more fragment: the list grows with blank calls up to
/// the fragment's index, and the call there takes the fragment's id and
/// name when it carries them and appends its arguments.
pub open spec fn apply_delta(calls: Seq<CallView>, d: ToolCallDelta) -> Seq<CallView> {
    let i: int = d.index as int;
    let grown = if calls.len() <= i {
        calls + Seq::new((i + 1 - calls.len()) as nat, |k: int| blank_call())
    } else {
        calls
    };
    grown.update(
        i,
        CallView {
            id: if d.id is Some {
                opt_text(d.id)
            } else {
                grown[i].id
            },
            name: if d.name is Some {
                opt_text(d.name)
            } else {
                grown[i].name
            },
            arguments: grown[i].arguments + d.arguments@,
        },
    )
}

/// The calls after the fragments `ds`, in order.
pub open spec fn apply_deltas(calls: Seq<CallView>, ds: Seq<ToolCallDelta>) -> Seq<CallView>
    decreases ds.len(),
{
    if ds.len() == 0 {
        calls
    } else {
        apply_delta(apply_deltas(calls, ds.drop_last()), ds.last())
    }
}

/// The arguments the fragments `ds` carry for call `i`, concatenated in order.
pub open spec fn fragments_for(ds: Seq<ToolCallDelta>, i: int) -> Seq<char>
    decreases ds.len(),
{
    if ds.len() == 0 {
        Seq::empty()
    } else {
        fragments_for(ds.drop_last(), i) + if ds.last().index as int == i {
            ds.last().arguments@
        } else {
            Seq::empty()
        }
    }
}

/// Folding fragments never drops a call, and makes room for every index a
/// fragment names; a call beyond all of them got no fragment.
proof fn lemma_fragments_reach(calls: Seq<CallView>, ds: Seq<ToolCallDelta>, i: int)
    requires
        i >= apply_deltas(calls, ds).len(),
    ensures
        calls.len() <= apply_deltas(calls, ds).len(),
        fragments_for(ds, i) == Seq::<char>::empty(),
    decreases ds.len(),
{
    if ds.len() > 0 {
        let prev = apply_deltas(calls, ds.drop_last());
        assert(prev.len() <= apply_deltas(calls, ds).len());
        lemma_fragments_reach(calls, ds.drop_last(), i);
        assert(fragments_for(ds, i) =~= fragments_for(ds.drop_last(), i));
    }
}

/// Folding fragments keeps every call already there.
proof fn lemma_fragments_grow(calls: Seq<CallView>, ds: Seq<ToolCallDelta>)
    ensures
        calls.len() <= apply_deltas(calls, ds).len(),
    decreases ds.len(),
{
    if ds.len() > 0 {
        lemma_fragments_grow(calls, ds.drop_last());
    }
}

/// Arguments streamed in pieces are reassembled by index: once the
/// fragments `ds` are folded in, call `i` holds the arguments it had, then
/// those of every fragment for index `i`, in the order they arrived.
pub proof fn lemma_arguments_reassembled(calls: Seq<CallView>, ds: Seq<ToolCallDelta>, i: int)
    requires
        0 <= i < apply_deltas(calls, ds).len(),
    ensures
        apply_deltas(calls, ds)[i].arguments == (if i < calls.len() {
            calls[i].arguments
        } else {
            Seq::empty()
        }) + fragments_for(ds, i),
    decreases ds.len(),
{
    let base = if i < calls.len() {
        calls[i].arguments
    } else {
        Seq::<char>::empty()
    };
    if ds.len() == 0 {
        assert(base + fragments_for(ds, i) =~= base);
    } else {
        let prev = apply_deltas(calls, ds.drop_last());
        let d = ds.last();
        let extra = if d.index as int == i {
            d.arguments@
        } else {
            Seq::<char>::empty()
        };
        if i < prev.len() {
            lemma_arguments_reassembled(calls, ds.drop_last(), i);
            assert(base + fragments_for(ds, i) =~= base + fragments_for(ds.drop_last(), i) + extra);
        } else {
            lemma_fragments_reach(calls, ds.drop_last(), i);
            lemma_fragments_grow(calls, ds.drop_last());
            assert(base =~= Seq::<char>::empty());
            assert(fragments_for(ds, i) =~= extra);
        }
    }
}

/// How fragments are split across chunks does not matter: folding two
/// batches one after the other is folding them all at once.
pub proof fn lemma_fragments_compose(
    calls: Seq<CallView>,
    first: Seq<ToolCallDelta>,
    second: Seq<ToolCallDelta>,
)
    ensures
        apply_deltas(apply_deltas(calls, first), second) == apply_deltas(calls, first + second),
    decreases second.len(),
{
    if second.len() == 0 {
        assert(first + second =~= first);
    } else {
        lemma_fragments_compose(calls, first, second.drop_last());
        assert((first + second).drop_last() =~= first + second.drop_last());
    }
}

/// One fragment changes only the call it names: the list grows to hold
/// that index (calls added on the way hold nothing), every other call stays
/// as it was, and the named call takes the fragment's id and name when the
/// fragment carries them (keeping its own otherwise) and gets the fragment's
/// arguments appended to its own.
pub proof fn lemma_fragment_updates_its_call(calls: Seq<CallView>, d: ToolCallDelta)
    ensures
        ({
            let r = apply_delta(calls, d);
            let i = d.index as int;
            let old_id = if i < calls.len() { calls[i].id } else { None };
            let old_name = if i < calls.len() { calls[i].name } else { None };
            let old_args = if i < calls.len() { calls[i].arguments } else { Seq::<char>::empty() };
            &&& r.len() == if i < calls.len() { calls.len() as int } else { i + 1 }
            &&& forall|j: int|
                0 <= j < r.len() && j != i ==> #[trigger] r[j] == if j < calls.len() {
                    calls[j]
                } else {
                    CallView { id: None, name: None, arguments: Seq::empty() }
                }
            &&& r[i].arguments == old_args + d.arguments@
            &&& r[i].id == match d.id {
                Some(x) => Some(x@),
                None => old_id,
            }
            &&& r[i].name == match d.name {
                Some(x) => Some(x@),
                None => old_name,
            }
        }),
{
}

/// The views of `calls`.
pub open spec fn call_views(calls: Seq<PendingCall>) -> Seq<CallView> {
    calls.map_values(|c: PendingCall| c@)
}

/// Folds one fragment into `calls`.
fn merge_delta(calls: &mut Vec<PendingCall>, delta: ToolCallDelta)
    ensures
        call_views(final(calls)@) == apply_delta(call_views(old(calls)@), delta),
{
    let ghost before = call_views(calls@);
    let i: usize = delta.index as usize;
    while calls.len() <= i
        invariant
            i == delta.index,
            before.len() <= calls@.len(),
            before.len() < calls@.len() ==> calls@.len() <= i + 1,
            forall|k: int| 0 <= k < before.len() ==> #[trigger] calls@[k]@ == before[k],
            forall|k: int| before.len() <= k < calls@.len() ==> #[trigger] calls@[k]@ == blank_call(),
        decreases i + 1 - calls@.len(),
    {
        calls.push(PendingCall::default());
    }
    let ghost grown = call_views(calls@);
    let ToolCallDelta { index: _, id, name, arguments } = delta;
    let mut call = PendingCall::default();
    calls.set_and_swap(i, &mut call);
    if id.is_some() {
        call.id = id;
    }
    if name.is_some() {
        call.name = name;
    }
    call.arguments.append(arguments.as_str());
    calls.set(i, call);
    proof {
        let expected = apply_delta(before, delta);
        assert(grown =~= (if before.len() <= i {
            before + Seq::new((i + 1 - before.len()) as nat, |k: int| blank_call())
        } else {
            before
        }));
        assert(call_views(calls@) =~= expected);
    }
}

/// The reply a turn without tool calls gives: its content, or its refusal
/// when the content is empty.
pub open spec fn reply_text(content: Seq<char>, refusal: Seq<char>) -> Seq<char> {
    if content.len() == 0 {
        refusal
    } else {
        content
    }
}

/// How one call is shown in the assistant's turn.
pub open spec fn call_line(c: CallView) -> Seq<char> {
    let name = match c.name {
        Some(n) => n,
        None => "?"@,
    };
    match c.id {
        Some(id) => "[tool_call:"@ + id + "] "@ + name + "("@ + c.arguments + ")"@,
        None => "[tool_call] "@ + name + "("@ + c.arguments + ")"@,
    }
}

/// The assistant's turn as recorded in the conversation: its content, then
/// one line per call, lines separated by a newline.
pub open spec fn rendered_turn(content: Seq<char>, calls: Seq<CallView>) -> Seq<char>
    decreases calls.len(),
{
    if calls.len() == 0 {
        content
    } else {
        let before = rendered_turn(content, calls.drop_last());
        let sep = if before.len() == 0 {
            Seq::empty()
        } else {
            "\n"@
        };
        before + sep + call_line(calls.last())
    }
}

/// The assistant's turn shows its text first, then one line per call in
/// order, each on a line of its own: `[tool_call:ID] NAME(ARGS)`, or
/// `[tool_call] NAME(ARGS)` without an id, with `?` for a missing name.
pub proof fn lemma_rendered_turn_lines(content: Seq<char>, calls: Seq<CallView>, c: CallView)
    ensures
        rendered_turn(content, Seq::empty()) == content,
        rendered_turn(content, calls).take(content.len() as int) == content,
        rendered_turn(content, calls).len() >= content.len(),
        ({
            let before = rendered_turn(content, calls);
            let name = match c.name {
                Some(n) => n,
                None => "?"@,
            };
            let line = match c.id {
                Some(id) => "[tool_call:"@ + id + "] "@ + name + "("@ + c.arguments + ")"@,
                None => "[tool_call] "@ + name + "("@ + c.arguments + ")"@,
            };
            rendered_turn(content, calls.push(c)) == before + (if before.len() == 0 {
                Seq::empty()
            } else {
                "\n"@
            }) + line
        }),
    decreases calls.len(),
{
    assert(calls.push(c).drop_last() =~= calls);
    if calls.len() > 0 {
        lemma_rendered_turn_lines(content, calls.drop_last(), calls.last());
        let b = rendered_turn(content, calls.drop_last());
        let r = rendered_turn(content, calls);
        assert(r.take(content.len() as int) =~= b.take(content.len() as int));
    } else {
        assert(content.take(content.len() as int) =~= content);
    }
}

/// Renders the assistant's turn: `content`, then one line per call.
pub fn render_assistant_turn(content: &str, calls: &[PendingCall]) -> (r: String)
    ensures
        r@ == rendered_turn(content@, call_views(calls@)),
{
    let mut out = String::from(content);
    let mut i: usize = 0;
    while i < calls.len()
        invariant
            i <= calls@.len(),
            out@ == rendered_turn(content@, call_views(calls@.take(i as int))),
        decreases calls@.len() - i,
    {
        let ghost before = out@;
        if !out.as_str().is_empty() {
            out.append("\n");
        }
        let call = &calls[i];
        let name: &str = match &call.name {
            Some(n) => n.as_str(),
            None => "?",
        };
        match &call.id {
            Some(id) => {
                out.append("[tool_call:");
                out.append(id.as_str());
                out.append("] ");
            },
            None => {
                out.append("[tool_call] ");
            },
        }
        out.append(name);
        out.append("(");
        out.append(call.arguments.as_str());
        out.append(")");
        proof {
            reveal_strlit("\n");
            reveal_strlit("?");
            let s = call_views(calls@.take(i + 1));
            assert(s.drop_last() =~= call_views(calls@.take(i as int)));
            assert(s.last() == calls@[i as int]@);
            assert(out@ =~= rendered_turn(content@, s));
        }
        i = i + 1;
    }
    assert(calls@.take(calls@.len() as int) =~= calls@);
    out
}

/// The conversation an invocation starts from: the system prompt (if any),
/// then the prompt's messages.
pub open spec fn seeded(system_prompt: Option<String>, prompt: Seq<Message>) -> Seq<Message> {
    match system_prompt {
        Some(sp) => seq![Message { role: Role::System, content: Content::Text(sp) }] + prompt,
        None => prompt,
    }
}

/// Seeding keeps the whole prompt: the conversation holds one message more
/// than the prompt when there is a system prompt (the system message, first)
/// and as many otherwise, and after that first message it is every prompt
/// message, in order.
pub proof fn lemma_seed_keeps_history(system_prompt: Option<String>, prompt: Seq<Message>)
    ensures
        seeded(system_prompt, prompt).len() == prompt.len() + if system_prompt is Some {
            1int
        } else {
            0int
        },
        seeded(system_prompt, prompt).skip(seeded(system_prompt, prompt).len() - prompt.len()) == prompt,
        system_prompt matches Some(sp) ==> seeded(system_prompt, prompt)[0] == (Message {
            role: Role::System,
            content: Content::Text(sp),
        }),
{
    let s = seeded(system_prompt, prompt);
    assert(s.skip(s.len() - prompt.len()) =~= prompt);
}

/// The system prompt (if any) followed by the prompt's messages.
pub fn seed_messages(system_prompt: &Option<String>, prompt: Prompt) -> (r: Vec<Message>)
    ensures
        r@ == seeded(*system_prompt, prompt.messages@),
        r@.len() == prompt.messages@.len() + if system_prompt is Some {
            1int
        } else {
            0int
        },
        r@.skip(r@.len() - prompt.messages@.len()) == prompt.messages@,
        *system_prompt matches Some(sp) ==> r@[0] == (Message { role: Role::System, content: Content::Text(sp) }),
{
    proof {
        lemma_seed_keeps_history(*system_prompt, prompt.messages@);
    }
    let mut messages: Vec<Message> = Vec::new();
    if let Some(sp) = system_prompt {
        messages.push(Message::system(sp.clone()));
    }
    let mut rest = prompt.messages;
    messages.append(&mut rest);
    messages
}

/// The options an agent sends with every request: its model override (if
/// any) and the specs of its registered tools; nothing else is set.
pub fn agent_options(model: &Option<String>, specs: Vec<ToolSpec>) -> (r: CompletionOptions)
    ensures
        r.model == *model,
        r.tools@ == specs@,
        r.max_tokens is None,
{
    let model = match model {
        Some(m) => Some(m.clone()),
        None => None,
    };
    CompletionOptions { model, max_tokens: None, tools: specs }
}

/// `m` is a plain-text message from `role` holding `text`.
pub open spec fn is_text_message(m: Message, role: Role, text: Seq<char>) -> bool {
    &&& m.role == role
    &&& m.content is Text
    &&& m.content->Text_0@ == text
}

/// A conversation in progress, between provider round-trips.
pub struct Invocation {
    messages: Vec<Message>,
    turns_taken: usize,
    max_turns: usize,
}

impl Invocation {
    #[verifier::type_invariant]
    spec fn within_cap(self) -> bool {
        self.turns_taken <= self.max_turns
    }

    /// The conversation so far.
    pub closed spec fn messages(self) -> Seq<Message> {
        self.messages@
    }

    /// How many provider round-trips have been started.
    pub closed spec fn turns_taken(self) -> nat {
        self.turns_taken as nat
    }

    /// How many provider round-trips are allowed.
    pub closed spec fn max_turns(self) -> nat {
        self.max_turns as nat
    }

    /// Starts an invocation from the system prompt (if any) and the prompt,
    /// allowing `max_turns` provider round-trips.
    pub fn new(system_prompt: &Option<String>, prompt: Prompt, max_turns: usize) -> (r: Self)
        ensures
            r.messages() == seeded(*system_prompt, prompt.messages@),
            r.turns_taken() == 0,
            r.max_turns() == max_turns,
    {
        Invocation { messages: seed_messages(system_prompt, prompt), turns_taken: 0, max_turns }
    }

    /// The conversation so far.
    pub fn conversation(&self) -> (r: &Vec<Message>)
        ensures
            r@ == self.messages(),
    {
        &self.messages
    }

    /// Starts the next provider round-trip, or fails with
    /// [`Error::ToolCallDepth`] once `max_turns` of them have been started.
    pub fn begin_turn(self) -> (r: Result<Turn, Error>)
        ensures
            r is Ok <==> self.turns_taken() < self.max_turns(),
            r matches Ok(t) ==> began(self, t),
            r matches Ok(t) ==> t.turns_taken() <= t.max_turns(),
            r matches Err(e) ==> e matches Error::ToolCallDepth(n) && n == self.max_turns(),
    {
        proof {
            use_type_invariant(&self);
        }
        if self.turns_taken < self.max_turns {
            let Invocation { messages, turns_taken, max_turns } = self;
            let invocation = Invocation { messages, turns_taken: turns_taken + 1, max_turns };
            let turn = Turn { invocation, content: String::new(), refusal: String::new(), calls: Vec::new() };
            assert(turn.calls() =~= Seq::<CallView>::empty());
            assert(turn.content() =~= Seq::<char>::empty());
            assert(turn.refusal() =~= Seq::<char>::empty());
            Ok(turn)
        } else {
            Err(Error::ToolCallDepth(self.max_turns))
        }
    }
}

/// What [`Invocation::begin_turn`] gives when the cap allows: a turn on
/// the same conversation, counted, with nothing streamed yet.
pub open spec fn began(inv: Invocation, t: Turn) -> bool {
    &&& inv.turns_taken() < inv.max_turns()
    &&& t.messages() == inv.messages()
    &&& t.turns_taken() == inv.turns_taken() + 1
    &&& t.max_turns() == inv.max_turns()
    &&& t.content() == Seq::<char>::empty()
    &&& t.refusal() == Seq::<char>::empty()
    &&& t.calls() == Seq::<CallView>::empty()
}

/// What [`Turn::end`] does: without tool calls the reply (the content, or
/// the refusal when the content is empty); with some, the assistant's
/// rendered turn is recorded and the calls are handed on from the first.
pub open spec fn ended(t: Turn, r: TurnEnd) -> bool {
    &&& t.calls().len() == 0 ==> (r matches TurnEnd::Reply(text) && text@ == reply_text(
        t.content(),
        t.refusal(),
    ))
    &&& t.calls().len() > 0 ==> (r matches TurnEnd::Calls(d) && {
        &&& d.messages().len() == t.messages().len() + 1
        &&& d.messages().drop_last() == t.messages()
        &&& is_text_message(d.messages().last(), Role::Assistant, rendered_turn(t.content(), t.calls()))
        &&& d.calls() == t.calls()
        &&& d.next() == 0
        &&& d.turns_taken() == t.turns_taken()
        &&& d.max_turns() == t.max_turns()
    })
}

/// An invocation makes at most `max_turns` provider round-trips. Along a
/// run, `starts[i]` is the invocation the `i`-th turn began from (the
/// fresh one first), and each later start came out of the previous turn's
/// dispatch, which keeps the counts (see [`lemma_turn_answers_every_call`]):
/// then the `i`-th turn is round-trip number `i + 1`, and there are no more
/// turns than the cap (none at all with a cap of 0).
pub proof fn lemma_round_trips_bounded(starts: Seq<Invocation>, turns: Seq<Turn>)
    requires
        starts.len() == turns.len(),
        starts.len() > 0 ==> starts[0].turns_taken() == 0,
        forall|i: int| 0 <= i < turns.len() ==> began(#[trigger] starts[i], turns[i]),
        forall|i: int|
            0 <= i < turns.len() - 1 ==> (#[trigger] starts[i + 1]).turns_taken() == turns[i].turns_taken()
                && starts[i + 1].max_turns() == turns[i].max_turns(),
    ensures
        forall|i: int|
            0 <= i < turns.len() ==> (#[trigger] turns[i]).turns_taken() == i + 1 && turns[i].max_turns()
                == starts[0].max_turns(),
        starts.len() > 0 ==> turns.len() <= starts[0].max_turns(),
        starts.len() > 0 && starts[0].max_turns() == 0 ==> turns.len() == 0,
    decreases turns.len(),
{
    if turns.len() > 0 {
        let n = turns.len() - 1;
        let ps = starts.take(n);
        let pt = turns.take(n);
        assert forall|i: int| 0 <= i < pt.len() implies began(#[trigger] ps[i], pt[i]) by {
            assert(began(starts[i], turns[i]));
        }
        assert forall|i: int| 0 <= i < pt.len() - 1 implies (#[trigger] ps[i + 1]).turns_taken()
            == pt[i].turns_taken() && ps[i + 1].max_turns() == pt[i].max_turns() by {
            assert(starts[i + 1].turns_taken() == turns[i].turns_taken());
        }
        lemma_round_trips_bounded(ps, pt);
        assert(began(starts[n], turns[n]));
        if n > 0 {
            assert(pt[n - 1] == turns[n - 1]);
            assert(starts[n].turns_taken() == turns[n - 1].turns_taken());
        }
        assert forall|i: int| 0 <= i < turns.len() implies (#[trigger] turns[i]).turns_taken() == i + 1
            && turns[i].max_turns() == starts[0].max_turns() by {
            if i < n {
                assert(pt[i] == turns[i]);
            }
        }
    }
}

/// `after` is `before` with `chunk` folded in: the conversation and counts
/// kept, the text, refusal and calls as [`absorbed`] gives them.
pub open spec fn absorbed_into(before: Turn, after: Turn, chunk: CompletionChunk) -> bool {
    &&& after.messages() == before.messages()
    &&& after.turns_taken() == before.turns_taken()
    &&& after.max_turns() == before.max_turns()
    &&& (after.content(), after.refusal(), after.calls()) == absorbed(
        before.content(),
        before.refusal(),
        before.calls(),
        chunk,
    )
}

/// The text of `chunks`, concatenated.
pub open spec fn joined_contents(chunks: Seq<CompletionChunk>) -> Seq<char>
    decreases chunks.len(),
{
    if chunks.len() == 0 {
        Seq::empty()
    } else {
        joined_contents(chunks.drop_last()) + chunks.last().content@
    }
}

/// The refusal text of `chunks`, concatenated (a chunk without one adds nothing).
pub open spec fn joined_refusals(chunks: Seq<CompletionChunk>) -> Seq<char>
    decreases chunks.len(),
{
    if chunks.len() == 0 {
        Seq::empty()
    } else {
        joined_refusals(chunks.drop_last()) + match chunks.last().refusal {
            Some(r) => r@,
            None => Seq::empty(),
        }
    }
}

/// The tool-call fragments of `chunks`, in the order they arrived.
pub open spec fn joined_fragments(chunks: Seq<CompletionChunk>) -> Seq<ToolCallDelta>
    decreases chunks.len(),
{
    if chunks.len() == 0 {
        Seq::empty()
    } else {
        joined_fragments(chunks.drop_last()) + chunks.last().tool_calls@
    }
}

/// A whole turn's stream folds as one: after a fresh turn takes `chunks`
/// in order (`turns[i + 1]` is `turns[i]` with `chunks[i]` folded in), its
/// text is the chunks' text concatenated, its refusal their refusals
/// concatenated, and its calls those of all their fragments; reasoning,
/// finish reasons and usage play no part. When no chunk carries a
/// tool-call fragment there are no calls, and ending the turn replies with
/// the text, or the refusals when the text is empty.
pub proof fn lemma_turn_fold(turns: Seq<Turn>, chunks: Seq<CompletionChunk>)
    requires
        turns.len() == chunks.len() + 1,
        turns[0].content() == Seq::<char>::empty(),
        turns[0].refusal() == Seq::<char>::empty(),
        turns[0].calls() == Seq::<CallView>::empty(),
        forall|i: int| 0 <= i < chunks.len() ==> absorbed_into(#[trigger] turns[i], turns[i + 1], chunks[i]),
    ensures
        turns.last().content() == joined_contents(chunks),
        turns.last().refusal() == joined_refusals(chunks),
        turns.last().calls() == apply_deltas(Seq::empty(), joined_fragments(chunks)),
        turns.last().messages() == turns[0].messages(),
        turns.last().turns_taken() == turns[0].turns_taken(),
        turns.last().max_turns() == turns[0].max_turns(),
        joined_fragments(chunks).len() == 0 ==> turns.last().calls().len() == 0,
        forall|r: TurnEnd|
            #[trigger] ended(turns.last(), r) && joined_fragments(chunks).len() == 0 ==> (r matches TurnEnd::Reply(
                text,
            ) && text@ == reply_text(joined_contents(chunks), joined_refusals(chunks))),
        forall|r: TurnEnd|
            #[trigger] ended(turns.last(), r) && joined_fragments(chunks).len() == 0 ==> (r matches TurnEnd::Reply(
                text,
            ) && (joined_contents(chunks).len() > 0 ==> text@ == joined_contents(chunks)) && (
            joined_contents(chunks).len() == 0 ==> text@ == joined_refusals(chunks))),
    decreases chunks.len(),
{
    if chunks.len() > 0 {
        let n = chunks.len() - 1;
        let pt = turns.take(n + 1);
        let pc = chunks.take(n);
        assert forall|i: int| 0 <= i < pc.len() implies absorbed_into(#[trigger] pt[i], pt[i + 1], pc[i]) by {
            assert(absorbed_into(turns[i], turns[i + 1], chunks[i]));
        }
        lemma_turn_fold(pt, pc);
        assert(pc =~= chunks.drop_last());
        assert(pt.last() == turns[n]);
        assert(absorbed_into(turns[n], turns[n + 1], chunks[n]));
        lemma_fragments_compose(Seq::empty(), joined_fragments(pc), chunks[n].tool_calls@);
        if joined_fragments(chunks).len() == 0 {
            assert(joined_fragments(pc).len() == 0);
            assert(chunks[n].tool_calls@.len() == 0);
            assert(joined_fragments(pc) + chunks[n].tool_calls@ =~= Seq::<ToolCallDelta>::empty());
        }
    }
}

/// One provider round-trip in progress: the conversation sent, and what has
/// streamed back so far.
pub struct Turn {
    invocation: Invocation,
    content: String,
    refusal: String,
    calls: Vec<PendingCall>,
}

/// The text, refusal and calls of a turn after `chunk`.
pub open spec fn absorbed(
    content: Seq<char>,
    refusal: Seq<char>,
    calls: Seq<CallView>,
    chunk: CompletionChunk,
) -> (Seq<char>, Seq<char>, Seq<CallView>) {
    (
        content + chunk.content@,
        match chunk.refusal {
            Some(r) => refusal + r@,
            None => refusal,
        },
        apply_deltas(calls, chunk.tool_calls@),
    )
}

impl Turn {
    /// The conversation sent for this turn.
    pub closed spec fn messages(self) -> Seq<Message> {
        self.invocation.messages()
    }

    /// Round-trips started, this one included.
    pub closed spec fn turns_taken(self) -> nat {
        self.invocation.turns_taken()
    }

    /// Round-trips allowed.
    pub closed spec fn max_turns(self) -> nat {
        self.invocation.max_turns()
    }

    /// The text streamed so far.
    pub closed spec fn content(self) -> Seq<char> {
        self.content@
    }

    /// The refusal text streamed so far.
    pub closed spec fn refusal(self) -> Seq<char> {
        self.refusal@
    }

    /// The tool calls reassembled so far.
    pub closed spec fn calls(self) -> Seq<CallView> {
        call_views(self.calls@)
    }

    /// The conversation to send for this turn.
    pub fn conversation(&self) -> (r: &Vec<Message>)
        ensures
            r@ == self.messages(),
    {
        self.invocation.conversation()
    }

    /// Folds one streamed chunk into the turn: its text and refusal are
    /// appended, its tool-call fragments merged by index.
    pub fn absorb(&mut self, chunk: CompletionChunk)
        ensures
            absorbed_into(*old(self), *final(self), chunk),
    {
        let ghost start = call_views(self.calls@);
        let ghost invocation = self.invocation;
        let ghost content0 = self.content@;
        let ghost refusal0 = self.refusal@;
        let CompletionChunk { content, reasoning: _, refusal, tool_calls, finish_reason: _, usage: _ } =
            chunk;
        self.content.append(content.as_str());
        if let Some(r) = &refusal {
            self.refusal.append(r.as_str());
        }
        let ghost deltas = tool_calls@;
        let mut rest = tool_calls;
        let mut k: usize = 0;
        let n: usize = rest.len();
        assert(deltas.skip(0) =~= deltas);
        assert(deltas.take(0) =~= Seq::<ToolCallDelta>::empty());
        while k < n
            invariant
                n == deltas.len(),
                k <= n,
                rest@ == deltas.skip(k as int),
                self.invocation == invocation,
                self.content@ == content0 + chunk.content@,
                self.refusal@ == (match chunk.refusal {
                    Some(r) => refusal0 + r@,
                    None => refusal0,
                }),
                call_views(self.calls@) == apply_deltas(start, deltas.take(k as int)),
            decreases n - k,
        {
            let d = rest.remove(0);
            assert(deltas.skip(k as int).drop_first() =~= deltas.skip(k + 1));
            merge_delta(&mut self.calls, d);
            assert(deltas.take(k + 1).drop_last() =~= deltas.take(k as int));
            k = k + 1;
        }
        assert(deltas.take(n as int) =~= deltas);
    }

    /// Takes one item of the provider's stream. A chunk is folded in and the
    /// turn goes on; an error ends the invocation with that error (a
    /// provider's failures are not fed back to the model) and the turn is
    /// left as it was.
    pub fn receive(&mut self, item: Result<CompletionChunk, Error>) -> (r: Option<Error>)
        ensures
            match item {
                Ok(chunk) => r is None && absorbed_into(*old(self), *final(self), chunk),
                Err(e) => r == Some(e) && *final(self) == *old(self),
            },
    {
        match item {
            Ok(chunk) => {
                self.absorb(chunk);
                None
            },
            Err(e) => Some(e),
        }
    }

    /// Ends the turn once the stream is exhausted. Without tool calls the
    /// turn's reply is the answer; with some, the assistant's turn is
    /// recorded and the calls are handed on for dispatch.
    pub fn end(self) -> (r: TurnEnd)
        ensures
            ended(self, r),
    {
        let Turn { invocation, content, refusal, calls } = self;
        if calls.len() == 0 {
            if content.as_str().is_empty() {
                TurnEnd::Reply(refusal)
            } else {
                TurnEnd::Reply(content)
            }
        } else {
            let text = render_assistant_turn(content.as_str(), calls.as_slice());
            proof {
                use_type_invariant(&invocation);
            }
            let Invocation { mut messages, turns_taken, max_turns } = invocation;
            let ghost before = messages@;
            messages.push(Message::assistant(text));
            assert(messages@.drop_last() =~= before);
            let invocation = Invocation { messages, turns_taken, max_turns };
            TurnEnd::Calls(Dispatch { invocation, calls, next: 0 })
        }
    }
}

/// How a turn ended.
pub enum TurnEnd {
    /// The model answered without calling tools: the invocation's result.
    Reply(String),
    /// The model called tools; they are dispatched next.
    Calls(Dispatch),
}

/// The name a call is dispatched by (empty when none arrived).
pub open spec fn call_name(c: CallView) -> Seq<char> {
    match c.name {
        Some(n) => n,
        None => Seq::empty(),
    }
}

/// The prefix of the tool message that answers `c`: `[name:id] `, or
/// `[name] ` without an id.
pub open spec fn result_label(c: CallView) -> Seq<char> {
    match c.id {
        Some(id) => "["@ + call_name(c) + ":"@ + id + "] "@,
        None => "["@ + call_name(c) + "] "@,
    }
}

/// No registered tool carries the call's name.
pub open spec fn is_unknown_tool(names: Seq<Seq<char>>, c: CallView) -> bool {
    !names.contains(call_name(c))
}

/// The call's arguments neither are blank nor parse as JSON.
pub open spec fn has_bad_arguments(c: CallView) -> bool {
    !is_blank_text(c.arguments) && json_parse(c.arguments) is Err
}

/// The JSON value a runnable call's tool is handed: its arguments parsed,
/// or an empty object when they are blank.
pub open spec fn call_arguments(c: CallView) -> serde_json::Value {
    if is_blank_text(c.arguments) {
        json_parse(empty_object_text())->Ok_0
    } else {
        json_parse(c.arguments)->Ok_0
    }
}

/// The call cannot be run: unknown tool, or unparseable arguments.
pub open spec fn call_fails(names: Seq<Seq<char>>, c: CallView) -> bool {
    is_unknown_tool(names, c) || has_bad_arguments(c)
}

/// The tool message fed back for a call that cannot be run, telling the
/// model what went wrong so it can correct itself.
pub open spec fn failure_text(names: Seq<Seq<char>>, c: CallView) -> Seq<char> {
    if is_unknown_tool(names, c) {
        result_label(c) + "tool execution error: model called unknown tool `"@ + call_name(c) + "`"@
    } else {
        result_label(c) + "tool execution error: invalid arguments: "@ + json_parse(
            c.arguments,
        )->Err_0
    }
}

/// `after` is `before` followed by the failure messages of calls
/// `from..to`, in order.
pub open spec fn records_failures(
    after: Seq<Message>,
    before: Seq<Message>,
    names: Seq<Seq<char>>,
    calls: Seq<CallView>,
    from: int,
    to: int,
) -> bool {
    &&& after.len() == before.len() + (to - from)
    &&& after.take(before.len() as int) == before
    &&& forall|j: int|
        0 <= j < to - from ==> is_text_message(
            #[trigger] after[before.len() + j],
            Role::Tool,
            failure_text(names, calls[from + j]),
        )
}

/// What [`Dispatch::advance`] does with the registered tool names `names`:
/// every call from the first unhandled one that cannot be run is answered
/// with its failure, up to the first call that can be run (handed out with
/// the index of its tool) or the end of the calls.
pub open spec fn advanced(d: Dispatch, names: Seq<Seq<char>>, r: Step) -> bool {
    match r {
        Step::Done(inv) => {
            &&& records_failures(
                inv.messages(),
                d.messages(),
                names,
                d.calls(),
                d.next() as int,
                d.calls().len() as int,
            )
            &&& forall|j: int| d.next() <= j < d.calls().len() ==> call_fails(names, #[trigger] d.calls()[j])
            &&& inv.turns_taken() == d.turns_taken()
            &&& inv.max_turns() == d.max_turns()
        },
        Step::Run { tool, arguments, pending } => {
            let k: nat = pending.call_index();
            let c = d.calls()[k as int];
            &&& d.next() <= k < d.calls().len()
            &&& records_failures(pending.messages(), d.messages(), names, d.calls(), d.next() as int, k as int)
            &&& forall|j: int| d.next() <= j < k ==> call_fails(names, #[trigger] d.calls()[j])
            &&& !call_fails(names, c)
            &&& tool < names.len()
            &&& names[tool as int] == call_name(c)
            &&& arguments == call_arguments(c)
            &&& !is_blank_text(c.arguments) ==> parses_to(c.arguments, arguments)
            &&& is_blank_text(c.arguments) ==> parses_to(empty_object_text(), arguments)
            &&& pending.label() == result_label(c)
            &&& pending.calls() == d.calls()
            &&& pending.next() == k + 1
            &&& pending.turns_taken() == d.turns_taken()
            &&& pending.max_turns() == d.max_turns()
        },
    }
}

/// What [`PendingResult::complete`] does: the tool's result is recorded as
/// one more tool message, and the dispatch goes on where it was.
pub open spec fn completed(p: PendingResult, result: Result<String, Error>, d: Dispatch) -> bool {
    &&& d.messages().len() == p.messages().len() + 1
    &&& d.messages().drop_last() == p.messages()
    &&& answers(d.messages().last(), p.label(), result)
    &&& d.calls() == p.calls()
    &&& d.next() == p.next()
    &&& d.turns_taken() == p.turns_taken()
    &&& d.max_turns() == p.max_turns()
}

/// Each handed-out call is answered by exactly one tool message: across a
/// run-and-complete round the conversation keeps what it had and grows by
/// one message per call handled, and the dispatch moves past the call.
pub proof fn lemma_dispatch_round(
    d: Dispatch,
    names: Seq<Seq<char>>,
    tool: usize,
    arguments: serde_json::Value,
    pending: PendingResult,
    result: Result<String, Error>,
    after: Dispatch,
)
    requires
        advanced(d, names, Step::Run { tool, arguments, pending }),
        completed(pending, result, after),
    ensures
        after.messages().len() - after.next() == d.messages().len() - d.next(),
        after.messages().take(d.messages().len() as int) == d.messages(),
        d.next() < after.next() <= after.calls().len(),
        after.calls() == d.calls(),
        after.turns_taken() == d.turns_taken(),
        after.max_turns() == d.max_turns(),
{
    let mid = pending.messages();
    assert(mid.take(d.messages().len() as int) == d.messages());
    assert(after.messages().take(d.messages().len() as int) =~= mid.take(d.messages().len() as int));
}

/// When a dispatch is done, every call from where it stood has been
/// answered by exactly one tool message, after the messages it had.
pub proof fn lemma_dispatch_done(d: Dispatch, names: Seq<Seq<char>>, inv: Invocation)
    requires
        advanced(d, names, Step::Done(inv)),
    ensures
        inv.messages().len() == d.messages().len() + (d.calls().len() - d.next()),
        inv.messages().take(d.messages().len() as int) == d.messages(),
        inv.turns_taken() == d.turns_taken(),
        inv.max_turns() == d.max_turns(),
{
}

/// `step` hands out call number `c` (`call`) on the tool the call names,
/// with the call's arguments.
pub open spec fn runs_call(step: Step, c: int, names: Seq<Seq<char>>, call: CallView) -> bool {
    step matches Step::Run { tool, arguments, pending } && pending.call_index() == c && tool
        < names.len() && names[tool as int] == call_name(call) && arguments == call_arguments(call)
}

/// How the tool message `m` answers call number `c` (`call`) of a dispatch
/// whose advances gave `steps` and whose tools returned `results`: with its
/// failure when it cannot be run, else with the labelled result of the run
/// that was handed out for it.
pub open spec fn answered(
    names: Seq<Seq<char>>,
    call: CallView,
    c: int,
    m: Message,
    steps: Seq<Step>,
    results: Seq<Result<String, Error>>,
) -> bool {
    ||| call_fails(names, call) && is_text_message(m, Role::Tool, failure_text(names, call))
    ||| exists|i: int|
        0 <= i < results.len() && #[trigger] runs_call(steps[i], c, names, call) && answers(
            m,
            result_label(call),
            results[i],
        )
}

/// `dispatches`, `steps` and `results` are one dispatch worked through:
/// each step is what advancing the dispatch before it gave, each but the
/// last a run whose result completed the next dispatch.
pub open spec fn dispatch_chain(
    names: Seq<Seq<char>>,
    dispatches: Seq<Dispatch>,
    steps: Seq<Step>,
    results: Seq<Result<String, Error>>,
) -> bool {
    &&& dispatches.len() == steps.len()
    &&& results.len() + 1 == steps.len()
    &&& forall|i: int| 0 <= i < steps.len() ==> advanced(#[trigger] dispatches[i], names, steps[i])
    &&& forall|i: int|
        0 <= i < results.len() ==> (#[trigger] steps[i] matches Step::Run { pending, .. } && completed(
            pending,
            results[i],
            dispatches[i + 1],
        ))
}

/// What every dispatch of a chain has done so far: the messages it started
/// from, then one answer per call handled.
spec fn handled_so_far(
    names: Seq<Seq<char>>,
    d0: Dispatch,
    d: Dispatch,
    steps: Seq<Step>,
    results: Seq<Result<String, Error>>,
) -> bool {
    let base = d0.messages().len();
    &&& d.calls() == d0.calls()
    &&& d.turns_taken() == d0.turns_taken()
    &&& d.max_turns() == d0.max_turns()
    &&& d.next() <= d.calls().len()
    &&& d.messages().len() == base + d.next()
    &&& d.messages().take(base as int) == d0.messages()
    &&& forall|c: int|
        0 <= c < d.next() ==> answered(names, d0.calls()[c], c, #[trigger] d.messages()[base + c], steps, results)
}

#[verifier::rlimit(40)]
proof fn lemma_chain_prefix(
    names: Seq<Seq<char>>,
    dispatches: Seq<Dispatch>,
    steps: Seq<Step>,
    results: Seq<Result<String, Error>>,
    i: int,
)
    requires
        dispatch_chain(names, dispatches, steps, results),
        dispatches[0].next() == 0,
        0 <= i < dispatches.len(),
    ensures
        handled_so_far(names, dispatches[0], dispatches[i], steps, results),
    decreases i,
{
    let d0 = dispatches[0];
    let base = d0.messages().len();
    if i == 0 {
        assert(d0.messages().take(base as int) =~= d0.messages());
        assert(advanced(dispatches[0], names, steps[0]));
    } else {
        lemma_chain_prefix(names, dispatches, steps, results, i - 1);
        let d = dispatches[i - 1];
        let nd = dispatches[i];
        assert(advanced(dispatches[i - 1], names, steps[i - 1]));
        assert(steps[i - 1] matches Step::Run { pending, .. } && completed(pending, results[i - 1], dispatches[i]));
        let (tool, arguments, pending) = match steps[i - 1] {
            Step::Run { tool, arguments, pending } => (tool, arguments, pending),
            Step::Done(_) => arbitrary(),
        };
        let k = pending.call_index() as int;
        let pm = pending.messages();
        assert(records_failures(pm, d.messages(), names, d.calls(), d.next() as int, k));
        assert(nd.messages().drop_last() == pm);
        assert(nd.messages().take(base as int) =~= d0.messages()) by {
            assert(nd.messages().take(base as int) =~= pm.take(base as int));
            assert(pm.take(d.messages().len() as int) == d.messages());
            assert(pm.take(base as int) =~= d.messages().take(base as int));
        }
        assert(runs_call(steps[i - 1], k, names, d0.calls()[k]));
        assert forall|c: int| 0 <= c < nd.next() implies answered(
            names,
            d0.calls()[c],
            c,
            #[trigger] nd.messages()[base + c],
            steps,
            results,
        ) by {
            if c < d.next() {
                assert(pm.take(d.messages().len() as int) == d.messages());
                assert(nd.messages()[base + c] == pm[base + c]);
                assert(pm[base + c] == d.messages()[base + c]);
            } else if c < k {
                let j = c - d.next();
                assert(nd.messages()[base + c] == pm[d.messages().len() + j]);
                assert(call_fails(names, d.calls()[c]));
            } else {
                assert(nd.messages()[base + c] == nd.messages().last());
                assert(runs_call(steps[i - 1], c, names, d0.calls()[c]));
            }
        }
    }
}

/// A turn's tool calls are answered in order, one tool message each. When
/// the dispatch that [`Turn::end`] started has been worked through to
/// `done`, the conversation is the turn's, then the assistant's rendered
/// turn, then for each call in order: its failure when it cannot be run
/// (unknown tool, unparseable arguments), else the labelled result of the
/// run handed out for it (on the tool it names, with its arguments parsed).
/// The turn count is kept, so the next turn counts one more.
pub proof fn lemma_turn_answers_every_call(
    turn: Turn,
    names: Seq<Seq<char>>,
    dispatches: Seq<Dispatch>,
    steps: Seq<Step>,
    results: Seq<Result<String, Error>>,
    done: Invocation,
)
    requires
        dispatches.len() > 0,
        ended(turn, TurnEnd::Calls(dispatches[0])),
        dispatch_chain(names, dispatches, steps, results),
        steps.last() == Step::Done(done),
    ensures
        done.messages().len() == turn.messages().len() + 1 + turn.calls().len(),
        done.messages().take(turn.messages().len() as int) == turn.messages(),
        is_text_message(
            done.messages()[turn.messages().len() as int],
            Role::Assistant,
            rendered_turn(turn.content(), turn.calls()),
        ),
        forall|c: int|
            0 <= c < turn.calls().len() ==> answered(
                names,
                turn.calls()[c],
                c,
                #[trigger] done.messages()[turn.messages().len() + 1 + c],
                steps,
                results,
            ),
        done.turns_taken() == turn.turns_taken(),
        done.max_turns() == turn.max_turns(),
{
    let last = dispatches.len() - 1;
    lemma_chain_prefix(names, dispatches, steps, results, last);
    let d0 = dispatches[0];
    let d = dispatches[last];
    let base = d0.messages().len();
    assert(advanced(dispatches[last], names, steps[last]));
    let dm = done.messages();
    assert(records_failures(dm, d.messages(), names, d.calls(), d.next() as int, d.calls().len() as int));
    assert(dm.take(base as int) =~= d0.messages()) by {
        assert(dm.take(d.messages().len() as int) == d.messages());
        assert(dm.take(base as int) =~= d.messages().take(base as int));
    }
    assert(dm.take(turn.messages().len() as int) =~= turn.messages()) by {
        assert(dm.take(turn.messages().len() as int) =~= d0.messages().take(turn.messages().len() as int));
        assert(d0.messages().drop_last() =~= d0.messages().take(turn.messages().len() as int));
    }
    assert(dm[turn.messages().len() as int] == d0.messages().last()) by {
        assert(dm[turn.messages().len() as int] == dm.take(base as int)[turn.messages().len() as int]);
    }
    assert forall|c: int| 0 <= c < turn.calls().len() implies answered(
        names,
        turn.calls()[c],
        c,
        #[trigger] dm[turn.messages().len() + 1 + c],
        steps,
        results,
    ) by {
        if c < d.next() {
            assert(dm.take(d.messages().len() as int) == d.messages());
            assert(dm[base + c] == d.messages()[base + c]);
        } else {
            let j = c - d.next();
            assert(dm[base + c] == dm[d.messages().len() + j]);
            assert(call_fails(names, d.calls()[c]));
        }
    }
}

/// The tool messages' wording: a result is shown as `[NAME:ID] OUTPUT`
/// (`[NAME] OUTPUT` without an id), and a call of an unregistered name is
/// answered `... tool execution error: model called unknown tool `NAME``.
pub proof fn lemma_tool_message_wording(names: Seq<Seq<char>>, c: CallView, m: Message, out: String)
    ensures
        ({
            let name = match c.name {
                Some(n) => n,
                None => Seq::<char>::empty(),
            };
            let label = match c.id {
                Some(id) => "["@ + name + ":"@ + id + "] "@,
                None => "["@ + name + "] "@,
            };
            &&& result_label(c) == label
            &&& is_unknown_tool(names, c) <==> !names.contains(name)
            &&& is_unknown_tool(names, c) ==> failure_text(names, c) == label
                + "tool execution error: model called unknown tool `"@ + name + "`"@
            &&& answers(m, result_label(c), Ok(out)) ==> m.role == Role::Tool && m.content is Text
                && m.content->Text_0@ == label + out@
        }),
{
}

/// Tool arguments are the call's own text, parsed as it streamed in: a run
/// hands its tool the value `serde_json::from_str` makes of the call's
/// reassembled arguments (of an empty object when that text is blank), and
/// a call of a registered tool is refused exactly when its non-blank text
/// does not parse, with that text's own parse error fed back.
pub proof fn lemma_arguments_parsed_verbatim(d: Dispatch, names: Seq<Seq<char>>, step: Step)
    requires
        advanced(d, names, step),
    ensures
        step matches Step::Run { arguments, pending, .. } ==> {
            let c = d.calls()[pending.call_index() as int];
            &&& names.contains(call_name(c))
            &&& !is_blank_text(c.arguments) ==> parses_to(c.arguments, arguments)
            &&& is_blank_text(c.arguments) ==> parses_to(empty_object_text(), arguments)
        },
        forall|j: int|
            #![trigger d.calls()[j]]
            d.next() <= j < d.calls().len() && (step is Done || j < (step->pending).call_index())
                && names.contains(call_name(d.calls()[j])) ==> {
                &&& !is_blank_text(d.calls()[j].arguments)
                &&& json_parse(d.calls()[j].arguments) is Err
                &&& failure_text(names, d.calls()[j]) == result_label(d.calls()[j])
                    + "tool execution error: invalid arguments: "@ + json_parse(d.calls()[j].arguments)->Err_0
            },
{
}

/// The tool calls of a turn being worked through, in order.
pub struct Dispatch {
    invocation: Invocation,
    calls: Vec<PendingCall>,
    next: usize,
}

impl Dispatch {
    #[verifier::type_invariant]
    spec fn next_in_range(self) -> bool {
        self.next <= self.calls@.len()
    }

    /// The conversation so far.
    pub closed spec fn messages(self) -> Seq<Message> {
        self.invocation.messages()
    }

    /// Round-trips started.
    pub closed spec fn turns_taken(self) -> nat {
        self.invocation.turns_taken()
    }

    /// Round-trips allowed.
    pub closed spec fn max_turns(self) -> nat {
        self.invocation.max_turns()
    }

    /// The turn's calls.
    pub closed spec fn calls(self) -> Seq<CallView> {
        call_views(self.calls@)
    }

    /// The index of the first call not yet handled.
    pub closed spec fn next(self) -> nat {
        self.next as nat
    }

    /// The conversation so far.
    pub fn conversation(&self) -> (r: &Vec<Message>)
        ensures
            r@ == self.messages(),
    {
        self.invocation.conversation()
    }

    /// Works through the calls from the first unhandled one: each call that
    /// cannot be run (unknown tool, unparseable arguments) gets its failure
    /// fed back as a tool message; the first one that can be run is handed
    /// out with its tool and arguments. When none is left the invocation
    /// goes on to its next turn.
    pub fn advance<T>(self, tools: &ToolRegistry<T>) -> (r: Step)
        ensures
            advanced(self, names_of(tools.entries()), r),
    {
        proof {
            use_type_invariant(&self);
        }
        let ghost names = names_of(tools.entries());
        let ghost start = self.next as int;
        let ghost calls_view = call_views(self.calls@);
        let Dispatch { invocation, calls, next } = self;
        proof {
            use_type_invariant(&invocation);
        }
        let Invocation { mut messages, turns_taken, max_turns } = invocation;
        let ghost before = messages@;
        let mut k: usize = next;
        assert(messages@.take(before.len() as int) =~= before);
        while k < calls.len()
            invariant
                start <= k <= calls@.len(),
                start == self.next(),
                calls_view == self.calls(),
                before == self.messages(),
                turns_taken == self.turns_taken(),
                max_turns == self.max_turns(),
                calls_view == call_views(calls@),
                names == names_of(tools.entries()),
                turns_taken <= max_turns,
                records_failures(messages@, before, names, calls_view, start, k as int),
                forall|j: int| start <= j < k ==> call_fails(names, #[trigger] calls_view[j]),
            decreases calls@.len() - k,
        {
            let call = &calls[k];
            let name: &str = match &call.name {
                Some(n) => n.as_str(),
                None => "",
            };
            let label = result_label_text(call);
            let ghost c = calls_view[k as int];
            assert(c == call@);
            let ghost old_messages = messages@;
            match tools.position(name) {
                None => {
                    let mut text = label;
                    text.append("tool execution error: model called unknown tool `");
                    text.append(name);
                    text.append("`");
                    proof {
                        reveal_strlit("");
                        assert(name@ == call_name(c));
                        assert(!names.contains(call_name(c))) by {
                            if names.contains(call_name(c)) {
                                let q = choose|q: int| 0 <= q < names.len() && names[q] == call_name(c);
                                assert(tools.entries()[q].0@ == names[q]);
                            }
                        }
                    }
                    messages.push(Message::tool(text));
                },
                Some(index) => {
                    proof {
                        reveal_strlit("");
                        assert(name@ == call_name(c));
                        assert(names[index as int] == call_name(c));
                    }
                    let parsed = if is_blank(call.arguments.as_str()) {
                        Ok(empty_json_object())
                    } else {
                        parse_json(call.arguments.as_str())
                    };
                    match parsed {
                        Ok(arguments) => {
                            let invocation = Invocation { messages, turns_taken, max_turns };
                            let dispatch = Dispatch { invocation, calls, next: k + 1 };
                            let pending = PendingResult { dispatch, label };
                            return Step::Run { tool: index, arguments, pending };
                        },
                        Err(reason) => {
                            let mut text = label;
                            text.append("tool execution error: invalid arguments: ");
                            text.append(reason.as_str());
                            messages.push(Message::tool(text));
                        },
                    }
                },
            }
            proof {
                assert(messages@.take(before.len() as int) =~= before);
                assert forall|j: int| 0 <= j < k + 1 - start implies is_text_message(
                    #[trigger] messages@[before.len() + j],
                    Role::Tool,
                    failure_text(names, calls_view[start + j]),
                ) by {
                    if j < k - start {
                        assert(messages@[before.len() + j] == old_messages[before.len() + j]);
                    }
                }
            }
            k = k + 1;
        }
        Step::Done(Invocation { messages, turns_taken, max_turns })
    }
}

/// Builds the label `[name:id] ` (or `[name] `) for a call's result.
fn result_label_text(call: &PendingCall) -> (r: String)
    ensures
        r@ == result_label(call@),
{
    let mut out = String::from_str("[");
    match &call.name {
        Some(n) => out.append(n.as_str()),
        None => {},
    }
    match &call.id {
        Some(id) => {
            out.append(":");
            out.append(id.as_str());
            out.append("] ");
        },
        None => {
            out.append("] ");
        },
    }
    proof {
        reveal_strlit("[");
        if call.name is None {
            assert(out@.take(1) =~= "["@);
        }
    }
    out
}

/// The next thing a dispatch asks for.
pub enum Step {
    /// Run the registry's tool at `tool` on `arguments`, then hand its result
    /// to `pending`.
    Run { tool: usize, arguments: serde_json::Value, pending: PendingResult },
    /// Every call of the turn has been answered; the invocation goes on.
    Done(Invocation),
}

/// A dispatch waiting for one tool's result.
pub struct PendingResult {
    dispatch: Dispatch,
    label: String,
}

/// The tool message that answers a call with `label`, given what the tool
/// returned: its output, or the description of its error.
pub open spec fn answers(m: Message, label: Seq<char>, result: Result<String, Error>) -> bool {
    &&& m.role == Role::Tool
    &&& m.content is Text
    &&& match result {
        Ok(out) => m.content->Text_0@ == label + out@,
        Err(e) => {
            &&& m.content->Text_0@.take(label.len() as int) == label
            &&& describes(e, m.content->Text_0@.skip(label.len() as int))
        },
    }
}

impl PendingResult {
    /// The conversation so far.
    pub closed spec fn messages(self) -> Seq<Message> {
        self.dispatch.messages()
    }

    /// Round-trips started.
    pub closed spec fn turns_taken(self) -> nat {
        self.dispatch.turns_taken()
    }

    /// Round-trips allowed.
    pub closed spec fn max_turns(self) -> nat {
        self.dispatch.max_turns()
    }

    /// The turn's calls.
    pub closed spec fn calls(self) -> Seq<CallView> {
        self.dispatch.calls()
    }

    /// The index of the first call after the one being run.
    pub closed spec fn next(self) -> nat {
        self.dispatch.next()
    }

    /// The index of the call being run.
    pub closed spec fn call_index(self) -> nat {
        (self.dispatch.next() - 1) as nat
    }

    /// The prefix of the tool message that will answer the call.
    pub closed spec fn label(self) -> Seq<char> {
        self.label@
    }

    /// Records what the tool returned as a tool message (its output, or the
    /// description of its error, so the model can correct itself) and goes
    /// on with the next call.
    pub fn complete(self, result: Result<String, Error>) -> (r: Dispatch)
        ensures
            completed(self, result, r),
    {
        let PendingResult { dispatch, label } = self;
        proof {
            use_type_invariant(&dispatch);
        }
        let Dispatch { invocation, calls, next } = dispatch;
        proof {
            use_type_invariant(&invocation);
        }
        let Invocation { mut messages, turns_taken, max_turns } = invocation;
        let ghost before = messages@;
        let mut text = label;
        let ghost label_text = text@;
        match &result {
            Ok(out) => text.append(out.as_str()),
            Err(e) => {
                let detail = e.describe();
                text.append(detail.as_str());
                assert(text@.take(label_text.len() as int) =~= label_text);
                assert(text@.skip(label_text.len() as int) =~= detail@);
            },
        }
        messages.push(Message::tool(text));
        assert(messages@.drop_last() =~= before);
        let invocation = Invocation { messages, turns_taken, max_turns };
        Dispatch { invocation, calls, next }
    }
}

} // verus!
