//! Building an agent: its settings while they are gathered, and what they
//! become once the tools are registered.
use vstd::prelude::*;

use crate::agent::MAX_TOOL_TURNS;
use crate::error::Error;
use crate::tool::{names_distinct, names_of, rearranges, strictly_sorted, ToolRegistry};

verus! {

/// An agent's settings while it is being built: its model override, its
/// system prompt, its tools (each with its name) and its turn cap.
#[derive(Clone)]
pub struct AgentConfig<T> {
    model: Option<String>,
    system_prompt: Option<String>,
    tools: Vec<(String, T)>,
    max_tool_turns: usize,
}

/// A built agent's settings: its tool registry and the rest, carried over.
pub struct AgentSetup<T> {
    /// The registered tools, sorted by name.
    pub tools: ToolRegistry<T>,
    /// The model id sent with each request, if overridden.
    pub model: Option<String>,
    /// The system prompt prepended to every conversation, if any.
    pub system_prompt: Option<String>,
    /// The cap on provider round-trips per invocation.
    pub max_tool_turns: usize,
}

impl<T> AgentConfig<T> {
    /// The model override.
    pub closed spec fn model(self) -> Option<String> {
        self.model
    }

    /// The system prompt.
    pub closed spec fn system_prompt(self) -> Option<String> {
        self.system_prompt
    }

    /// The tools attached so far, in the order they were attached.
    pub closed spec fn tools(self) -> Seq<(String, T)> {
        self.tools@
    }

    /// The turn cap.
    pub closed spec fn max_tool_turns(self) -> nat {
        self.max_tool_turns as nat
    }

    /// No model override, no system prompt, no tools, and the default cap
    /// [`MAX_TOOL_TURNS`].
    pub fn new() -> (r: Self)
        ensures
            r.model() is None,
            r.system_prompt() is None,
            r.tools().len() == 0,
            r.max_tool_turns() == MAX_TOOL_TURNS,
    {
        AgentConfig { model: None, system_prompt: None, tools: Vec::new(), max_tool_turns: MAX_TOOL_TURNS }
    }

    /// Sets the system prompt prepended to every conversation.
    pub fn with_system_prompt<P: Into<String>>(self, prompt: P) -> (r: Self)
        ensures
            r.system_prompt() is Some,
            call_ensures(P::into, (prompt,), r.system_prompt()->0),
            r.model() == self.model(),
            r.tools() == self.tools(),
            r.max_tool_turns() == self.max_tool_turns(),
    {
        AgentConfig { system_prompt: Some(prompt.into()), ..self }
    }

    /// Overrides the model id sent with each request.
    pub fn with_model<M: Into<String>>(self, model: M) -> (r: Self)
        ensures
            r.model() is Some,
            call_ensures(M::into, (model,), r.model()->0),
            r.system_prompt() == self.system_prompt(),
            r.tools() == self.tools(),
            r.max_tool_turns() == self.max_tool_turns(),
    {
        AgentConfig { model: Some(model.into()), ..self }
    }

    /// Attaches tools, after those already attached.
    pub fn with_tools(self, tools: Vec<(String, T)>) -> (r: Self)
        ensures
            r.tools() == self.tools() + tools@,
            r.model() == self.model(),
            r.system_prompt() == self.system_prompt(),
            r.max_tool_turns() == self.max_tool_turns(),
    {
        let AgentConfig { model, system_prompt, tools: mut attached, max_tool_turns } = self;
        let mut more = tools;
        attached.append(&mut more);
        AgentConfig { model, system_prompt, tools: attached, max_tool_turns }
    }

    /// Attaches a single tool, after those already attached.
    pub fn with_tool(self, name: String, tool: T) -> (r: Self)
        ensures
            r.tools() == self.tools().push((name, tool)),
            r.model() == self.model(),
            r.system_prompt() == self.system_prompt(),
            r.max_tool_turns() == self.max_tool_turns(),
    {
        let AgentConfig { model, system_prompt, tools: mut attached, max_tool_turns } = self;
        attached.push((name, tool));
        AgentConfig { model, system_prompt, tools: attached, max_tool_turns }
    }

    /// Caps the provider round-trips per invocation. A cap of `0` is kept,
    /// and makes every invocation fail.
    pub fn with_max_tool_turns(self, turns: usize) -> (r: Self)
        ensures
            r.max_tool_turns() == turns,
            r.model() == self.model(),
            r.system_prompt() == self.system_prompt(),
            r.tools() == self.tools(),
    {
        AgentConfig { max_tool_turns: turns, ..self }
    }

    /// Finalizes the settings: the tools go into a registry sorted by name
    /// (failing with [`Error::Config`] on a repeated name, as
    /// [`ToolRegistry::new`] does); the rest is carried over.
    pub fn build(self) -> (r: Result<AgentSetup<T>, Error>)
        ensures
            r is Ok <==> names_distinct(self.tools()),
            r matches Ok(setup) ==> {
                &&& rearranges(setup.tools.entries(), self.tools())
                &&& strictly_sorted(names_of(setup.tools.entries()))
                &&& setup.model == self.model()
                &&& setup.system_prompt == self.system_prompt()
                &&& setup.max_tool_turns == self.max_tool_turns()
            },
            r matches Err(e) ==> e is Config,
    {
        let AgentConfig { model, system_prompt, tools, max_tool_turns } = self;
        match ToolRegistry::new(tools) {
            Ok(registry) => Ok(AgentSetup { tools: registry, model, system_prompt, max_tool_turns }),
            Err(e) => Err(e),
        }
    }
}

} // verus!
