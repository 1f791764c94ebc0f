//! Model routing: pick a model for a given request.
use vstd::prelude::*;

use crate::provider::CompletionRequest;

verus! {

/// Selects which model should serve a request.
///
/// Returns a model id string; wiring the chosen id back onto the request is
/// the caller's job.
pub trait ModelRouter: Send + Sync {
    /// Choose a model id for `request`.
    fn route(&self, request: &CompletionRequest) -> String;
}

/// A router that always returns the same model, ignoring the request.
pub struct StaticRouter {
    model: String,
}

impl StaticRouter {
    /// The model this router is pinned to.
    pub closed spec fn model(self) -> String {
        self.model
    }

    /// Creates a router pinned to `model`.
    pub fn new<M: Into<String>>(model: M) -> (r: Self)
        ensures
            call_ensures(M::into, (model,), r.model()),
    {
        StaticRouter { model: model.into() }
    }
}

impl ModelRouter for StaticRouter {
    /// The pinned model, whatever the request.
    fn route(&self, request: &CompletionRequest) -> (r: String)
        ensures
            r == self.model(),
    {
        self.model.clone()
    }
}

} // verus!
