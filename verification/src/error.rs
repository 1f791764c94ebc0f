//! Error and result types shared across the toolkit.
use vstd::prelude::*;

use crate::json::json_error_text;
use crate::text::{decimal, decimal_text};

verus! {

/// The one error type surfaced by the library.
///
/// Downstream crates map their transport and protocol failures into these
/// variants (usually [`Error::Provider`]) so callers have a single error
/// surface.
#[derive(Debug)]
#[non_exhaustive]
pub enum Error {
    /// A provider (HTTP client, in-process engine, ...) failed to produce a completion.
    Provider(String),
    /// (De)serialization of a request, response or tool payload failed.
    Serialization(serde_json::Error),
    /// A tool returned an error while executing.
    ToolExecution(String),
    /// Invalid or missing configuration (bad model id, duplicate tool name, ...).
    Config(String),
    /// The tool-call loop was still requesting tools when the turn cap (the
    /// number carried) was reached.
    ToolCallDepth(usize),
    /// Anything that does not fit the categories above.
    Other(String),
}

/// Crate-wide result alias.
pub type Result<T> = std::result::Result<T, Error>;

/// The message of a [`Error::ToolCallDepth`] for a cap of `turns`.
pub open spec fn depth_message(turns: nat) -> Seq<char> {
    "tool-call loop still requesting tools after "@ + decimal(turns) + " turns"@
}

/// `text` is the description of `e`: the variant's prefix followed by its
/// detail. For [`Error::Serialization`] only the prefix is fixed here; the
/// detail is the JSON error's own text.
pub open spec fn describes(e: Error, text: Seq<char>) -> bool {
    match e {
        Error::Provider(m) => text == "provider error: "@ + m@,
        Error::Serialization(_) => text.take(21) == "serialization error: "@,
        Error::ToolExecution(m) => text == "tool execution error: "@ + m@,
        Error::Config(m) => text == "configuration error: "@ + m@,
        Error::ToolCallDepth(n) => text == depth_message(n as nat),
        Error::Other(m) => text == m@,
    }
}

/// The wording of descriptions: each is its kind's prefix then the
/// message it carries (`tool execution error: kaboom`), the cap error names
/// the cap in decimal, and a free-form error is its message alone.
pub proof fn lemma_description_wording(e: Error, text: Seq<char>)
    requires
        describes(e, text),
    ensures
        e matches Error::Provider(m) ==> text == "provider error: "@ + m@,
        e matches Error::ToolExecution(m) ==> text == "tool execution error: "@ + m@,
        e matches Error::Config(m) ==> text == "configuration error: "@ + m@,
        e matches Error::Other(m) ==> text == m@,
        e matches Error::ToolCallDepth(n) ==> text == "tool-call loop still requesting tools after "@
            + decimal(n as nat) + " turns"@,
        e is Serialization ==> text.take(21) == "serialization error: "@,
{
}

impl Error {
    /// The human-readable description of the error, the text its `Display`
    /// shows.
    pub fn describe(&self) -> (r: String)
        ensures
            describes(*self, r@),
    {
        match self {
            Error::Provider(m) => {
                let mut r = String::from_str("provider error: ");
                r.append(m.as_str());
                r
            },
            Error::Serialization(e) => {
                let prefix = "serialization error: ";
                proof {
                    reveal_strlit("serialization error: ");
                }
                let mut r = String::from_str(prefix);
                let detail = json_error_text(e);
                r.append(detail.as_str());
                assert(r@.take(21) =~= prefix@);
                r
            },
            Error::ToolExecution(m) => {
                let mut r = String::from_str("tool execution error: ");
                r.append(m.as_str());
                r
            },
            Error::Config(m) => {
                let mut r = String::from_str("configuration error: ");
                r.append(m.as_str());
                r
            },
            Error::ToolCallDepth(n) => {
                let mut r = String::from_str("tool-call loop still requesting tools after ");
                let digits = decimal_text(*n);
                r.append(digits.as_str());
                r.append(" turns");
                r
            },
            Error::Other(m) => String::from_str(m.as_str()),
        }
    }
}

} // verus!
