//! The few `serde_json` operations the library relies on: parsing tool-call
//! arguments and carrying JSON values and errors through.
use vstd::prelude::*;

use serde_json::Error as JsonError;

verus! {

#[verifier::external_type_specification]
#[verifier::external_body]
pub struct ExJsonValue(serde_json::Value);

#[verifier::external_type_specification]
#[verifier::external_body]
pub struct ExJsonError(JsonError);

/// `serde_json::Value::clone`, a derived deep copy: the copy is claimed
/// equal to the value it copies.
pub assume_specification[ <serde_json::Value as std::clone::Clone>::clone ](v: &serde_json::Value) -> (r: serde_json::Value)
    ensures
        r == *v,
;

/// What `serde_json::from_str::<serde_json::Value>` makes of `text`: the
/// parsed value, or the display text of the parse error.
pub uninterp spec fn json_parse(text: Seq<char>) -> Result<serde_json::Value, Seq<char>>;

/// Parses `text` with `serde_json::from_str::<serde_json::Value>`, handing
/// back the value or the parse error's display text. Both are claimed to
/// depend on `text` alone, as named by [`json_parse`].
#[verifier::external_body]
pub(crate) fn parse_json(text: &str) -> (r: Result<serde_json::Value, String>)
    ensures
        match r {
            Ok(v) => parses_to(text@, v),
            Err(m) => json_parse(text@) == Err::<serde_json::Value, Seq<char>>(m@),
        },
{
    match serde_json::from_str::<serde_json::Value>(text) {
        Ok(v) => Ok(v),
        Err(e) => Err(e.to_string()),
    }
}

/// `text` parses to `value`.
pub open spec fn parses_to(text: Seq<char>, value: serde_json::Value) -> bool {
    json_parse(text) == Ok::<serde_json::Value, Seq<char>>(value)
}

/// The JSON text of an empty object.
pub open spec fn empty_object_text() -> Seq<char> {
    seq!['{', '}']
}

/// An empty JSON object, `serde_json::Value::Object(serde_json::Map::new())`:
/// claimed to be the value `serde_json::from_str` makes of the text of an
/// empty object (an object built from an empty map either way).
#[verifier::external_body]
pub(crate) fn empty_json_object() -> (object: serde_json::Value)
    ensures
        parses_to(empty_object_text(), object),
{
    serde_json::Value::Object(serde_json::Map::new())
}

/// The display text of a `serde_json::Error` (its `to_string`). The error is
/// opaque here, so nothing is claimed of the text.
#[verifier::external_body]
pub(crate) fn json_error_text(e: &serde_json::Error) -> String {
    e.to_string()
}

} // verus!
