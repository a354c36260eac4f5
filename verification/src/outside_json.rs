//! JSON texts, as the `serde_json` crate reads them. The contracts here are believed, not proved.

use crate::json::{values_of, Json, JsonData};
use vstd::prelude::*;

verus! {

#[verifier::external_type_specification]
#[verifier::external_body]
pub struct ExValue(serde_json::Value);

/// What `serde_json::from_str` makes of a text, for a value of any kind: the value, or the
/// error's text.
pub uninterp spec fn json_read(text: Seq<char>) -> Result<JsonData, Seq<char>>;

/// What `serde_json::from_str` makes of a text, for an array: its items, or the error's text.
pub uninterp spec fn json_array_read(text: Seq<char>) -> Result<Seq<JsonData>, Seq<char>>;

/// A `serde_json::Value` as a `Json`: the same value, kind by kind. A number is read by
/// `Number::as_u64`, else by `Number::as_i64`. Nothing is claimed of the result.
#[verifier::external_body]
pub(crate) fn json_of(value: serde_json::Value) -> (json: Json)
{
    match value {
        serde_json::Value::Null => Json::Null,
        serde_json::Value::Bool(flag) => Json::Bool(flag),
        serde_json::Value::Number(n) => match (n.as_u64(), n.as_i64()) {
            (Some(n), _) => Json::PosInt(n),
            (None, Some(n)) => Json::NegInt(n),
            (None, None) => Json::Float,
        },
        serde_json::Value::String(text) => Json::Text(text),
        serde_json::Value::Array(items) => Json::Array(items.into_iter().map(json_of).collect()),
        serde_json::Value::Object(fields) => Json::Object(
            fields.into_iter().map(|(key, inner)| (key, json_of(inner))).collect()),
    }
}

/// Calls `serde_json::from_str` for a `serde_json::Value`. The result depends on the text alone;
/// the value is kept as a `Json`, and of an error the text. Which texts are JSON, and what they
/// say, is left to the name.
#[verifier::external_body]
pub(crate) fn read_json(text: &str) -> (value: Result<Json, String>)
    ensures
        match value {
            Ok(v) => json_read(text@) == Ok::<JsonData, Seq<char>>(v@),
            Err(e) => json_read(text@) == Err::<JsonData, Seq<char>>(e@),
        },
{
    serde_json::from_str::<serde_json::Value>(text).map(json_of).map_err(|e| e.to_string())
}

/// Calls `serde_json::from_str` for a `Vec<serde_json::Value>`, which takes arrays only. The
/// result depends on the text alone; the items are kept as `Json` values, and of an error the
/// text. Which texts are arrays, and what they hold, is left to the name.
#[verifier::external_body]
pub(crate) fn read_json_array(text: &str) -> (items: Result<Vec<Json>, String>)
    ensures
        match items {
            Ok(v) => json_array_read(text@) == Ok::<Seq<JsonData>, Seq<char>>(values_of(v@)),
            Err(e) => json_array_read(text@) == Err::<Seq<JsonData>, Seq<char>>(e@),
        },
{
    let items = serde_json::from_str::<Vec<serde_json::Value>>(text).map_err(|e| e.to_string())?;
    Ok(items.into_iter().map(json_of).collect())
}

} // verus!
