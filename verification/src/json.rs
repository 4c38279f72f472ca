//! JSON trees, mirrored into plain library data.
//!
//! Parsing and compact serialization are delegated to serde_json; the
//! resulting tree is mirrored into [`JsonValue`] so that all logic that
//! walks a document is ordinary verified code.

use vstd::prelude::*;

verus! {

/// A JSON document as plain data.
///
/// Object entries keep the order in which serde_json's map iterates them
/// (sorted by key); numbers carry the literal text serde_json renders.
#[derive(Debug)]
pub enum JsonValue {
    Null,
    Bool(bool),
    NumText(String),
    Text(String),
    Arr(Vec<JsonValue>),
    Obj(Vec<(String, JsonValue)>),
}

/// Declares serde_json's tree type so that the conversion helpers below
/// may name it; the type stays opaque to the verifier.
#[verifier::external_type_specification]
#[verifier::external_body]
pub struct ExSerdeJsonValue(serde_json::Value);

/// The tree that `s` parses to, or `None` when `s` is not JSON; a
/// function of the text alone.
pub uninterp spec fn json_of_text(s: Seq<char>) -> Option<JsonValue>;

/// The compact rendering of a tree; a function of the tree alone.
pub uninterp spec fn json_compact_text(v: JsonValue) -> Seq<char>;

/// Relies on `serde_json::from_str`: whether text parses as JSON, and the
/// tree it parses to, depend on the text alone. Every tree handed out
/// satisfies [`json_tree_wf`]: serde_json renders a number as a
/// non-empty run starting with a digit or sign, and the compact
/// rendering of an array or object opens with its bracket, so neither
/// is ever blank.
#[verifier::external_body]
pub fn parse_json_text(s: &str) -> (r: Option<JsonValue>)
    ensures
        r == json_of_text(s@),
        r matches Some(v) ==> json_tree_wf(v),
{
    match serde_json::from_str::<serde_json::Value>(s) {
        Ok(v) => Some(import_json(&v)),
        Err(_) => None,
    }
}

/// Conversion half of [`parse_json_text`]: mirrors a `serde_json::Value`
/// into the library's tree, one arm per variant.
#[verifier::external_body]
fn import_json(v: &serde_json::Value) -> JsonValue {
    match v {
        serde_json::Value::Null => JsonValue::Null,
        serde_json::Value::Bool(b) => JsonValue::Bool(*b),
        serde_json::Value::Number(n) => JsonValue::NumText(n.to_string()),
        serde_json::Value::String(s) => JsonValue::Text(s.clone()),
        serde_json::Value::Array(a) => JsonValue::Arr(a.iter().map(import_json).collect()),
        serde_json::Value::Object(m) => JsonValue::Obj(
            m.iter().map(|(k, x)| (k.clone(), import_json(x))).collect(),
        ),
    }
}

/// Conversion half of [`to_compact_text`]: rebuilds the serde_json tree,
/// one arm per variant.
#[verifier::external_body]
fn export_json(v: &JsonValue) -> serde_json::Value {
    match v {
        JsonValue::Null => serde_json::Value::Null,
        JsonValue::Bool(b) => serde_json::Value::Bool(*b),
        JsonValue::NumText(n) => serde_json::Value::Number(
            n.parse().unwrap_or_else(|_| serde_json::Number::from(0u32)),
        ),
        JsonValue::Text(s) => serde_json::Value::String(s.clone()),
        JsonValue::Arr(a) => serde_json::Value::Array(a.iter().map(export_json).collect()),
        JsonValue::Obj(o) => serde_json::Value::Object(
            o.iter().map(|(k, x)| (k.clone(), export_json(x))).collect(),
        ),
    }
}

/// Relies on `serde_json::to_string`: the compact rendering of a tree is
/// a function of the tree alone.
#[verifier::external_body]
pub fn to_compact_text(v: &JsonValue) -> (r: String)
    ensures
        r@ == json_compact_text(*v),
{
    match serde_json::to_string(&export_json(v)) {
        Ok(s) => s,
        Err(_) => String::new(),
    }
}

/// The generic value-to-string conversion used wherever a JSON value
/// becomes a field value: null and empty containers vanish, strings are
/// trimmed (blank strings vanish), booleans and numbers keep their
/// literal text, non-empty containers keep their compact JSON text.
pub open spec fn spec_value_to_string(v: JsonValue) -> Option<Seq<char>> {
    match v {
        JsonValue::Null => None,
        JsonValue::Bool(b) => Some(
            if b {
                "true"@
            } else {
                "false"@
            },
        ),
        JsonValue::NumText(n) => Some(n@),
        JsonValue::Text(s) => if crate::text::is_blank(s@) {
            None
        } else {
            Some(crate::text::spec_trim(s@))
        },
        JsonValue::Arr(a) => if a@.len() == 0 {
            None
        } else {
            Some(json_compact_text(v))
        },
        JsonValue::Obj(o) => if o@.len() == 0 {
            None
        } else {
            Some(json_compact_text(v))
        },
    }
}

pub fn value_to_string(v: &JsonValue) -> (r: Option<String>)
    ensures
        crate::types::view_opt_str(r) == spec_value_to_string(*v),
{
    match v {
        JsonValue::Null => None,
        JsonValue::Bool(b) => {
            let s: &str = if *b {
                "true"
            } else {
                "false"
            };
            Some(s.to_owned())
        },
        JsonValue::NumText(n) => Some(n.clone()),
        JsonValue::Text(s) => {
            let t = crate::text::chars_trimmed(s.as_str());
            if t.len() == 0 {
                None
            } else {
                Some(crate::text::string_of_chars(&t))
            }
        },
        JsonValue::Arr(a) => {
            if a.len() == 0 {
                None
            } else {
                Some(to_compact_text(v))
            }
        },
        JsonValue::Obj(o) => {
            if o.len() == 0 {
                None
            } else {
                Some(to_compact_text(v))
            }
        },
    }
}

/// Well-formedness serde_json guarantees of every tree it hands out:
/// a number's literal text is never blank, and the compact rendering of
/// an array or object is never blank (it opens with a bracket).
pub open spec fn json_tree_wf(v: JsonValue) -> bool
    decreases v,
{
    match v {
        JsonValue::NumText(n) => !crate::text::is_blank(n@),
        JsonValue::Arr(a) => !crate::text::is_blank(json_compact_text(v)) && (forall|i: int|
            0 <= i < a@.len() ==> json_tree_wf(#[trigger] a@[i])),
        JsonValue::Obj(o) => !crate::text::is_blank(json_compact_text(v)) && (forall|i: int|
            0 <= i < o@.len() ==> json_tree_wf((#[trigger] o@[i]).1)),
        _ => true,
    }
}

} // verus!