//! The JSON values that a log line carries, as the library reads them.

use vstd::prelude::*;
use serde_json::Value;

verus! {

/// A JSON value of a log field.
///
/// Numbers hold the text that `serde_json` prints for them; arrays and objects
/// hold their compact JSON text and their pretty-printed text (when printing it
/// succeeded), which is all that the library ever reads of them.
#[derive(Debug, Clone)]
pub enum JsonValue {
    Null,
    Bool(bool),
    Number(String),
    Str(String),
    Array { compact: String, pretty: Option<String> },
    Object { compact: String, pretty: Option<String> },
}

/// What kind of JSON value a text holds: an object, an array, or anything else.
#[derive(Debug, Clone, Copy, PartialEq, Eq, Structural)]
pub enum JsonKind {
    Object,
    Array,
    Other,
}

/// The mathematical value of a [`JsonValue`].
pub enum JsonView {
    Null,
    Bool(bool),
    Number(Seq<char>),
    Str(Seq<char>),
    Array(Seq<char>, Option<Seq<char>>),
    Object(Seq<char>, Option<Seq<char>>),
}

/// The text of an optional string.
pub open spec fn opt_str(o: Option<String>) -> Option<Seq<char>> {
    match o {
        Some(s) => Some(s@),
        None => None,
    }
}

impl View for JsonValue {
    type V = JsonView;

    open spec fn view(&self) -> JsonView {
        match self {
            JsonValue::Null => JsonView::Null,
            JsonValue::Bool(b) => JsonView::Bool(*b),
            JsonValue::Number(n) => JsonView::Number(n@),
            JsonValue::Str(s) => JsonView::Str(s@),
            JsonValue::Array { compact, pretty } => JsonView::Array(compact@, opt_str(*pretty)),
            JsonValue::Object { compact, pretty } => JsonView::Object(compact@, opt_str(*pretty)),
        }
    }
}

/// The view of a list of named fields.
pub open spec fn fields_view(fields: Seq<(String, JsonValue)>) -> Seq<(Seq<char>, JsonView)> {
    fields.map_values(|f: (String, JsonValue)| (f.0@, f.1@))
}

/// JSON whitespace, the only characters that `serde_json` skips between tokens.
pub open spec fn is_json_whitespace(c: char) -> bool {
    c == ' ' || c == '\n' || c == '\t' || c == '\r'
}

/// `t`, after its leading JSON whitespace, begins with `c`.
pub open spec fn begins_with_after_json_whitespace(t: Seq<char>, c: char) -> bool {
    exists|i: int|
        0 <= i < t.len() && t[i] == c && forall|j: int| 0 <= j < i ==> is_json_whitespace(#[trigger] t[j])
}

/// The fields, in `serde_json::Map` order, of the JSON object that the text `t`
/// holds, or `None` when `t` is not one JSON object (as `serde_json::from_str`
/// into a `Map<String, Value>` decides).
pub uninterp spec fn json_object_entries(t: Seq<char>) -> Option<Seq<(Seq<char>, JsonView)>>;

/// The kind of the JSON value that the text `t` holds, with its pretty-printed text
/// (`serde_json::to_string_pretty`); `None` when `t` is not one JSON value (as
/// `serde_json::from_str` into a `Value` decides) or printing it fails.
pub uninterp spec fn json_pretty_text(t: Seq<char>) -> Option<(JsonKind, Seq<char>)>;

/// Parses `text` as one JSON object with `serde_json::from_str::<Map<String, Value>>`.
///
/// The result is named `json_object_entries(text@)`. From `serde_json`'s source:
/// an object parse succeeds only where the first character after JSON whitespace is
/// `{`, and a `Map` holds each key once. What decides success beyond that, and the
/// text of numbers, arrays and objects, is left to the name.
#[verifier::external_body]
pub(crate) fn parse_json_object(text: &str) -> (fields: Option<Vec<(String, JsonValue)>>)
    ensures
        match fields {
            Some(fs) => json_object_entries(text@) == Some(fields_view(fs@)),
            None => json_object_entries(text@) is None,
        },
        fields is Some ==> begins_with_after_json_whitespace(text@, '{'),
        fields matches Some(fs) ==> forall|i: int, j: int|
            0 <= i < j < fs@.len() ==> (#[trigger] fs@[i]).0@ != (#[trigger] fs@[j]).0@,
{
    let map = serde_json::from_str::<serde_json::Map<String, Value>>(text).ok()?;
    Some(map.into_iter().map(|(k, v)| (k, match &v {
        Value::Null => JsonValue::Null,
        Value::Bool(b) => JsonValue::Bool(*b),
        Value::Number(n) => JsonValue::Number(n.to_string()),
        Value::String(s) => JsonValue::Str(s.clone()),
        Value::Array(_) => JsonValue::Array { compact: v.to_string(), pretty: serde_json::to_string_pretty(&v).ok() },
        Value::Object(_) => JsonValue::Object { compact: v.to_string(), pretty: serde_json::to_string_pretty(&v).ok() },
    })).collect())
}

/// Parses `text` as a JSON value with `serde_json::from_str::<Value>`, tells its kind
/// (object, array or other) and pretty-prints it with `serde_json::to_string_pretty`.
///
/// The result is named `json_pretty_text(text@)`. From `serde_json`'s source: a value
/// that parses as an object begins, after JSON whitespace, with `{`, and an array
/// with `[`.
#[verifier::external_body]
pub(crate) fn pretty_json(text: &str) -> (r: Option<(JsonKind, String)>)
    ensures
        match r {
            Some((k, p)) => json_pretty_text(text@) == Some((k, p@)),
            None => json_pretty_text(text@) is None,
        },
        r matches Some((k, _)) ==> (k == JsonKind::Object ==> begins_with_after_json_whitespace(text@, '{')),
        r matches Some((k, _)) ==> (k == JsonKind::Array ==> begins_with_after_json_whitespace(text@, '[')),
{
    let v = serde_json::from_str::<Value>(text).ok()?;
    let kind = match &v {
        Value::Object(_) => JsonKind::Object,
        Value::Array(_) => JsonKind::Array,
        _ => JsonKind::Other,
    };
    let pretty = serde_json::to_string_pretty(&v).ok()?;
    Some((kind, pretty))
}

/// The text of a value as the log line shows it (`value_to_string`); arrays and
/// objects in compact JSON.
pub open spec fn value_text(v: JsonView) -> Seq<char> {
    match v {
        JsonView::Null => "null"@,
        JsonView::Bool(b) => if b { "true"@ } else { "false"@ },
        JsonView::Number(n) => n,
        JsonView::Str(s) => s,
        JsonView::Array(t, _) => t,
        JsonView::Object(t, _) => t,
    }
}

/// The text of a value with nested JSON expanded (`expand_value`): a string whose
/// text is a JSON object or array is shown pretty-printed, and so is an array or
/// object itself; anything else is shown as it is.
pub open spec fn expanded_text(v: JsonView) -> Seq<char> {
    match v {
        JsonView::Str(s) => match json_pretty_text(s) {
            Some((k, p)) => if k == JsonKind::Other {
                s
            } else {
                p
            },
            None => s,
        },
        JsonView::Array(t, p) => match p {
            Some(p) => p,
            None => t,
        },
        JsonView::Object(t, p) => match p {
            Some(p) => p,
            None => t,
        },
        _ => value_text(v),
    }
}

/// An equal copy of an optional string.
fn copy_opt(o: &Option<String>) -> (r: Option<String>)
    ensures
        r == *o,
{
    match o {
        Some(s) => Some(s.clone()),
        None => None,
    }
}

impl JsonValue {
    /// An equal copy of the value.
    pub fn duplicate(&self) -> (r: Self)
        ensures
            r == *self,
    {
        match self {
            JsonValue::Null => JsonValue::Null,
            JsonValue::Bool(b) => JsonValue::Bool(*b),
            JsonValue::Number(n) => JsonValue::Number(n.clone()),
            JsonValue::Str(s) => JsonValue::Str(s.clone()),
            JsonValue::Array { compact, pretty } => JsonValue::Array { compact: compact.clone(), pretty: copy_opt(pretty) },
            JsonValue::Object { compact, pretty } => JsonValue::Object { compact: compact.clone(), pretty: copy_opt(pretty) },
        }
    }
}

/// Renders a field value as text.
pub fn value_to_string(v: &JsonValue) -> (s: String)
    ensures
        s@ == value_text(v@),
{
    match v {
        JsonValue::Null => String::from_str("null"),
        JsonValue::Bool(b) => if *b {
            String::from_str("true")
        } else {
            String::from_str("false")
        },
        JsonValue::Number(n) => n.clone(),
        JsonValue::Str(s) => s.clone(),
        JsonValue::Array { compact, .. } => compact.clone(),
        JsonValue::Object { compact, .. } => compact.clone(),
    }
}

/// Renders a field value with nested JSON pretty-printed: a string that holds a JSON
/// object or array, and an array or object field, are shown pretty-printed.
pub fn expand_value(v: &JsonValue) -> (s: String)
    ensures
        s@ == expanded_text(v@),
{
    match v {
        JsonValue::Str(t) => match pretty_json(t.as_str()) {
            Some((kind, p)) => if kind == JsonKind::Other {
                t.clone()
            } else {
                p
            },
            None => t.clone(),
        },
        JsonValue::Array { compact, pretty } | JsonValue::Object { compact, pretty } => match pretty {
            Some(p) => p.clone(),
            None => compact.clone(),
        },
        _ => value_to_string(v),
    }
}

/// A boolean value shows as `true` exactly when it is true and as `false` exactly
/// when it is false, so the two values never show alike.
pub proof fn law_bool_text(b: bool, c: bool)
    ensures
        value_text(JsonView::Bool(b)) == "true"@ <==> b,
        value_text(JsonView::Bool(b)) == "false"@ <==> !b,
        value_text(JsonView::Bool(b)) == value_text(JsonView::Bool(c)) ==> b == c,
{
    reveal_strlit("true");
    reveal_strlit("false");
    assert("true"@.len() != "false"@.len());
}

} // verus!
