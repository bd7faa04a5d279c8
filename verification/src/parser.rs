//! Recognising JSON object lines.

use vstd::prelude::*;
use crate::json::{JsonValue, fields_view, json_object_entries, parse_json_object};
use crate::text::{is_whitespace, str_trim, trim, trim_end, trim_start};

verus! {

/// A log line that holds one JSON object.
#[derive(Debug, Clone)]
pub struct ParsedLine {
    pub fields: Vec<(String, JsonValue)>,
    pub continuation_lines: Vec<String>,
}

/// The outcome of reading a logical line.
#[derive(Debug, Clone)]
pub enum ParseResult {
    /// The line held one JSON object.
    Json(ParsedLine),
    /// The line is kept as it was.
    Raw { line: String, continuation_lines: Vec<String> },
}

/// Reads a logical line: a line that, once trimmed, is one JSON object becomes its
/// fields; any other line is kept as it was. Continuation lines are carried along.
pub fn parse_line(main: &str, continuation_lines: Vec<String>) -> (r: ParseResult)
    ensures
        match r {
            ParseResult::Json(p) => {
                &&& json_object_entries(trim(main@)) == Some(fields_view(p.fields@))
                &&& p.continuation_lines == continuation_lines
            },
            ParseResult::Raw { line, continuation_lines: c } => {
                &&& json_object_entries(trim(main@)) is None
                &&& line@ == main@
                &&& c == continuation_lines
            },
        },
        !(trim(main@).len() > 0 && trim(main@)[0] == '{') ==> r is Raw,
{
    let trimmed = str_trim(main);
    match parse_json_object(trimmed.as_str()) {
        Some(fields) => {
            proof {
                lemma_trim_starts_solid(main@);
            }
            ParseResult::Json(ParsedLine { fields, continuation_lines })
        },
        None => ParseResult::Raw { line: String::from_str(main), continuation_lines },
    }
}

/// A trimmed text that is not empty begins with a character that is not whitespace.
proof fn lemma_trim_starts_solid(s: Seq<char>)
    ensures
        trim(s).len() > 0 ==> !is_whitespace(trim(s)[0]),
{
    lemma_trim_start_solid(s);
    lemma_trim_end_keeps_start(trim_start(s));
}

/// What `trim_start` leaves begins with a character that is not whitespace.
proof fn lemma_trim_start_solid(s: Seq<char>)
    ensures
        trim_start(s).len() > 0 ==> !is_whitespace(trim_start(s)[0]),
    decreases s.len(),
{
    if s.len() > 0 && is_whitespace(s[0]) {
        lemma_trim_start_solid(s.drop_first());
    }
}

/// `trim_end` keeps the first character of a text that does not begin with whitespace.
proof fn lemma_trim_end_keeps_start(s: Seq<char>)
    ensures
        trim_end(s).len() > 0 ==> trim_end(s)[0] == s[0],
    decreases s.len(),
{
    if s.len() > 0 && is_whitespace(s.last()) {
        lemma_trim_end_keeps_start(s.drop_last());
    }
}

} // verus!
