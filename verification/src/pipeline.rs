//! From a logical line to the text that is printed for it.

use vstd::prelude::*;
use crate::classifier::{ClassifiedLine, classified_as, classify};
use crate::config::{Config, texts};
use crate::json::{JsonValue, fields_view, json_object_entries};
use crate::parser::{ParseResult, parse_line};
use crate::reader::LogicalLine;
use crate::renderer::{Paint, line_pieces, render, render_raw, rendered_as, timestamp_is_shortenable, timestamp_shortenable};
use crate::text::trim;

verus! {

/// The classified line's timestamp, if any, can be shortened.
pub open spec fn timestamp_ok(c: ClassifiedLine) -> bool {
    c.timestamp matches Some(ts) ==> timestamp_shortenable(ts@)
}

/// Renders a logical line: a line that holds one JSON object is classified and
/// rendered field by field; any other line is rendered as it is. `None` where the
/// timestamp of the line cannot be cut at its eighth byte (a character straddles it).
pub fn render_logical_line(logical: LogicalLine, config: &Config, no_color: bool) -> (r: Option<String>)
    ensures
        match json_object_entries(trim(logical.main@)) {
            None => r matches Some(s) && rendered_as(
                s@,
                seq![(logical.main@, Some(Paint::Dim))],
                texts(logical.continuations@),
                no_color,
            ),
            Some(entries) => exists|fields: Seq<(String, JsonValue)>, c: ClassifiedLine|
                {
                    &&& fields_view(fields) == entries
                    &&& classified_as(c, fields, logical.continuations@, config.fields)
                    &&& (r is None <==> !timestamp_ok(c))
                    &&& (r matches Some(s) ==> rendered_as(
                        s@,
                        line_pieces(c, *config, no_color),
                        texts(c.continuation_lines@),
                        no_color,
                    ))
                },
        },
{
    let LogicalLine { main, continuations } = logical;
    let ghost conts = continuations@;
    match parse_line(main.as_str(), continuations) {
        ParseResult::Json(parsed) => {
            let ghost fields = parsed.fields@;
            let classified = classify(parsed, config);
            let ok = match &classified.timestamp {
                Some(ts) => timestamp_is_shortenable(ts.as_str()),
                None => true,
            };
            if ok {
                let s = render(&classified, config, no_color);
                proof {
                    assert(timestamp_ok(classified));
                }
                Some(s)
            } else {
                None
            }
        },
        ParseResult::Raw { line, continuation_lines } => Some(render_raw(line.as_str(), &continuation_lines, no_color)),
    }
}

} // verus!
