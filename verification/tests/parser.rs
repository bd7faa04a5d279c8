use pretty_log::json::JsonValue;
use pretty_log::parser::{parse_line, ParseResult};

fn field<'a>(fields: &'a [(String, JsonValue)], key: &str) -> &'a JsonValue {
    &fields.iter().find(|(k, _)| k == key).expect("field present").1
}

#[test]
fn parses_simple_json_object() {
    let result = parse_line(r#"{"level":"info","msg":"hello"}"#, vec![]);
    match result {
        ParseResult::Json(p) => {
            assert!(matches!(field(&p.fields, "level"), JsonValue::Str(s) if s == "info"));
            assert!(matches!(field(&p.fields, "msg"), JsonValue::Str(s) if s == "hello"));
        }
        ParseResult::Raw { .. } => panic!("expected Json"),
    }
}

#[test]
fn returns_raw_for_non_json() {
    let result = parse_line("plain text log line", vec![]);
    match result {
        ParseResult::Raw { line, .. } => assert_eq!(line, "plain text log line"),
        ParseResult::Json(_) => panic!("expected Raw"),
    }
}

#[test]
fn returns_raw_for_json_array() {
    let result = parse_line(r#"[1,2,3]"#, vec![]);
    match result {
        ParseResult::Raw { .. } => {}
        ParseResult::Json(_) => panic!("expected Raw for array"),
    }
}

#[test]
fn preserves_continuation_lines() {
    let result = parse_line(r#"{"level":"error","msg":"crash"}"#, vec!["  at main.rs:10".into()]);
    match result {
        ParseResult::Json(p) => {
            assert_eq!(p.continuation_lines, vec!["  at main.rs:10"])
        }
        ParseResult::Raw { .. } => panic!("expected Json"),
    }
}

#[test]
fn handles_whitespace_around_json() {
    let result = parse_line(r#"  {"level":"debug","msg":"ok"}  "#, vec![]);
    match result {
        ParseResult::Json(_) => {}
        ParseResult::Raw { .. } => panic!("should parse json with surrounding whitespace"),
    }
}

#[test]
fn raw_line_keeps_its_text_untrimmed_and_its_continuations() {
    let result = parse_line("  not json  ", vec!["next".to_string()]);
    match result {
        ParseResult::Raw { line, continuation_lines } => {
            assert_eq!(line, "  not json  ");
            assert_eq!(continuation_lines, vec!["next".to_string()]);
        }
        ParseResult::Json(_) => panic!("expected Raw"),
    }
}

#[test]
fn values_of_each_kind_are_read() {
    let result = parse_line(r#"{"a":null,"b":false,"c":1.5,"d":[1, 2],"e":{"x": 1},"f":"s"}"#, vec![]);
    match result {
        ParseResult::Json(p) => {
            assert!(matches!(field(&p.fields, "a"), JsonValue::Null));
            assert!(matches!(field(&p.fields, "b"), JsonValue::Bool(false)));
            assert!(matches!(field(&p.fields, "c"), JsonValue::Number(n) if n == "1.5"));
            assert!(matches!(field(&p.fields, "d"), JsonValue::Array { compact, .. } if compact == "[1,2]"));
            assert!(matches!(field(&p.fields, "e"), JsonValue::Object { compact, .. } if compact == r#"{"x":1}"#));
            assert!(matches!(field(&p.fields, "d"), JsonValue::Array { pretty: Some(p), .. } if p == "[\n  1,\n  2\n]"));
            assert!(matches!(field(&p.fields, "f"), JsonValue::Str(s) if s == "s"));
        }
        ParseResult::Raw { .. } => panic!("expected Json"),
    }
}
