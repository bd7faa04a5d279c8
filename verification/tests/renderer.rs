use pretty_log::classifier::{ClassifiedLine, LogLevel};
use pretty_log::config::Config;
use pretty_log::json::{expand_value, value_to_string, JsonValue};
use pretty_log::renderer::{
    colorize_level, contains_error_keyword, format_level, join_rendered, render, render_raw, shorten_timestamp,
    timestamp_is_shortenable,
};

fn simple_line(level: LogLevel, msg: &str) -> ClassifiedLine {
    ClassifiedLine {
        level: Some(level),
        timestamp: None,
        message: Some(msg.to_string()),
        trace_id: None,
        caller: None,
        extras: vec![],
        continuation_lines: vec![],
    }
}

#[test]
fn render_basic_info_line_no_color() {
    let line = simple_line(LogLevel::Info, "server started");
    let out = render(&line, &Config::default(), true);
    assert!(out.contains("INFO"));
    assert!(out.contains("server started"));
}

#[test]
fn render_error_level_no_color() {
    let line = simple_line(LogLevel::Error, "something broke");
    let out = render(&line, &Config::default(), true);
    assert!(out.contains("ERROR"));
}

#[test]
fn render_includes_timestamp() {
    let line = ClassifiedLine {
        level: Some(LogLevel::Info),
        timestamp: Some("2024-01-01T10:23:45Z".to_string()),
        message: Some("ok".to_string()),
        trace_id: None,
        caller: None,
        extras: vec![],
        continuation_lines: vec![],
    };
    let out = render(&line, &Config::default(), true);
    assert!(out.contains("10:23:45"));
}

#[test]
fn render_continuation_lines_indented() {
    let line = ClassifiedLine {
        level: Some(LogLevel::Error),
        timestamp: None,
        message: Some("crash".to_string()),
        trace_id: None,
        caller: None,
        extras: vec![],
        continuation_lines: vec!["at main.rs:42".to_string()],
    };
    let out = render(&line, &Config::default(), true);
    assert!(out.contains("\n  at main.rs:42"));
}

#[test]
fn render_error_level_colors_message_red_no_color_mode() {
    let line = simple_line(LogLevel::Error, "something broke");
    let out = render(&line, &Config::default(), true);
    assert!(out.contains("something broke"));
    assert!(out.contains("ERROR"));
}

#[test]
fn render_extras_format_key_equals_value() {
    let line = ClassifiedLine {
        level: Some(LogLevel::Info),
        timestamp: None,
        message: Some("req".to_string()),
        trace_id: None,
        caller: None,
        extras: vec![("port".to_string(), JsonValue::Number("8080".to_string()))],
        continuation_lines: vec![],
    };
    let out = render(&line, &Config::default(), true);
    assert!(out.contains("port=8080"));
}

#[test]
fn shorten_timestamp_extracts_time() {
    assert_eq!(shorten_timestamp("2024-01-01T10:23:45Z"), "10:23:45");
    assert_eq!(shorten_timestamp("2024-01-01T10:23:45.123Z"), "10:23:45");
}

#[test]
fn render_raw_with_continuations_indented() {
    let continuations = vec!["trace: xyz".to_string()];
    let out = render_raw("some raw log", &continuations, true);
    assert!(out.contains("some raw log"));
    assert!(out.contains("\n  trace: xyz"));
}

#[test]
fn highlight_errors_flag_kept_in_normal_mode() {
    let mut cfg = Config::default();
    cfg.highlight_errors = true;
    let line = simple_line(LogLevel::Info, "connection error occurred");
    let out = render(&line, &cfg, true);
    assert!(out.contains("connection error occurred"));
}

#[test]
fn render_full_line_layout_without_colors() {
    let line = ClassifiedLine {
        level: Some(LogLevel::Warn),
        timestamp: Some("2024-01-01T10:23:45.5+02:00".to_string()),
        message: Some("disk low".to_string()),
        trace_id: Some("t1".to_string()),
        caller: Some("main.rs:7".to_string()),
        extras: vec![("free".to_string(), JsonValue::Number("3".to_string()))],
        continuation_lines: vec!["a".to_string(), "b".to_string()],
    };
    let out = render(&line, &Config::default(), true);
    assert_eq!(out, "10:23:45  WARN   disk low  trace=t1  caller=main.rs:7  free=3\n  a\n  b");
}

#[test]
fn shorten_timestamp_fallbacks() {
    // no `T`: first 19 characters
    assert_eq!(shorten_timestamp("2024/01/01 10:23:45.123"), "2024/01/01 10:23:45");
    assert_eq!(shorten_timestamp("short"), "short");
    // a time part shorter than eight bytes: first 19 characters of the whole
    assert_eq!(shorten_timestamp("xT1:2Z"), "xT1:2Z");
    // the time part ends at `Z` even without fractions
    assert_eq!(shorten_timestamp("T12:34:56Z trailing"), "12:34:56");
}

#[test]
fn timestamp_cut_inside_a_character_is_refused() {
    // `é` takes two bytes: the eighth byte falls inside it
    assert!(!timestamp_is_shortenable("T1234567é"));
    assert!(timestamp_is_shortenable("T123456é"));
    assert_eq!(shorten_timestamp("T123456é"), "123456é");
    assert!(timestamp_is_shortenable("2024-01-01T10:23:45Z"));
}

#[test]
fn level_labels_and_badges() {
    assert_eq!(format_level(&LogLevel::Warn), "WARN ");
    assert_eq!(format_level(&LogLevel::Unknown("note".to_string())), "NOTE ");
    assert_eq!(format_level(&LogLevel::Unknown("verbose".to_string())), "VERBOSE");
    assert_eq!(colorize_level(&LogLevel::Unknown("x".to_string()), "X    "), "X    ");
    let badge = colorize_level(&LogLevel::Info, "INFO ");
    assert!(badge == " INFO " || badge == "\x1b[92;1m INFO \x1b[0m");
}

#[test]
fn error_keywords() {
    assert!(contains_error_keyword("an Error here"));
    assert!(contains_error_keyword("stderr"));
    assert!(contains_error_keyword("ERROR"));
    assert!(!contains_error_keyword("all good"));
    assert!(!contains_error_keyword("eRr"));
}

#[test]
fn values_as_text_and_expanded() {
    assert_eq!(value_to_string(&JsonValue::Null), "null");
    assert_eq!(value_to_string(&JsonValue::Bool(true)), "true");
    assert_eq!(value_to_string(&JsonValue::Str("s".to_string())), "s");
    let nested = expand_value(&JsonValue::Str(r#"{"user":"alice"}"#.to_string()));
    assert_eq!(nested, "{\n  \"user\": \"alice\"\n}");
    assert_eq!(expand_value(&JsonValue::Str("plain".to_string())), "plain");
    assert_eq!(expand_value(&JsonValue::Str("42".to_string())), "42");
    assert_eq!(expand_value(&JsonValue::Str("[1, 2]".to_string())), "[\n  1,\n  2\n]");
    assert_eq!(expand_value(&JsonValue::Str("{not json".to_string())), "{not json");
    let parsed = match pretty_log::parser::parse_line(r#"{"d":[1.5,{"k":true}]}"#, vec![]) {
        pretty_log::parser::ParseResult::Json(p) => p,
        pretty_log::parser::ParseResult::Raw { .. } => panic!("expected Json"),
    };
    let v = &parsed.fields[0].1;
    assert_eq!(value_to_string(v), r#"[1.5,{"k":true}]"#);
    assert_eq!(expand_value(v), "[\n  1.5,\n  {\n    \"k\": true\n  }\n]");
}

#[test]
fn join_rendered_lays_out_parts_and_continuations() {
    let parts = vec!["a".to_string(), "b".to_string(), "c".to_string()];
    let conts = vec!["x".to_string()];
    assert_eq!(join_rendered(&parts, &conts), "a  b  c\n  x");
    assert_eq!(join_rendered(&vec![], &vec![]), "");
}
