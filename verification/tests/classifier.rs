use pretty_log::classifier::{classify, ClassifiedLine, LogLevel};
use pretty_log::config::Config;
use pretty_log::parser::{parse_line, ParseResult, ParsedLine};

fn make_parsed(json: &str) -> ParsedLine {
    match parse_line(json, vec![]) {
        ParseResult::Json(p) => p,
        ParseResult::Raw { .. } => panic!("expected Json"),
    }
}

fn classified(json: &str) -> ClassifiedLine {
    classify(make_parsed(json), &Config::default())
}

#[test]
fn classifies_level_field() {
    let classified = classified(r#"{"level":"error","msg":"oops"}"#);
    assert_eq!(classified.level, Some(LogLevel::Error));
}

#[test]
fn classifies_lvl_alias() {
    let classified = classified(r#"{"lvl":"warn","msg":"heads up"}"#);
    assert_eq!(classified.level, Some(LogLevel::Warn));
}

#[test]
fn classifies_message_field() {
    let classified = classified(r#"{"level":"info","msg":"hello world"}"#);
    assert_eq!(classified.message, Some("hello world".to_string()));
}

#[test]
fn puts_unknown_fields_in_extras() {
    let classified = classified(r#"{"level":"info","msg":"x","port":8080,"host":"localhost"}"#);
    assert_eq!(classified.extras.len(), 2);
    assert_eq!(classified.extras[0].0, "host");
    assert_eq!(classified.extras[1].0, "port");
}

#[test]
fn loglevel_case_insensitive() {
    assert_eq!(LogLevel::from_str("ERROR"), LogLevel::Error);
    assert_eq!(LogLevel::from_str("Info"), LogLevel::Info);
    assert_eq!(LogLevel::from_str("WARN"), LogLevel::Warn);
    assert_eq!(LogLevel::from_str("DEBUG"), LogLevel::Debug);
}

#[test]
fn classifies_trace_id() {
    let classified = classified(r#"{"level":"info","msg":"req","trace_id":"abc-123"}"#);
    assert_eq!(classified.trace_id, Some("abc-123".to_string()));
}

#[test]
fn level_aliases_map_to_levels() {
    assert_eq!(LogLevel::from_str("fatal"), LogLevel::Error);
    assert_eq!(LogLevel::from_str("CRIT"), LogLevel::Error);
    assert_eq!(LogLevel::from_str("critical"), LogLevel::Error);
    assert_eq!(LogLevel::from_str("err"), LogLevel::Error);
    assert_eq!(LogLevel::from_str("Warning"), LogLevel::Warn);
    assert_eq!(LogLevel::from_str("information"), LogLevel::Info);
    assert_eq!(LogLevel::from_str("dbg"), LogLevel::Debug);
    assert_eq!(LogLevel::from_str("TRACE"), LogLevel::Trace);
}

#[test]
fn unknown_level_is_kept_lowercase() {
    assert_eq!(LogLevel::from_str("NOTICE"), LogLevel::Unknown("notice".to_string()));
}

#[test]
fn last_alias_of_a_role_wins_and_extras_are_sorted() {
    // fields are read in key order: `message` comes before `msg`, so `msg` wins
    let c = classified(r#"{"msg":"first","message":"second","zeta":1,"alpha":true,"mid":null}"#);
    assert_eq!(c.message, Some("first".to_string()));
    let keys: Vec<&str> = c.extras.iter().map(|(k, _)| k.as_str()).collect();
    assert_eq!(keys, vec!["alpha", "mid", "zeta"]);
}

#[test]
fn non_string_values_are_rendered_as_text() {
    let c = classified(r#"{"level":"info","msg":42,"caller":["a",1],"ts":true}"#);
    assert_eq!(c.message, Some("42".to_string()));
    assert_eq!(c.caller, Some(r#"["a",1]"#.to_string()));
    assert_eq!(c.timestamp, Some("true".to_string()));
}

#[test]
fn continuation_lines_are_carried_to_the_classified_line() {
    let parsed = match parse_line(r#"{"msg":"crash"}"#, vec!["at a".to_string(), "at b".to_string()]) {
        ParseResult::Json(p) => p,
        ParseResult::Raw { .. } => panic!("expected Json"),
    };
    let c = classify(parsed, &Config::default());
    assert_eq!(c.continuation_lines, vec!["at a".to_string(), "at b".to_string()]);
    assert_eq!(c.level, None);
}
