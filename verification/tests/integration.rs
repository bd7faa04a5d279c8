//! The whole path from input text to printed text, as the command runs it.

use pretty_log::config::{apply_switches, Config};
use pretty_log::pipeline::render_logical_line;
use pretty_log::reader::group_lines;

/// Runs the streaming pretty-printer on `input` without colours, with the `-s`
/// (expand) and `-e` (highlight errors) switches as given.
fn pretty(input: &str, expand: bool, highlight_errors: bool) -> String {
    let mut config = Config::default();
    apply_switches(&mut config, expand, highlight_errors);
    let mut out = String::new();
    for logical in group_lines(input, &config.multiline) {
        let rendered = render_logical_line(logical, &config, true).expect("renderable line");
        out.push_str(&rendered);
        out.push('\n');
    }
    out
}

#[test]
fn basic_json_line_output() {
    let out = pretty(r#"{"level":"info","msg":"hello world"}"#, false, false);
    assert!(out.contains("INFO"));
    assert!(out.contains("hello world"));
}

#[test]
fn error_level_output() {
    let out = pretty(r#"{"level":"error","msg":"something broke"}"#, false, false);
    assert!(out.contains("ERROR"));
    assert!(out.contains("something broke"));
}

#[test]
fn timestamp_shortened() {
    let out = pretty(r#"{"level":"info","msg":"ok","time":"2024-06-15T14:30:00Z"}"#, false, false);
    assert!(out.contains("14:30:00"));
}

#[test]
fn extra_fields_shown() {
    let out = pretty(r#"{"level":"info","msg":"req","port":8080}"#, false, false);
    assert!(out.contains("port=8080"));
}

#[test]
fn raw_non_json_line_passed_through() {
    let out = pretty("plain text not json", false, false);
    assert!(out.contains("plain text not json"));
}

#[test]
fn multiline_stacktrace_indented() {
    let input = "{\"level\":\"error\",\"msg\":\"crash\"}\ngoroutine 1 [running]:\nmain.go:42\n";
    let out = pretty(input, false, false);
    assert!(out.contains("ERROR"));
    assert!(out.contains("  goroutine 1 [running]:"));
    assert!(out.contains("  main.go:42"));
}

#[test]
fn highlight_errors_flag() {
    let out = pretty(r#"{"level":"warn","msg":"connection error"}"#, false, true);
    assert!(out.contains("connection error"));
}

#[test]
fn expand_flag_expands_nested_json() {
    let input = r#"{"level":"info","msg":"ok","meta":"{\"user\":\"alice\"}"}"#;
    let out = pretty(input, true, false);
    assert!(out.contains("alice"));
}

#[test]
fn lvl_alias_recognized() {
    let out = pretty(r#"{"lvl":"debug","msg":"tracing"}"#, false, false);
    assert!(out.contains("DEBUG"));
    assert!(out.contains("tracing"));
}

#[test]
fn trace_id_shown() {
    let out = pretty(r#"{"level":"info","msg":"req","trace_id":"abc-123"}"#, false, false);
    assert!(out.contains("trace=abc-123"));
}

#[test]
fn readme_example_output() {
    let input = "{\"level\":\"info\",\"msg\":\"server started\",\"port\":8080,\"time\":\"2024-06-15T14:30:00Z\"}\n\
                 {\"level\":\"error\",\"msg\":\"crash\",\"trace_id\":\"abc-123\",\"time\":\"2024-06-15T14:30:01Z\"}\n\
                 goroutine 1 [running]:\n\
                 main.handler(...)\n";
    let out = pretty(input, false, false);
    assert_eq!(
        out,
        "14:30:00  INFO   server started  port=8080\n\
         14:30:01  ERROR  crash  trace=abc-123\n  goroutine 1 [running]:\n  main.handler(...)\n"
    );
}

#[test]
fn whole_output_of_a_mixed_stream() {
    let input = "{\"level\":\"info\",\"msg\":\"up\",\"time\":\"2024-06-15T14:30:00.25Z\",\"port\":80}\n\
                 plain line\n\
                 {\"level\":\"error\",\"msg\":\"crash\"}\n\
                 at main.go:1\n";
    let out = pretty(input, false, false);
    assert_eq!(
        out,
        "14:30:00  INFO   up  port=80\n  plain line\nERROR  crash\n  at main.go:1\n"
    );
}

#[test]
fn expanded_nested_object_is_pretty_printed() {
    let input = r#"{"msg":"ok","meta":"{\"user\":\"alice\"}"}"#;
    let out = pretty(input, true, false);
    assert_eq!(out, "ok  meta={\n  \"user\": \"alice\"\n}\n");
}

#[test]
fn uncuttable_timestamp_is_refused() {
    let config = Config::default();
    let lines = group_lines("{\"msg\":\"x\",\"ts\":\"T1234567é\"}", &config.multiline);
    assert_eq!(lines.len(), 1);
    let r = render_logical_line(lines[0].clone(), &config, true);
    assert!(r.is_none());
}
