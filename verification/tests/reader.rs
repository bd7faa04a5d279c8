use pretty_log::config::MultilineConfig;
use pretty_log::reader::{
    decide_continuation, group_lines, make_continuation_checker, stream_step, strip_line_ending, LineGrouper,
    LogicalLine, StreamEvent,
};

fn config() -> MultilineConfig {
    MultilineConfig { enabled: true, continuation_pattern: r"^[^\{]".into() }
}

fn reader(input: &str) -> Vec<LogicalLine> {
    group_lines(input, &config())
}

#[test]
fn reads_single_json_line() {
    let lines = reader(r#"{"level":"info","msg":"hello"}"#);
    assert_eq!(lines.len(), 1);
    assert_eq!(lines[0].main, r#"{"level":"info","msg":"hello"}"#);
    assert!(lines[0].continuations.is_empty());
}

#[test]
fn reads_multiple_json_lines() {
    let input = "{\"a\":1}\n{\"b\":2}\n";
    let lines = reader(input);
    assert_eq!(lines.len(), 2);
    assert_eq!(lines[0].main, "{\"a\":1}");
    assert_eq!(lines[1].main, "{\"b\":2}");
}

#[test]
fn groups_continuation_lines_with_preceding_json() {
    let input = "{\"level\":\"error\",\"msg\":\"crash\"}\ngoroutine 1 [running]:\nmain.go:42\n";
    let lines = reader(input);
    assert_eq!(lines.len(), 1);
    assert_eq!(lines[0].continuations, vec!["goroutine 1 [running]:", "main.go:42"]);
}

#[test]
fn new_json_line_flushes_previous() {
    let input = "{\"a\":1}\nstacktrace\n{\"b\":2}\n";
    let lines = reader(input);
    assert_eq!(lines.len(), 2);
    assert_eq!(lines[0].main, "{\"a\":1}");
    assert_eq!(lines[0].continuations, vec!["stacktrace"]);
    assert_eq!(lines[1].main, "{\"b\":2}");
}

#[test]
fn skips_empty_lines() {
    let input = "{\"a\":1}\n\n{\"b\":2}\n";
    let lines = reader(input);
    assert_eq!(lines.len(), 2);
}

#[test]
fn leading_continuation_line_stands_alone() {
    let lines = reader("orphan\nmore\n{\"a\":1}\n");
    assert_eq!(lines.len(), 2);
    assert_eq!(lines[0].main, "orphan");
    assert_eq!(lines[0].continuations, vec!["more"]);
    assert_eq!(lines[1].main, "{\"a\":1}");
}

#[test]
fn carriage_returns_are_stripped() {
    let lines = reader("{\"a\":1}\r\nat x\r\r\n");
    assert_eq!(lines.len(), 1);
    assert_eq!(lines[0].main, "{\"a\":1}");
    assert_eq!(lines[0].continuations, vec!["at x"]);
    assert_eq!(strip_line_ending("abc\r\n"), "abc");
    assert_eq!(strip_line_ending("abc"), "abc");
}

#[test]
fn grouping_disabled_keeps_every_line_apart() {
    let cfg = MultilineConfig { enabled: false, continuation_pattern: r"^[^\{]".into() };
    let lines = group_lines("{\"a\":1}\nstack\n", &cfg);
    assert_eq!(lines.len(), 2);
    assert!(lines[0].continuations.is_empty());
    assert_eq!(lines[1].main, "stack");
}

#[test]
fn invalid_pattern_falls_back_to_brace_test() {
    let cfg = MultilineConfig { enabled: true, continuation_pattern: "(".into() };
    let checker = make_continuation_checker(&cfg);
    // a pattern that does not compile falls back to the default pattern `^[^\{]`
    assert!(checker.is_continuation("at main"));
    assert!(!checker.is_continuation("{\"a\":1}"));
    assert!(checker.is_continuation("   {\"a\":1}"));
    assert!(decide_continuation(true, None, "x"));
    assert!(!decide_continuation(true, None, "{"));
    assert!(decide_continuation(true, None, " {"));
    assert!(!decide_continuation(true, None, ""));
    assert!(!decide_continuation(false, Some(true), "x"));
    assert!(decide_continuation(true, Some(true), "{"));
}

#[test]
fn pattern_decides_continuation() {
    let checker = make_continuation_checker(&config());
    assert!(checker.is_continuation("goroutine 1 [running]:"));
    assert!(!checker.is_continuation("{\"a\":1}"));
    // the default pattern looks at the first character only
    assert!(checker.is_continuation("  {\"a\":1}"));
}

#[test]
fn every_line_is_kept_in_order() {
    let input = "x\n{\"a\":1}\ny\nz\n{\"b\":2}\n{\"c\":3}\nw\n";
    let lines = reader(input);
    let mut flat: Vec<String> = Vec::new();
    for l in &lines {
        flat.push(l.main.clone());
        flat.extend(l.continuations.iter().cloned());
    }
    assert_eq!(flat, vec!["x", "{\"a\":1}", "y", "z", "{\"b\":2}", "{\"c\":3}", "w"]);
    assert_eq!(lines.len(), 4);
}

#[test]
fn stream_flushes_on_timeout_and_end() {
    let mut g = LineGrouper::new(&config());
    let (out, stop) = stream_step(&mut g, StreamEvent::Line("{\"a\":1}".into()));
    assert!(out.is_none() && !stop);
    let (out, stop) = stream_step(&mut g, StreamEvent::Line("".into()));
    assert!(out.is_none() && !stop);
    let (out, stop) = stream_step(&mut g, StreamEvent::Line("trace".into()));
    assert!(out.is_none() && !stop);
    let (out, stop) = stream_step(&mut g, StreamEvent::Timeout);
    let entry = out.expect("pending entry");
    assert_eq!(entry.main, "{\"a\":1}");
    assert_eq!(entry.continuations, vec!["trace"]);
    assert!(!stop);
    let (out, stop) = stream_step(&mut g, StreamEvent::Line("late".into()));
    assert!(out.is_none() && !stop);
    let (out, stop) = stream_step(&mut g, StreamEvent::Eof);
    assert_eq!(out.expect("pending entry").main, "late");
    assert!(stop);
    assert!(g.pending.is_none());
}

#[test]
fn push_classified_follows_the_flag() {
    let mut g = LineGrouper::new(&config());
    assert!(g.push_classified("a".into(), false).is_none());
    assert!(g.push_classified("b".into(), true).is_none());
    let done = g.push_classified("c".into(), false).expect("finished entry");
    assert_eq!(done.main, "a");
    assert_eq!(done.continuations, vec!["b"]);
    let last = g.flush().expect("pending");
    assert_eq!(last.main, "c");
    assert!(g.flush().is_none());
}
