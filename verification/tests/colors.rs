//! Colour output, with colours forced on.

use pretty_log::classifier::{ClassifiedLine, LogLevel};
use pretty_log::config::Config;
use pretty_log::renderer::{paint, render, render_raw, Paint};

#[test]
fn forced_colors_paint_each_piece() {
    owo_colors::set_override(true);
    assert_eq!(paint("t", Paint::Cyan), "\x1b[36mt\x1b[39m");
    assert_eq!(paint("t", Paint::Dim), "\x1b[90mt\x1b[39m");
    assert_eq!(paint("t", Paint::BoldRed), "\x1b[31;1mt\x1b[0m");
    assert_eq!(paint("t", Paint::TraceBadge), "\x1b[90mt\x1b[0m");
    assert_eq!(paint("t", Paint::Red), "\x1b[31mt\x1b[39m");
    assert_eq!(paint("t", Paint::White), "\x1b[37mt\x1b[39m");
    assert_eq!(paint("t", Paint::ErrorBadge), "\x1b[91;1mt\x1b[0m");
    assert_eq!(paint("t", Paint::WarnBadge), "\x1b[93;1mt\x1b[0m");
    assert_eq!(paint("t", Paint::InfoBadge), "\x1b[92;1mt\x1b[0m");
    assert_eq!(paint("t", Paint::DebugBadge), "\x1b[94;1mt\x1b[0m");
    let line = ClassifiedLine {
        level: Some(LogLevel::Error),
        timestamp: None,
        message: Some("bad".to_string()),
        trace_id: None,
        caller: None,
        extras: vec![],
        continuation_lines: vec!["at x".to_string()],
    };
    let out = render(&line, &Config::default(), false);
    assert_eq!(out, "\x1b[91;1m ERROR \x1b[0m  \x1b[31mbad\x1b[39m\n  \x1b[90mat x\x1b[39m");
    let raw = render_raw("raw", &vec![], false);
    assert_eq!(raw, "\x1b[90mraw\x1b[39m");
    owo_colors::unset_override();
}
