use pretty_log::classifier::{ClassifiedLine, LogLevel};
use pretty_log::config::Config;
use pretty_log::highlight::{highlight_is_safe, highlight_text_spans, wrap_and_highlight, wrap_is_safe};
use pretty_log::screen::{
    cell_value, level_style, level_text, normal_status, row_view, search_bar, shows_search_bar, truncate,
    visible_rows, CellLine, Shade, Tint,
};
use pretty_log::table::{App, Column};

fn row(msg: &str) -> ClassifiedLine {
    ClassifiedLine {
        level: None,
        timestamp: None,
        message: Some(msg.to_string()),
        trace_id: None,
        caller: None,
        extras: vec![],
        continuation_lines: vec![],
    }
}

#[test]
fn level_cells() {
    assert_eq!(level_text(&LogLevel::Warn), "WARN ");
    assert_eq!(level_text(&LogLevel::Unknown("x".to_string())), "?????");
    assert_eq!(level_style(&LogLevel::Error), Tint::LightRed);
    assert_eq!(level_style(&LogLevel::Trace), Tint::DarkGray);
    assert_eq!(level_style(&LogLevel::Unknown("x".to_string())), Tint::Default);
}

#[test]
fn truncate_cuts_with_an_ellipsis() {
    assert_eq!(truncate("abcdef", 10), "abcdef");
    assert_eq!(truncate("abcdef", 6), "abcdef");
    assert_eq!(truncate("abcdef", 4), "abc…");
    assert_eq!(truncate("abcdef", 0), "…");
}

#[test]
fn cell_values() {
    let mut r = row("hello");
    r.timestamp = Some("2024-01-01T10:23:45Z".to_string());
    assert_eq!(cell_value(&Column::Time, &r), "10:23:45");
    assert_eq!(cell_value(&Column::Level, &r), "");
    assert_eq!(cell_value(&Column::Message, &r), "hello");
    r.message = None;
    assert_eq!(cell_value(&Column::Message, &r), "");
}

#[test]
fn highlight_marks_each_occurrence() {
    let spans = highlight_text_spans("An Error and error", "error");
    let got: Vec<(&str, bool)> = spans.iter().map(|(s, h)| (s.as_str(), *h)).collect();
    assert_eq!(got, vec![("An ", false), ("Error", true), (" and ", false), ("error", true)]);
    let spans = highlight_text_spans("nothing here", "zzz");
    assert_eq!(spans, vec![("nothing here".to_string(), false)]);
    let spans = highlight_text_spans("abc", "");
    assert_eq!(spans, vec![("abc".to_string(), false)]);
    let spans = highlight_text_spans("", "a");
    assert_eq!(spans, vec![("".to_string(), false)]);
}

#[test]
fn highlight_skips_occurrences_off_character_boundaries() {
    // `İ` lowercases to two characters, so the lowercase text is one byte longer than
    // the text and byte offsets found in it fall one byte further in the text.
    assert!(highlight_is_safe("İxx", "x"));
    let spans = highlight_text_spans("İxx", "x");
    let got: Vec<(&str, bool)> = spans.iter().map(|(s, h)| (s.as_str(), *h)).collect();
    assert_eq!(got, vec![("İx", false), ("x", true)]);
    // here the search would resume inside a character of the lowercase text
    assert!(!highlight_is_safe("İx", "x"));
    assert!(highlight_is_safe("plain ascii", "ascii"));
}

#[test]
fn wrapping_with_highlight() {
    let lines = wrap_and_highlight("abcdefgh", 3, "");
    let texts: Vec<Vec<(&str, bool)>> =
        lines.iter().map(|l| l.iter().map(|(s, h)| (s.as_str(), *h)).collect()).collect();
    assert_eq!(texts, vec![vec![("abc", false)], vec![("def", false)], vec![("gh", false)]]);
    let lines = wrap_and_highlight("xxerrxx", 4, "err");
    let texts: Vec<Vec<(&str, bool)>> =
        lines.iter().map(|l| l.iter().map(|(s, h)| (s.as_str(), *h)).collect()).collect();
    assert_eq!(texts, vec![vec![("xxer", false)], vec![("rxx", false)]]);
    let lines = wrap_and_highlight("an error", 40, "ERR");
    let texts: Vec<Vec<(&str, bool)>> =
        lines.iter().map(|l| l.iter().map(|(s, h)| (s.as_str(), *h)).collect()).collect();
    assert_eq!(texts, vec![vec![("an ", false), ("err", true), ("or", false)]]);
    let lines = wrap_and_highlight("", 4, "err");
    assert_eq!(lines, vec![vec![(String::new(), false)]]);
    assert!(wrap_is_safe("anything", 4, "q"));
}

#[test]
fn visible_rows_always_show_one() {
    let config = Config::default();
    let mut app = App::new(&config, false, 100, 3);
    for i in 0..6 {
        app.push_row(row(&format!("m{}", i)));
    }
    assert_eq!(app.scroll_offset, 3);
    assert_eq!(visible_rows(&app, 3), vec![3, 4, 5]);
    assert_eq!(visible_rows(&app, 2), vec![3, 4]);
    assert_eq!(visible_rows(&app, 0), vec![3]);
}

#[test]
fn row_view_cuts_long_rows_with_a_marker() {
    let config = Config::default();
    let mut app = App::new(&config, false, 100, 3);
    app.push_row(row(&"y".repeat(300)));
    let v = row_view(&app, 0).expect("drawable");
    assert_eq!(v.height, 3);
    assert_eq!(v.lines.len(), 3);
    assert!(matches!(v.lines[2], CellLine::More(n) if n == 3));
    assert_eq!(v.shade, Shade::Selected);
    assert_eq!(v.level, "?????");
    assert_eq!(v.message_tint, Tint::White);
}

#[test]
fn row_view_details_and_tints() {
    let config = Config::default();
    let mut app = App::new(&config, false, 100, 20);
    app.highlight_errors = true;
    let mut r = row("an error");
    r.level = Some(LogLevel::Info);
    r.timestamp = Some("2024-01-01T10:23:45Z".to_string());
    r.trace_id = Some("abc".to_string());
    app.push_row(r);
    app.push_row(row("ok"));
    let v = row_view(&app, 0).expect("drawable");
    assert_eq!(v.time, "10:23:45");
    assert_eq!(v.level, "INFO ");
    assert_eq!(v.level_tint, Tint::LightGreen);
    assert_eq!(v.message_tint, Tint::LightRed);
    assert_eq!(v.shade, Shade::Plain);
    assert_eq!(v.height, 2);
    assert!(matches!(&v.lines[1], CellLine::Details(p) if p.len() == 1 && p[0].0 == "trace_id"));
}

#[test]
fn status_texts() {
    let config = Config::default();
    let mut app = App::new(&config, false, 100, 20);
    let s = normal_status(&app);
    assert_eq!(s.row_info, "row 0/0");
    assert!(!s.paused);
    app.push_row(row("a"));
    app.paused = true;
    app.push_row(row("b"));
    let s = normal_status(&app);
    assert_eq!(s.row_info, "row 1/2");
    assert_eq!(s.left, "↑↓/wheel scroll · g/Home top · G/End latest · / search · q quit ↓ 1 new  ");
    assert!(s.paused);
    assert!(!shows_search_bar(&app));
    app.search.typing = true;
    assert!(shows_search_bar(&app));
    let b = search_bar(&app);
    assert_eq!(b.cursor, "█");
    assert_eq!(b.match_info, "");
    assert_eq!(b.hint, "  Enter confirm · Esc cancel");
    app.search.typing = false;
    app.search.query = "zz".to_string();
    let b = search_bar(&app);
    assert_eq!(b.match_info, "  no matches");
    assert_eq!(b.hint, "  n next · N prev · / edit · Esc clear");
    app.search.query = "b".to_string();
    app.search.update_matches(&app.rows);
    let b = search_bar(&app);
    assert_eq!(b.match_info, "  1/1");
}

#[test]
fn rows_that_cannot_be_drawn_are_refused() {
    let config = Config::default();
    let mut app = App::new(&config, false, 100, 20);
    let mut r = row("fine");
    r.timestamp = Some("T1234567é".to_string());
    app.push_row(r);
    assert!(row_view(&app, 0).is_none());
    app.push_row(row("İx"));
    assert!(row_view(&app, 1).is_some());
    app.search.query = "x".to_string();
    assert!(row_view(&app, 1).is_none());
}
