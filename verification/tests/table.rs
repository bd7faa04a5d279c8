use pretty_log::classifier::ClassifiedLine;
use pretty_log::config::Config;
use pretty_log::search::KmpSearcher;
use pretty_log::table::{
    apply_event, collect_detail_pairs, compact_detail_lines, compact_line_count, handle_event, make_event, raw_row,
    wrap_line_count, App, AppEvent, ColWidths, Column, InputEvent, Key, KeyKind, MouseKind, SearchState,
    TableRowData,
};
use pretty_log::reader::LogicalLine;

fn make_row(msg: String) -> ClassifiedLine {
    ClassifiedLine {
        level: None,
        timestamp: None,
        message: Some(msg),
        trace_id: None,
        caller: None,
        extras: vec![],
        continuation_lines: vec![],
    }
}

fn make_table_row(msg: &str) -> TableRowData {
    TableRowData { line: make_row(msg.to_string()), detail_pairs: vec![] }
}

#[test]
fn column_from_str_known_values() {
    assert_eq!(Column::from_str("time"), Some(Column::Time));
    assert_eq!(Column::from_str("level"), Some(Column::Level));
    assert_eq!(Column::from_str("message"), Some(Column::Message));
    assert_eq!(Column::from_str("service"), None);
    assert_eq!(Column::from_str("unknown"), None);
}

#[test]
fn col_widths_message_gets_remainder() {
    let columns = vec![Column::Time, Column::Level, Column::Message];
    // time=20, level=5, separators=2 -> fixed=27; message=73
    let cw = ColWidths::compute(&columns, 100);
    let msg_width = cw.width_of(&Column::Message);
    assert!(msg_width >= 20, "message column got {}", msg_width);
    let total: u16 = cw.widths.iter().map(|(_, w)| w).sum();
    assert!(total <= 100);
}

#[test]
fn time_column_width_is_20() {
    assert_eq!(Column::Time.fixed_width(), Some(20));
}

#[test]
fn level_column_width_is_5() {
    assert_eq!(Column::Level.fixed_width(), Some(5));
}

#[test]
fn wrap_line_count_basic() {
    assert_eq!(wrap_line_count(60, 60), 1);
    assert_eq!(wrap_line_count(61, 60), 2);
    assert_eq!(wrap_line_count(120, 60), 2);
    assert_eq!(wrap_line_count(121, 60), 3);
    assert_eq!(wrap_line_count(0, 60), 1);
}

#[test]
fn app_push_row_auto_scrolls_when_not_paused() {
    let config = Config::default();
    let mut app = App::new(&config, false, 200, 20);
    for i in 0..5 {
        app.push_row(make_row(format!("msg {}", i)));
    }
    assert_eq!(app.selected, 4);
    assert!(!app.paused);
    assert_eq!(app.new_count, 0);
}

#[test]
fn app_push_row_buffers_when_paused() {
    let config = Config::default();
    let mut app = App::new(&config, false, 200, 20);
    app.paused = true;
    app.push_row(make_row("hello".into()));
    app.push_row(make_row("world".into()));
    assert_eq!(app.new_count, 2);
    assert_eq!(app.selected, 0);
}

#[test]
fn app_jump_to_end_clears_new_count() {
    let config = Config::default();
    let mut app = App::new(&config, false, 200, 20);
    app.paused = true;
    app.push_row(make_row("a".into()));
    app.push_row(make_row("b".into()));
    assert_eq!(app.new_count, 2);
    app.jump_to_end();
    assert_eq!(app.new_count, 0);
    assert!(!app.paused);
    assert_eq!(app.selected, 1);
}

#[test]
fn app_scroll_up_sets_paused() {
    let config = Config::default();
    let mut app = App::new(&config, false, 200, 20);
    for i in 0..5 {
        app.push_row(make_row(format!("msg {}", i)));
    }
    assert!(!app.paused);
    app.scroll_up();
    assert!(app.paused);
    assert_eq!(app.selected, 3);
}

#[test]
fn app_click_select_sets_selected_row() {
    let config = Config::default();
    let mut app = App::new(&config, false, 200, 20);
    app.push_row(make_row("hello".into()));
    app.click_select_or_expand(1);
    assert_eq!(app.selected, 0);
}

#[test]
fn scroll_offset_for_bottom_positions_last_row_at_bottom() {
    let config = Config::default();
    let mut app = App::new(&config, false, 200, 5);
    for i in 0..10 {
        app.push_row(make_row(format!("msg {}", i)));
    }
    // All rows are 1-line tall; with visible_height=5, last 5 rows should show
    assert_eq!(app.scroll_offset, 5);
    assert_eq!(app.selected, 9);
}

#[test]
fn kmp_searcher_finds_substring() {
    let s = KmpSearcher::new("error");
    assert!(s.matches_text("request error occurred"));
    assert!(s.matches_text("ERROR message")); // case-insensitive
    assert!(!s.matches_text("everything is fine"));
}

#[test]
fn search_state_update_matches() {
    let rows = vec![
        make_table_row("database connection error"),
        make_table_row("user login success"),
        make_table_row("query timeout error"),
    ];
    let mut search = SearchState::new();
    search.query = "error".to_string();
    search.update_matches(&rows);
    assert_eq!(search.matches, vec![0, 2]);
}

#[test]
fn search_next_wraps_around() {
    let config = Config::default();
    let mut app = App::new(&config, false, 200, 20);
    for msg in &["alpha error", "beta ok", "gamma error"] {
        app.push_row(make_row(msg.to_string()));
    }
    app.search.query = "error".to_string();
    app.search.update_matches(&app.rows);
    app.search.current = 1; // at second match (row 2)
    app.search_next();
    // Should wrap to first match (row 0)
    assert_eq!(app.search.current, 0);
    assert_eq!(app.selected, 0);
}

#[test]
fn search_prev_undoes_search_next() {
    let config = Config::default();
    let mut app = App::new(&config, false, 200, 20);
    for msg in &["alpha error", "beta ok", "gamma error", "delta error"] {
        app.push_row(make_row(msg.to_string()));
    }
    app.search.query = "error".to_string();
    app.search.update_matches(&app.rows);
    app.search.current = 2;
    app.search_next();
    assert_eq!(app.search.current, 0);
    app.search_prev();
    assert_eq!(app.search.current, 2);
    assert_eq!(app.selected, 3);
}

#[test]
fn empty_query_searcher_matches_nothing() {
    let s = KmpSearcher::new("");
    assert!(!s.matches_text("anything"));
    assert!(!s.matches_text(""));
    let s = KmpSearcher::new("aab");
    assert!(s.matches_text("xaaab"));
    assert!(!s.matches_text("abab"));
}

#[test]
fn long_rows_are_capped_at_the_visible_height() {
    let config = Config::default();
    let mut app = App::new(&config, false, 100, 3);
    app.push_row(make_row("x".repeat(1000)));
    assert_eq!(app.row_height(0), 3);
    assert_eq!(app.scroll_offset, 0);
    assert_eq!(app.selected, 0);
}

#[test]
fn detail_pairs_are_sorted_and_numbered() {
    let row = ClassifiedLine {
        level: None,
        timestamp: None,
        message: Some("m".to_string()),
        trace_id: Some("t".to_string()),
        caller: Some("c.rs".to_string()),
        extras: vec![("zz".to_string(), pretty_log::json::JsonValue::Number("1".to_string()))],
        continuation_lines: vec!["first".to_string()],
    };
    let pairs = collect_detail_pairs(&row);
    let keys: Vec<&str> = pairs.iter().map(|(k, _)| k.as_str()).collect();
    assert_eq!(keys, vec!["caller", "continuation_01", "trace_id", "zz"]);
    assert_eq!(pairs[1].1, "first");
}

#[test]
fn compact_detail_packing() {
    let pairs = vec![
        ("a".to_string(), "1".to_string()),
        ("b".to_string(), "2".to_string()),
        ("longer".to_string(), "value".to_string()),
    ];
    // tokens "a: 1" (4), "b: 2" (4), "longer: value" (13)
    assert_eq!(compact_line_count(&pairs, 9), 2);
    let lines = compact_detail_lines(&pairs, 9);
    assert_eq!(lines.len(), 2);
    assert_eq!(lines[0].len(), 2);
    assert_eq!(lines[1].len(), 1);
    assert_eq!(compact_line_count(&pairs, 100), 1);
    assert_eq!(compact_line_count(&[], 10), 0);
}

#[test]
fn keys_drive_navigation_and_search() {
    let config = Config::default();
    let mut app = App::new(&config, false, 200, 20);
    for msg in &["alpha error", "beta ok", "gamma error"] {
        app.push_row(make_row(msg.to_string()));
    }
    assert!(handle_event(&mut app, InputEvent::Key { key: Key::Up, kind: KeyKind::Press }));
    assert_eq!(app.selected, 1);
    assert!(app.paused);
    assert!(handle_event(&mut app, InputEvent::Key { key: Key::Char('/'), kind: KeyKind::Press }));
    assert!(app.search.typing);
    for c in "error".chars() {
        handle_event(&mut app, InputEvent::Key { key: Key::Char(c), kind: KeyKind::Press });
    }
    assert_eq!(app.search.query, "error");
    assert_eq!(app.search.matches, vec![0, 2]);
    handle_event(&mut app, InputEvent::Key { key: Key::Backspace, kind: KeyKind::Press });
    assert_eq!(app.search.query, "erro");
    handle_event(&mut app, InputEvent::Key { key: Key::Char('r'), kind: KeyKind::Press });
    handle_event(&mut app, InputEvent::Key { key: Key::Enter, kind: KeyKind::Press });
    assert!(!app.search.typing);
    assert!(!handle_event(&mut app, InputEvent::Key { key: Key::Char('q'), kind: KeyKind::Press }));
    assert!(handle_event(&mut app, InputEvent::Mouse { kind: MouseKind::ScrollDown, row: 0 }));
}

#[test]
fn events_become_rows() {
    let config = Config::default();
    let mut app = App::new(&config, false, 200, 20);
    let ev = make_event(LogicalLine { main: "{\"msg\":\"hi\"}".to_string(), continuations: vec![] }, &config);
    assert!(matches!(&ev, AppEvent::LogLine(c) if c.message.as_deref() == Some("hi")));
    apply_event(&mut app, ev);
    let ev = make_event(LogicalLine { main: "plain".to_string(), continuations: vec!["c".to_string()] }, &config);
    assert!(matches!(&ev, AppEvent::RawLine(l) if l == "plain"));
    apply_event(&mut app, ev);
    apply_event(&mut app, AppEvent::Eof);
    assert_eq!(app.rows.len(), 2);
    assert_eq!(app.rows[1].line.message.as_deref(), Some("plain"));
    assert!(app.rows[1].line.continuation_lines.is_empty());
    let r = raw_row("x".to_string());
    assert!(r.level.is_none() && r.extras.is_empty());
}
