//! The library's laws on concrete values.

use pretty_log::config::{Config, MultilineConfig};
use pretty_log::highlight::highlight_text_spans;
use pretty_log::search::KmpSearcher;
use pretty_log::reader::{group_lines, LineGrouper};
use pretty_log::renderer::render;
use pretty_log::classifier::{ClassifiedLine, LogLevel};
use pretty_log::screen::{row_view, visible_rows};
use pretty_log::table::{compact_detail_lines, compact_line_count, App};

fn row(msg: &str) -> ClassifiedLine {
    ClassifiedLine {
        level: None,
        timestamp: None,
        message: Some(msg.to_string()),
        trace_id: None,
        caller: None,
        extras: vec![],
        continuation_lines: vec![],
    }
}

#[test]
fn grouping_keeps_every_line_in_order_and_starts_entries_at_json_lines() {
    let cfg = MultilineConfig::default();
    let input = "a\nb\n{\"x\":1}\nc\n{\"y\":2}\n{\"z\":3}\nd\ne\n";
    let groups = group_lines(input, &cfg);
    let mut flat = Vec::new();
    for g in &groups {
        flat.push(g.main.clone());
        flat.extend(g.continuations.iter().cloned());
    }
    assert_eq!(flat, vec!["a", "b", "{\"x\":1}", "c", "{\"y\":2}", "{\"z\":3}", "d", "e"]);
    for g in groups.iter().skip(1) {
        assert!(g.main.starts_with('{'));
    }
    for g in &groups {
        for c in &g.continuations {
            assert!(!c.starts_with('{'));
        }
    }
}

#[test]
fn flush_after_every_line_gives_single_line_entries() {
    let mut g = LineGrouper::new(&MultilineConfig::default());
    assert!(g.push_line("{\"a\":1}".to_string()).is_none());
    let e = g.flush().expect("pending");
    assert!(e.continuations.is_empty());
    assert!(g.push_line("trace".to_string()).is_none());
    let e = g.flush().expect("pending");
    assert_eq!(e.main, "trace");
}

#[test]
fn packed_detail_lines_match_their_count_and_keep_all_pairs() {
    let pairs: Vec<(String, String)> = (0..7).map(|i| (format!("k{}", i), "v".repeat(i * 3))).collect();
    for w in [1usize, 5, 10, 20, 200] {
        let lines = compact_detail_lines(&pairs, w);
        assert_eq!(lines.len(), compact_line_count(&pairs, w));
        let flat: Vec<(String, String)> = lines.into_iter().flatten().collect();
        assert_eq!(flat, pairs);
    }
}

#[test]
fn row_lines_fill_the_row_height() {
    let config = Config::default();
    for vh in [1u16, 2, 4, 30] {
        let mut app = App::new(&config, false, 60, vh);
        let mut r = row(&"z".repeat(150));
        r.trace_id = Some("t".to_string());
        r.continuation_lines = vec!["c1".to_string(), "c2".to_string()];
        app.push_row(r);
        app.push_row(row(""));
        for i in 0..2 {
            let v = row_view(&app, i).expect("drawable");
            assert_eq!(v.lines.len(), v.height as usize);
            assert_eq!(v.height, app.row_height(i));
            assert!(v.height <= vh);
        }
    }
}

#[test]
fn selected_row_stays_visible_while_navigating() {
    let config = Config::default();
    let mut app = App::new(&config, false, 60, 4);
    for i in 0..12 {
        app.push_row(row(&"w".repeat(10 + 30 * (i % 3))));
    }
    let check = |app: &App| {
        let shown = visible_rows(app, app.visible_height);
        assert!(shown.contains(&app.selected));
    };
    check(&app);
    for _ in 0..8 {
        app.scroll_up();
        check(&app);
    }
    app.jump_to_start();
    check(&app);
    for _ in 0..11 {
        app.scroll_down();
        check(&app);
    }
}

#[test]
fn no_color_rendering_is_plain_text() {
    let mut line = row("boom error");
    line.level = Some(LogLevel::Error);
    let mut cfg = Config::default();
    cfg.highlight_errors = true;
    let out = render(&line, &cfg, true);
    assert_eq!(out, "ERROR  boom error");
    assert!(!out.contains('\x1b'));
}

#[test]
fn highlight_segments_join_back_and_mark_occurrences() {
    let cases = [
        ("Error: an error, ERRORS everywhere", "error"),
        ("aaaa", "aa"),
        ("no match here", "zz"),
        ("x", "x"),
        ("mixed İxx case", "x"),
    ];
    for (text, query) in cases {
        let spans = highlight_text_spans(text, query);
        let joined: String = spans.iter().map(|(s, _)| s.as_str()).collect();
        assert_eq!(joined, text);
        for (s, hit) in &spans {
            assert!(!s.is_empty());
            if *hit {
                assert_eq!(s.len(), query.len());
            }
        }
    }
    // leftmost, non-overlapping: "aaaa" with "aa" gives two hits
    let spans = highlight_text_spans("aaaa", "aa");
    assert_eq!(spans, vec![("aa".to_string(), true), ("aa".to_string(), true)]);
    let spans = highlight_text_spans("aaa", "aa");
    assert_eq!(spans, vec![("aa".to_string(), true), ("a".to_string(), false)]);
}

#[test]
fn search_with_a_non_ascii_query() {
    let s = KmpSearcher::new("ÉTÉ");
    assert!(s.matches_text("un bel été"));
    assert!(!s.matches_text("hiver"));
}
