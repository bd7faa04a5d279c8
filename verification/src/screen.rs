//! What the table view shows: which rows, the text and colours of each cell, the
//! lines of a row, and the status bar.

use vstd::prelude::*;
use crate::classifier::{ClassifiedLine, LevelKind, LogLevel, level_of_lowercase};
use crate::renderer::{
    contains_error_keyword, has_error_keyword, level_label, shorten_timestamp, shortened_timestamp, timestamp_is_shortenable,
    timestamp_shortenable,
};
use crate::table::{App, Column, TableRowData, row_h, span};
use crate::highlight::{
    lines_bytes, segment_bytes, wrap_and_highlight, wrap_chunks, wrap_is_safe, wrap_safe, wrapped_segments,
};
use crate::table::{
    compact_detail_lines, content_lines, law_packed_lines_count, lemma_span_split, lines_view, packed_lines, width_in,
    wrapped_lines,
};
use crate::text::{ascii_lower_char, chars_of, decimal, push_decimal, push_str, string_from_range, trim_end};

verus! {

/// A colour of the table view.
#[derive(Clone, Copy, PartialEq, Eq, Structural, Debug)]
pub enum Tint {
    /// The terminal's default colour.
    Default,
    LightRed,
    Yellow,
    LightGreen,
    LightBlue,
    DarkGray,
    White,
}

/// The text and colour of the level cell.
pub open spec fn level_cell(l: Option<LevelKind>) -> (Seq<char>, Tint) {
    match l {
        Some(LevelKind::Error) => ("ERROR"@, Tint::LightRed),
        Some(LevelKind::Warn) => ("WARN "@, Tint::Yellow),
        Some(LevelKind::Info) => ("INFO "@, Tint::LightGreen),
        Some(LevelKind::Debug) => ("DEBUG"@, Tint::LightBlue),
        Some(LevelKind::Trace) => ("TRACE"@, Tint::DarkGray),
        _ => ("?????"@, Tint::Default),
    }
}

/// The level column's text for a level.
pub fn level_text(lvl: &LogLevel) -> (t: &'static str)
    ensures
        t@ == level_cell(Some(lvl@)).0,
{
    match lvl {
        LogLevel::Error => "ERROR",
        LogLevel::Warn => "WARN ",
        LogLevel::Info => "INFO ",
        LogLevel::Debug => "DEBUG",
        LogLevel::Trace => "TRACE",
        LogLevel::Unknown(_) => "?????",
    }
}

/// The level column's colour for a level.
pub fn level_style(lvl: &LogLevel) -> (t: Tint)
    ensures
        t == level_cell(Some(lvl@)).1,
{
    match lvl {
        LogLevel::Error => Tint::LightRed,
        LogLevel::Warn => Tint::Yellow,
        LogLevel::Info => Tint::LightGreen,
        LogLevel::Debug => Tint::LightBlue,
        LogLevel::Trace => Tint::DarkGray,
        LogLevel::Unknown(_) => Tint::Default,
    }
}

/// The text of a cell before it is fitted to its column: the shortened timestamp, the
/// message, or nothing (the level cell is drawn apart).
pub open spec fn cell_text(col: Column, row: ClassifiedLine) -> Seq<char> {
    match col {
        Column::Time => match row.timestamp {
            Some(ts) => shortened_timestamp(ts@),
            None => Seq::empty(),
        },
        Column::Level => Seq::empty(),
        Column::Message => match row.message {
            Some(m) => m@,
            None => Seq::empty(),
        },
    }
}

/// The cell of `col` can be computed: a timestamp in the time column can be shortened.
pub open spec fn cell_ok(col: Column, row: ClassifiedLine) -> bool {
    col == Column::Time ==> (row.timestamp matches Some(ts) ==> timestamp_shortenable(ts@))
}

/// The text of the cell of `col` for `row`.
pub fn cell_value(col: &Column, row: &ClassifiedLine) -> (s: String)
    requires
        cell_ok(*col, *row),
    ensures
        s@ == cell_text(*col, *row),
{
    match col {
        Column::Time => match &row.timestamp {
            Some(ts) => shorten_timestamp(ts.as_str()),
            None => String::new(),
        },
        Column::Level => String::new(),
        Column::Message => match &row.message {
            Some(m) => m.clone(),
            None => String::new(),
        },
    }
}

/// `s` cut to at most `max` characters: a longer text keeps its first `max - 1`
/// characters (none when `max` is 0) and ends with `…`.
pub open spec fn truncated(s: Seq<char>, max: nat) -> Seq<char> {
    if s.len() <= max {
        s
    } else {
        s.take(if max == 0 { 0 } else { max - 1 }) + "…"@
    }
}

/// Fits `s` into `max_chars` characters.
pub fn truncate(s: &str, max_chars: usize) -> (r: String)
    ensures
        r@ == truncated(s@, max_chars as nat),
{
    let cs = chars_of(s);
    if cs.len() <= max_chars {
        return String::from_str(s);
    }
    let keep = if max_chars == 0 { 0 } else { max_chars - 1 };
    let mut r = string_from_range(cs.as_slice(), 0, keep);
    push_str(&mut r, "…");
    r
}

/// How many rows from row `i` on fit, one after another, into `room` lines.
pub open spec fn fit_count(rows: Seq<TableRowData>, mw: nat, vh: nat, i: int, room: int) -> nat
    decreases rows.len() - i,
{
    if i < 0 || i >= rows.len() || row_h(rows, mw, vh, i) > room {
        0
    } else {
        1 + fit_count(rows, mw, vh, i + 1, room - row_h(rows, mw, vh, i))
    }
}

/// How many rows the table shows in `height` lines from its scroll offset: as many as
/// fit, and at least one when there is a row to show.
pub open spec fn shown_count(a: App, height: nat) -> nat {
    let c = fit_count(a.rows@, a.mw(), a.visible_height as nat, a.scroll_offset as int, height as int);
    if c == 0 && a.scroll_offset < a.rows@.len() {
        1
    } else {
        c
    }
}

/// The rows that the table shows in `height` lines: those from the scroll offset on.
pub fn visible_rows(app: &App, height: u16) -> (r: Vec<usize>)
    ensures
        r@.len() == shown_count(*app, height as nat),
        forall|i: int| 0 <= i < r@.len() ==> #[trigger] r@[i] == app.scroll_offset + i,
{
    let ghost rows = app.rows@;
    let ghost mw = app.mw();
    let ghost vh = app.visible_height as nat;
    let so = app.scroll_offset;
    let mut r: Vec<usize> = Vec::new();
    let mut consumed: u32 = 0;
    let mut idx: usize = so;
    while idx < app.rows.len()
        invariant_except_break
            consumed <= height,
            so <= idx,
            fit_count(rows, mw, vh, so as int, height as int)
                == (idx - so) + fit_count(rows, mw, vh, idx as int, height - consumed),
        invariant
            rows == app.rows@,
            mw == app.mw(),
            vh == app.visible_height as nat,
            so == app.scroll_offset,
            r@.len() == idx - so,
            forall|i: int| 0 <= i < r@.len() ==> #[trigger] r@[i] == so + i,
        ensures
            r@.len() == fit_count(rows, mw, vh, so as int, height as int),
        decreases app.rows.len() - idx,
    {
        let h = app.row_height(idx) as u32;
        if consumed + h > height as u32 {
            break;
        }
        r.push(idx);
        consumed = consumed + h;
        idx = idx + 1;
    }
    if r.len() == 0 && so < app.rows.len() {
        r.push(so);
    }
    r
}

} // verus!

verus! {

/// A line of the message cell.
#[derive(Debug)]
pub enum CellLine {
    /// A wrapped line of the message, in plain and highlighted segments.
    Text(Vec<(String, bool)>),
    /// A line of detail pairs.
    Details(Vec<(String, String)>),
    /// The last line of a row cut to its height: how many lines were left out.
    More(usize),
}

/// The mathematical value of a [`CellLine`]; text segments as UTF-8 bytes.
pub enum CellLineView {
    Text(Seq<(Seq<u8>, bool)>),
    Details(Seq<(String, String)>),
    More(nat),
}

impl View for CellLine {
    type V = CellLineView;

    open spec fn view(&self) -> CellLineView {
        match self {
            CellLine::Text(segs) => CellLineView::Text(segment_bytes(segs@)),
            CellLine::Details(pairs) => CellLineView::Details(pairs@),
            CellLine::More(n) => CellLineView::More(*n as nat),
        }
    }
}

/// The views of cell lines.
pub open spec fn cell_lines_view(v: Seq<CellLine>) -> Seq<CellLineView> {
    v.map_values(|l: CellLine| l@)
}

/// All lines of a row's message cell: its message wrapped at the wrap width with the
/// search highlighted, then its detail pairs packed at the same width.
pub open spec fn full_lines(a: App, row: TableRowData) -> Seq<CellLineView> {
    wrapped_segments(cell_text(Column::Message, row.line), a.mw(), a.search.query@).map_values(
        |l: Seq<(Seq<u8>, bool)>| CellLineView::Text(l),
    ) + packed_lines(row.detail_pairs@, a.mw()).map_values(|p: Seq<(String, String)>| CellLineView::Details(p))
}

/// `lines` fitted into `h` lines: kept when they fit; otherwise the first `h - 1`
/// and a marker that counts the lines left out.
pub open spec fn clipped(lines: Seq<CellLineView>, h: nat) -> Seq<CellLineView> {
    if lines.len() <= h {
        lines
    } else if h == 0 {
        Seq::empty()
    } else {
        lines.take(h - 1).push(CellLineView::More((lines.len() - (h - 1)) as nat))
    }
}

/// The lines of row `i`'s message cell, fitted to the row's height.
pub open spec fn cell_lines(a: App, i: int) -> Seq<CellLineView> {
    clipped(full_lines(a, a.rows@[i]), row_h(a.rows@, a.mw(), a.visible_height as nat, i))
}

/// The message cell of row `i` can be drawn: the search can be highlighted in each of
/// its wrapped lines.
pub open spec fn message_cell_ok(a: App, i: int) -> bool {
    wrap_safe(cell_text(Column::Message, a.rows@[i].line), a.mw(), a.search.query@)
}

/// Wrap width of the table's message column.
fn message_wrap_width(app: &App) -> (w: usize)
    ensures
        w == app.mw(),
        w >= 16,
{
    let w = app.col_widths.width_of(&Column::Message);
    if w < 16 {
        16
    } else {
        w as usize
    }
}

/// The lines of row `idx`'s message cell, fitted to the row's height.
pub fn row_lines(app: &App, idx: usize) -> (lines: Vec<CellLine>)
    requires
        idx < app.rows@.len(),
        message_cell_ok(*app, idx as int),
    ensures
        cell_lines_view(lines@) == cell_lines(*app, idx as int),
{
    let row = &app.rows[idx];
    let mw = message_wrap_width(app);
    let msg = cell_value(&Column::Message, &row.line);
    let wrapped = wrap_and_highlight(msg.as_str(), mw, app.search.query.as_str());
    let details = compact_detail_lines(row.detail_pairs.as_slice(), mw);
    let ghost full = full_lines(*app, *row);
    let ghost wtexts = wrapped_segments(msg@, mw as nat, app.search.query@);
    let mut all: Vec<CellLine> = Vec::new();
    let mut i: usize = 0;
    while i < wrapped.len()
        invariant
            i <= wrapped@.len(),
            lines_bytes(wrapped@) == wtexts,
            cell_lines_view(all@) == wtexts.take(i as int).map_values(|l: Seq<(Seq<u8>, bool)>| CellLineView::Text(l)),
        decreases wrapped.len() - i,
    {
        let line = CellLine::Text(clone_segments(&wrapped[i]));
        let ghost before = cell_lines_view(all@);
        let ghost lv = line@;
        assert(wtexts[i as int] == segment_bytes(wrapped@[i as int]@));
        assert(lv == CellLineView::Text(wtexts[i as int]));
        all.push(line);
        proof {
            assert(cell_lines_view(all@) =~= before.push(lv));
            assert(wtexts.take(i + 1) =~= wtexts.take(i as int).push(wtexts[i as int]));
            assert(cell_lines_view(all@) =~= wtexts.take(i + 1).map_values(|l: Seq<(Seq<u8>, bool)>| CellLineView::Text(l)));
        }
        i = i + 1;
    }
    assert(wtexts.take(wrapped@.len() as int) =~= wtexts);
    let ghost head = cell_lines_view(all@);
    let ghost dl = lines_view(details@);
    let mut j: usize = 0;
    while j < details.len()
        invariant
            j <= details@.len(),
            dl == lines_view(details@),
            cell_lines_view(all@) == head + dl.take(j as int).map_values(|p: Seq<(String, String)>| CellLineView::Details(p)),
        decreases details.len() - j,
    {
        let line = CellLine::Details(clone_pairs(&details[j]));
        let ghost before = cell_lines_view(all@);
        let ghost lv = line@;
        assert(dl[j as int] == details@[j as int]@);
        assert(lv == CellLineView::Details(dl[j as int]));
        all.push(line);
        proof {
            assert(cell_lines_view(all@) =~= before.push(lv));
            assert(dl.take(j + 1) =~= dl.take(j as int).push(dl[j as int]));
            assert(cell_lines_view(all@) =~= head + dl.take(j + 1).map_values(|p: Seq<(String, String)>| CellLineView::Details(p)));
        }
        j = j + 1;
    }
    assert(dl.take(details@.len() as int) =~= dl);
    assert(cell_lines_view(all@) =~= full);
    let h = app.row_height(idx) as usize;
    clip_lines(all, h)
}

/// Fits `lines` into `h` lines.
fn clip_lines(lines: Vec<CellLine>, h: usize) -> (r: Vec<CellLine>)
    ensures
        cell_lines_view(r@) == clipped(cell_lines_view(lines@), h as nat),
{
    let total = lines.len();
    if total <= h {
        return lines;
    }
    let mut r: Vec<CellLine> = Vec::new();
    if h == 0 {
        assert(cell_lines_view(r@) =~= Seq::<CellLineView>::empty());
        return r;
    }
    let mut lines = lines;
    let ghost lv = cell_lines_view(lines@);
    lines.truncate(h - 1);
    lines.push(CellLine::More(total - (h - 1)));
    assert(cell_lines_view(lines@) =~= lv.take(h - 1).push(CellLineView::More((total - (h - 1)) as nat)));
    lines
}

/// A copy of a list of segments.
fn clone_segments(v: &Vec<(String, bool)>) -> (r: Vec<(String, bool)>)
    ensures
        r@ == v@,
{
    let mut r: Vec<(String, bool)> = Vec::new();
    let mut i: usize = 0;
    while i < v.len()
        invariant
            i <= v@.len(),
            r@ == v@.take(i as int),
        decreases v.len() - i,
    {
        let p = (v[i].0.clone(), v[i].1);
        r.push(p);
        assert(r@ =~= v@.take(i + 1));
        i = i + 1;
    }
    assert(v@.take(v@.len() as int) =~= v@);
    r
}

/// A copy of a list of detail pairs.
fn clone_pairs(v: &Vec<(String, String)>) -> (r: Vec<(String, String)>)
    ensures
        r@ == v@,
{
    let mut r: Vec<(String, String)> = Vec::new();
    let mut i: usize = 0;
    while i < v.len()
        invariant
            i <= v@.len(),
            r@ == v@.take(i as int),
        decreases v.len() - i,
    {
        let p = (v[i].0.clone(), v[i].1.clone());
        r.push(p);
        assert(r@ =~= v@.take(i + 1));
        i = i + 1;
    }
    assert(v@.take(v@.len() as int) =~= v@);
    r
}

} // verus!

verus! {

/// The background of a row: selected, matching the search, or plain.
#[derive(Clone, Copy, PartialEq, Eq, Structural, Debug)]
pub enum Shade {
    Selected,
    Match,
    Plain,
}

/// The background of row `i`.
pub open spec fn row_shade(a: App, i: int) -> Shade {
    if i == a.selected {
        Shade::Selected
    } else if a.search.query@.len() > 0 && a.search.matches@.contains(i as usize) {
        Shade::Match
    } else {
        Shade::Plain
    }
}

/// The colour of a row's message: light red when error words are highlighted and the
/// message holds one, or for an error line; white otherwise.
pub open spec fn message_tint(a: App, row: ClassifiedLine) -> Tint {
    if a.highlight_errors && has_error_keyword(cell_text(Column::Message, row)) {
        Tint::LightRed
    } else if row.level matches Some(LogLevel::Error) {
        Tint::LightRed
    } else {
        Tint::White
    }
}

/// The optional level of a line.
pub open spec fn level_of(row: ClassifiedLine) -> Option<LevelKind> {
    match row.level {
        Some(l) => Some(l@),
        None => None,
    }
}

/// A row as the table draws it.
#[derive(Debug)]
pub struct RowView {
    /// The row's background.
    pub shade: Shade,
    /// The time cell, fitted to its column.
    pub time: String,
    /// The level cell's text.
    pub level: &'static str,
    /// The level cell's colour.
    pub level_tint: Tint,
    /// The colour of the message.
    pub message_tint: Tint,
    /// The lines of the message cell.
    pub lines: Vec<CellLine>,
    /// The row's height.
    pub height: u16,
}

/// Row `i` can be drawn: its timestamp can be shortened and the search highlighted in
/// its message.
pub open spec fn row_drawable(a: App, i: int) -> bool {
    cell_ok(Column::Time, a.rows@[i].line) && message_cell_ok(a, i)
}

/// Whether `s` holds an error word.
fn message_has_error_word(s: &str) -> (b: bool)
    ensures
        b == has_error_keyword(s@),
{
    contains_error_keyword(s)
}

/// Row `idx` as the table draws it; `None` where it cannot be drawn (a timestamp cut
/// inside a character, or a search that would resume inside one).
pub fn row_view(app: &App, idx: usize) -> (v: Option<RowView>)
    requires
        idx < app.rows@.len(),
    ensures
        match v {
            None => !row_drawable(*app, idx as int),
            Some(rv) => {
                let row = app.rows@[idx as int].line;
                &&& row_drawable(*app, idx as int)
                &&& rv.shade == row_shade(*app, idx as int)
                &&& rv.time@ == truncated(cell_text(Column::Time, row), width_in(app.col_widths.widths@, Column::Time) as nat)
                &&& rv.level@ == level_cell(level_of(row)).0
                &&& rv.level_tint == level_cell(level_of(row)).1
                &&& rv.message_tint == message_tint(*app, row)
                &&& cell_lines_view(rv.lines@) == cell_lines(*app, idx as int)
                &&& rv.height == row_h(app.rows@, app.mw(), app.visible_height as nat, idx as int)
            },
        },
{
    let row = &app.rows[idx].line;
    let time_ok = match &row.timestamp {
        Some(ts) => timestamp_is_shortenable(ts.as_str()),
        None => true,
    };
    if !time_ok {
        return None;
    }
    let mw = message_wrap_width(app);
    let msg = cell_value(&Column::Message, row);
    if !wrap_is_safe(msg.as_str(), mw, app.search.query.as_str()) {
        return None;
    }
    let shade = if idx == app.selected {
        Shade::Selected
    } else if !app.search.query.as_str().is_empty() && contains_index(&app.search.matches, idx) {
        Shade::Match
    } else {
        Shade::Plain
    };
    let raw_time = cell_value(&Column::Time, row);
    let time = truncate(raw_time.as_str(), app.col_widths.width_of(&Column::Time) as usize);
    let (level, level_tint) = match &row.level {
        Some(lvl) => (level_text(lvl), level_style(lvl)),
        None => ("?????", Tint::Default),
    };
    let message_tint = if app.highlight_errors && message_has_error_word(msg.as_str()) {
        Tint::LightRed
    } else if matches!(row.level, Some(LogLevel::Error)) {
        Tint::LightRed
    } else {
        Tint::White
    };
    let lines = row_lines(app, idx);
    let height = app.row_height(idx);
    Some(RowView { shade, time, level, level_tint, message_tint, lines, height })
}

/// Whether `v` holds `x`.
fn contains_index(v: &Vec<usize>, x: usize) -> (b: bool)
    ensures
        b == v@.contains(x),
{
    let mut i: usize = 0;
    while i < v.len()
        invariant
            i <= v@.len(),
            forall|k: int| 0 <= k < i ==> v@[k] != x,
        decreases v.len() - i,
    {
        if v[i] == x {
            return true;
        }
        i = i + 1;
    }
    false
}

} // verus!

verus! {

/// The key hints of the status bar.
pub open spec fn key_hints() -> Seq<char> {
    "↑↓/wheel scroll · g/Home top · G/End latest · / search · q quit"@
}

/// The notice of rows that arrived while paused, if any.
pub open spec fn new_notice(n: nat) -> Seq<char> {
    if n > 0 {
        " ↓ "@ + decimal(n) + " new  "@
    } else {
        Seq::empty()
    }
}

/// The position of the selected row: `row i/n`, counting from one.
pub open spec fn row_info_text(a: App) -> Seq<char> {
    if a.rows@.len() == 0 {
        "row 0/0"@
    } else {
        "row "@ + decimal((a.selected + 1) as nat) + "/"@ + decimal(a.rows@.len())
    }
}

/// The normal status bar.
#[derive(Debug)]
pub struct StatusView {
    /// Key hints, then the notice of new rows.
    pub left: String,
    /// The position of the selected row.
    pub row_info: String,
    /// The view is paused (else live).
    pub paused: bool,
}

/// The normal status bar of the table.
pub fn normal_status(app: &App) -> (s: StatusView)
    requires
        app.rows@.len() > 0 ==> app.selected < usize::MAX,
    ensures
        s.left@ == key_hints() + new_notice(app.new_count as nat),
        s.row_info@ == row_info_text(*app),
        s.paused == app.paused,
{
    let mut left = String::from_str("↑↓/wheel scroll · g/Home top · G/End latest · / search · q quit");
    if app.new_count > 0 {
        push_str(&mut left, " ↓ ");
        push_decimal(&mut left, app.new_count);
        push_str(&mut left, " new  ");
    }
    let mut row_info: String;
    if app.rows.len() == 0 {
        row_info = String::from_str("row 0/0");
    } else {
        row_info = String::from_str("row ");
        push_decimal(&mut row_info, app.selected + 1);
        push_str(&mut row_info, "/");
        push_decimal(&mut row_info, app.rows.len());
    }
    proof {
        if app.new_count > 0 {
            assert(left@ =~= key_hints() + new_notice(app.new_count as nat));
        } else {
            assert(left@ =~= key_hints() + new_notice(app.new_count as nat));
        }
        if app.rows@.len() > 0 {
            assert(row_info@ =~= row_info_text(*app));
        }
    }
    StatusView { left, row_info, paused: app.paused }
}

/// The search bar replaces the status bar while a query is typed or set.
pub fn shows_search_bar(app: &App) -> (b: bool)
    ensures
        b == (app.search.typing || app.search.query@.len() > 0),
{
    app.search.typing || !app.search.query.as_str().is_empty()
}

/// The match count of the search bar.
pub open spec fn match_info_text(a: App) -> Seq<char> {
    if a.search.query@.len() == 0 {
        Seq::empty()
    } else if a.search.matches@.len() == 0 {
        "  no matches"@
    } else {
        "  "@ + decimal((a.search.current + 1) as nat) + "/"@ + decimal(a.search.matches@.len())
    }
}

/// The hint at the end of the search bar.
pub open spec fn search_hint_text(a: App) -> Seq<char> {
    if !a.search.typing && a.search.query@.len() > 0 {
        "  n next · N prev · / edit · Esc clear"@
    } else {
        "  Enter confirm · Esc cancel"@
    }
}

/// The search bar.
#[derive(Debug)]
pub struct SearchBarView {
    /// The query.
    pub query: String,
    /// The cursor shown after the query while it is typed.
    pub cursor: &'static str,
    /// Which match is current, of how many.
    pub match_info: String,
    /// The key hints.
    pub hint: &'static str,
}

/// The search bar of the table.
pub fn search_bar(app: &App) -> (s: SearchBarView)
    requires
        app.search.matches@.len() > 0 ==> app.search.current < usize::MAX,
    ensures
        s.query@ == app.search.query@,
        s.cursor@ == if app.search.typing { "█"@ } else { ""@ },
        s.match_info@ == match_info_text(*app),
        s.hint@ == search_hint_text(*app),
{
    let q = app.search.query.as_str();
    let mut match_info: String;
    if q.is_empty() {
        match_info = String::new();
    } else if app.search.matches.len() == 0 {
        match_info = String::from_str("  no matches");
    } else {
        match_info = String::from_str("  ");
        push_decimal(&mut match_info, app.search.current + 1);
        push_str(&mut match_info, "/");
        push_decimal(&mut match_info, app.search.matches.len());
    }
    proof {
        if q@.len() > 0 && app.search.matches@.len() > 0 {
            assert(match_info@ =~= match_info_text(*app));
        }
    }
    let cursor = if app.search.typing { "█" } else { "" };
    let hint = if !app.search.typing && !q.is_empty() {
        "  n next · N prev · / edit · Esc clear"
    } else {
        "  Enter confirm · Esc cancel"
    };
    SearchBarView { query: app.search.query.clone(), cursor, match_info, hint }
}

} // verus!

verus! {

/// Wrapping a non-empty text at `w` characters gives the number of lines that
/// `wrapped_lines` counts.
pub proof fn lemma_wrap_chunks_len(s: Seq<char>, w: nat)
    requires
        w > 0,
        s.len() > 0,
    ensures
        wrap_chunks(s, w).len() == wrapped_lines(s.len(), w),
    decreases s.len(),
{
    let n = s.len() as int;
    let wi = w as int;
    if s.len() <= w {
        assert((n + wi - 1) / wi == 1) by (nonlinear_arith)
            requires
                0 < n <= wi,
        ;
    } else {
        lemma_wrap_chunks_len(s.skip(w as int), w);
        assert((n + wi - 1) / wi == 1 + (n - wi + wi - 1) / wi) by (nonlinear_arith)
            requires
                n > wi > 0,
        ;
    }
}

/// A row's message cell has exactly as many lines as the row is high: all its lines
/// when they fit, else as many as fit with the last one counting the lines left out.
pub proof fn law_row_lines_fill_height(a: App, i: int)
    requires
        0 <= i < a.rows@.len(),
    ensures
        cell_lines(a, i).len() == row_h(a.rows@, a.mw(), a.visible_height as nat, i),
{
    let row = a.rows@[i];
    let mw = a.mw();
    let text = cell_text(Column::Message, row.line);
    law_packed_lines_count(row.detail_pairs@, mw);
    if text.len() > 0 {
        lemma_wrap_chunks_len(text, mw);
    }
    let full = full_lines(a, row);
    assert(full.len() == content_lines(row, mw));
}

/// The table shows at least one row whenever there is one at or after its scroll
/// offset, even one taller than the space.
pub proof fn law_shows_a_row(a: App, height: nat)
    requires
        a.scroll_offset < a.rows@.len(),
    ensures
        shown_count(a, height) >= 1,
{
}

/// The rows that fit, counted from row `i`, fit: their heights add up to at most `room`.
pub proof fn lemma_fit_count_fits(rows: Seq<TableRowData>, mw: nat, vh: nat, i: int, room: int)
    requires
        0 <= i,
    ensures
        i + fit_count(rows, mw, vh, i, room) <= rows.len() || fit_count(rows, mw, vh, i, room) == 0,
        span(rows, mw, vh, i, i + fit_count(rows, mw, vh, i, room)) <= room || fit_count(rows, mw, vh, i, room) == 0,
    decreases rows.len() - i,
{
    let c = fit_count(rows, mw, vh, i, room);
    if c > 0 {
        let h = row_h(rows, mw, vh, i);
        lemma_fit_count_fits(rows, mw, vh, i + 1, room - h);
        lemma_span_split(rows, mw, vh, i, i + 1, i + c);
        assert(span(rows, mw, vh, i, i) == 0);
        assert(span(rows, mw, vh, i, i + 1) == h);
        if c == 1 {
            assert(span(rows, mw, vh, i + 1, i + 1) == 0);
        }
    }
}

/// Apart from the one row that is shown when none fits, the rows shown fit in the
/// space: their heights add up to at most `height`.
pub proof fn law_shown_rows_fit(a: App, height: nat)
    requires
        fit_count(a.rows@, a.mw(), a.visible_height as nat, a.scroll_offset as int, height as int) > 0,
    ensures
        span(
            a.rows@,
            a.mw(),
            a.visible_height as nat,
            a.scroll_offset as int,
            a.scroll_offset + shown_count(a, height),
        ) <= height,
{
    lemma_fit_count_fits(a.rows@, a.mw(), a.visible_height as nat, a.scroll_offset as int, height as int);
}

} // verus!

verus! {

/// `s` with `A`..`Z` lowered (how `str::to_lowercase` treats ASCII text).
pub open spec fn ascii_lowered(s: Seq<char>) -> Seq<char> {
    Seq::new(s.len(), |i: int| ascii_lower_char(s[i]))
}

/// Each known level's cell shows that level's own name: read back (trailing blanks
/// dropped, ignoring case) as a level name, it names the row's level again, and it is
/// the label that the line renderer prints for the level.
pub proof fn law_level_cell_names_level(l: LevelKind)
    requires
        !(l is Unknown),
    ensures
        level_of_lowercase(ascii_lowered(trim_end(level_cell(Some(l)).0))) == l,
        level_cell(Some(l)).0 == level_label(l),
{
    reveal_strlit("ERROR");
    reveal_strlit("WARN ");
    reveal_strlit("WARN");
    reveal_strlit("INFO");
    reveal_strlit("INFO ");
    reveal_strlit("DEBUG");
    reveal_strlit("TRACE");
    reveal_strlit("error");
    reveal_strlit("err");
    reveal_strlit("fatal");
    reveal_strlit("crit");
    reveal_strlit("critical");
    reveal_strlit("warn");
    reveal_strlit("warning");
    reveal_strlit("info");
    reveal_strlit("information");
    reveal_strlit("debug");
    reveal_strlit("dbg");
    reveal_strlit("trace");
    let t = level_cell(Some(l)).0;
    match l {
        LevelKind::Error => {
            assert(trim_end(t) == t);
            assert(ascii_lowered(t) =~= "error"@);
        },
        LevelKind::Warn => {
            assert(t.drop_last() =~= "WARN"@);
            assert(trim_end(t.drop_last()) == t.drop_last());
            assert(ascii_lowered(t.drop_last()) =~= "warn"@);
            assert(ascii_lowered(t.drop_last()) != "error"@);
            assert(ascii_lowered(t.drop_last()) != "fatal"@);
            assert("warn"@[0] != "crit"@[0]);
            assert(ascii_lowered(t.drop_last()) != "crit"@);
        },
        LevelKind::Info => {
            assert(t.drop_last() =~= "INFO"@);
            assert(trim_end(t.drop_last()) == t.drop_last());
            assert(ascii_lowered(t.drop_last()) =~= "info"@);
            assert("info"@[0] != "warn"@[0]);
            assert(ascii_lowered(t.drop_last()) != "warn"@);
            assert("info"@[0] != "crit"@[0]);
            assert(ascii_lowered(t.drop_last()) != "crit"@);
        },
        LevelKind::Debug => {
            assert(trim_end(t) == t);
            assert(ascii_lowered(t) =~= "debug"@);
            assert(ascii_lowered(t).len() != "error"@.len() || ascii_lowered(t)[0] != "error"@[0]);
            assert(ascii_lowered(t) != "error"@);
            assert(ascii_lowered(t).len() != "fatal"@.len() || ascii_lowered(t)[0] != "fatal"@[0]);
            assert(ascii_lowered(t) != "fatal"@);
        },
        LevelKind::Trace => {
            assert(trim_end(t) == t);
            assert(ascii_lowered(t) =~= "trace"@);
            assert(ascii_lowered(t).len() != "error"@.len() || ascii_lowered(t)[0] != "error"@[0]);
            assert(ascii_lowered(t) != "error"@);
            assert(ascii_lowered(t).len() != "fatal"@.len() || ascii_lowered(t)[0] != "fatal"@[0]);
            assert(ascii_lowered(t) != "fatal"@);
            assert(ascii_lowered(t).len() != "debug"@.len() || ascii_lowered(t)[0] != "debug"@[0]);
            assert(ascii_lowered(t) != "debug"@);
        },
        LevelKind::Unknown(_) => {},
    }
}

/// Distinct known levels get distinct colours in the level cell, and an error line's
/// level cell has the colour of its message.
pub proof fn law_level_tints_differ(l: LevelKind, m: LevelKind, a: App, row: ClassifiedLine)
    requires
        !(l is Unknown),
        !(m is Unknown),
        l != m,
    ensures
        level_cell(Some(l)).1 != level_cell(Some(m)).1,
        row.level matches Some(LogLevel::Error) ==> message_tint(a, row) == level_cell(Some(LevelKind::Error)).1,
{
}

} // verus!
