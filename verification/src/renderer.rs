//! One log line as one line of text, optionally with ANSI colours.

use vstd::prelude::*;
use owo_colors::{OwoColorize, Stream::Stdout, Style};
use crate::classifier::{ClassifiedLine, LevelKind, LogLevel};
use crate::config::{Config, texts};
use crate::json::{JsonValue, expand_value, expanded_text, value_text, value_to_string};
use crate::text::{
    after_char, before_char, chars_of, char_count, char_utf8_width, find_char, lemma_utf8_len_strict,
    lemma_utf8_len_take, push_char, str_contains, str_trim, string_from_chars, string_from_range, text_contains, to_uppercase,
    trim, uppercase, utf8_len,
};

verus! {

/// A colour or style that a piece of output gets when the terminal takes colours.
#[derive(Clone, Copy, PartialEq, Eq, Structural, Debug)]
pub enum Paint {
    /// Cyan foreground.
    Cyan,
    /// Red foreground.
    Red,
    /// White foreground.
    White,
    /// Bright black (grey) foreground.
    Dim,
    /// Bold red.
    BoldRed,
    /// Bold bright red: the `ERROR` badge.
    ErrorBadge,
    /// Bold bright yellow: the `WARN` badge.
    WarnBadge,
    /// Bold bright green: the `INFO` badge.
    InfoBadge,
    /// Bold bright blue: the `DEBUG` badge.
    DebugBadge,
    /// Bright black: the `TRACE` badge.
    TraceBadge,
}

/// The escape sequence that starts paint `p`.
pub open spec fn ansi_open(p: Paint) -> Seq<char> {
    match p {
        Paint::Cyan => "\x1b[36m"@,
        Paint::Red => "\x1b[31m"@,
        Paint::White => "\x1b[37m"@,
        Paint::Dim => "\x1b[90m"@,
        Paint::BoldRed => "\x1b[31;1m"@,
        Paint::ErrorBadge => "\x1b[91;1m"@,
        Paint::WarnBadge => "\x1b[93;1m"@,
        Paint::InfoBadge => "\x1b[92;1m"@,
        Paint::DebugBadge => "\x1b[94;1m"@,
        Paint::TraceBadge => "\x1b[90m"@,
    }
}

/// The escape sequence that ends paint `p`: plain colours reset the foreground,
/// styles reset everything.
pub open spec fn ansi_close(p: Paint) -> Seq<char> {
    match p {
        Paint::Cyan | Paint::Red | Paint::White | Paint::Dim => "\x1b[39m"@,
        _ => "\x1b[0m"@,
    }
}

/// `out` is `text`, either as it is or painted with `p`.
pub open spec fn painted_or_plain(out: Seq<char>, text: Seq<char>, p: Paint) -> bool {
    out == text || out == ansi_open(p) + text + ansi_close(p)
}

/// `owo_colors`: `text.if_supports_color(Stdout, |t| t.cyan())`, displayed.
/// Whether standard output takes colours is decided at run time (environment,
/// terminal, overrides), so the contract says only that the text comes back as it
/// was or between the escape codes of the colour.
#[verifier::external_body]
fn paint_cyan(text: &str) -> (out: String)
    ensures
        painted_or_plain(out@, text@, Paint::Cyan),
{
    format!("{}", text.if_supports_color(Stdout, |t| t.cyan()))
}

/// `owo_colors`: `text.if_supports_color(Stdout, |t| t.red())`, displayed; plain or red.
#[verifier::external_body]
fn paint_red(text: &str) -> (out: String)
    ensures
        painted_or_plain(out@, text@, Paint::Red),
{
    format!("{}", text.if_supports_color(Stdout, |t| t.red()))
}

/// `owo_colors`: `text.if_supports_color(Stdout, |t| t.white())`, displayed; plain or white.
#[verifier::external_body]
fn paint_white(text: &str) -> (out: String)
    ensures
        painted_or_plain(out@, text@, Paint::White),
{
    format!("{}", text.if_supports_color(Stdout, |t| t.white()))
}

/// `owo_colors`: `text.if_supports_color(Stdout, |t| t.bright_black())`, displayed;
/// plain or grey.
#[verifier::external_body]
fn paint_dim(text: &str) -> (out: String)
    ensures
        painted_or_plain(out@, text@, Paint::Dim),
{
    format!("{}", text.if_supports_color(Stdout, |t| t.bright_black()))
}

/// `owo_colors`: `text.if_supports_color(Stdout, |t| t.style(Style::new().bold().red()))`,
/// displayed; plain or bold red.
#[verifier::external_body]
fn paint_bold_red(text: &str) -> (out: String)
    ensures
        painted_or_plain(out@, text@, Paint::BoldRed),
{
    format!("{}", text.if_supports_color(Stdout, |t| t.style(Style::new().bold().red())))
}

/// `owo_colors`: `text.if_supports_color(Stdout, |t| t.style(Style::new().bold().bright_red()))`,
/// displayed; plain or bold bright red.
#[verifier::external_body]
fn paint_error_badge(text: &str) -> (out: String)
    ensures
        painted_or_plain(out@, text@, Paint::ErrorBadge),
{
    format!("{}", text.if_supports_color(Stdout, |t| t.style(Style::new().bold().bright_red())))
}

/// `owo_colors`: `text.if_supports_color(Stdout, |t| t.style(Style::new().bold().bright_yellow()))`,
/// displayed; plain or bold bright yellow.
#[verifier::external_body]
fn paint_warn_badge(text: &str) -> (out: String)
    ensures
        painted_or_plain(out@, text@, Paint::WarnBadge),
{
    format!("{}", text.if_supports_color(Stdout, |t| t.style(Style::new().bold().bright_yellow())))
}

/// `owo_colors`: `text.if_supports_color(Stdout, |t| t.style(Style::new().bold().bright_green()))`,
/// displayed; plain or bold bright green.
#[verifier::external_body]
fn paint_info_badge(text: &str) -> (out: String)
    ensures
        painted_or_plain(out@, text@, Paint::InfoBadge),
{
    format!("{}", text.if_supports_color(Stdout, |t| t.style(Style::new().bold().bright_green())))
}

/// `owo_colors`: `text.if_supports_color(Stdout, |t| t.style(Style::new().bold().bright_blue()))`,
/// displayed; plain or bold bright blue.
#[verifier::external_body]
fn paint_debug_badge(text: &str) -> (out: String)
    ensures
        painted_or_plain(out@, text@, Paint::DebugBadge),
{
    format!("{}", text.if_supports_color(Stdout, |t| t.style(Style::new().bold().bright_blue())))
}

/// `owo_colors`: `text.if_supports_color(Stdout, |t| t.style(Style::new().bright_black()))`,
/// displayed; plain or bright black.
#[verifier::external_body]
fn paint_trace_badge(text: &str) -> (out: String)
    ensures
        painted_or_plain(out@, text@, Paint::TraceBadge),
{
    format!("{}", text.if_supports_color(Stdout, |t| t.style(Style::new().bright_black())))
}

/// `text` painted with `p` when standard output takes colours.
pub fn paint(text: &str, p: Paint) -> (out: String)
    ensures
        painted_or_plain(out@, text@, p),
{
    match p {
        Paint::Cyan => paint_cyan(text),
        Paint::Red => paint_red(text),
        Paint::White => paint_white(text),
        Paint::Dim => paint_dim(text),
        Paint::BoldRed => paint_bold_red(text),
        Paint::ErrorBadge => paint_error_badge(text),
        Paint::WarnBadge => paint_warn_badge(text),
        Paint::InfoBadge => paint_info_badge(text),
        Paint::DebugBadge => paint_debug_badge(text),
        Paint::TraceBadge => paint_trace_badge(text),
    }
}

} // verus!

verus! {

/// `s` padded with spaces on the right to `w` characters (`format!("{:<w$}", s)`).
pub open spec fn pad_right(s: Seq<char>, w: nat) -> Seq<char> {
    if s.len() >= w {
        s
    } else {
        s + Seq::new((w - s.len()) as nat, |i: int| ' ')
    }
}

/// The five-character label of a level.
pub open spec fn level_label(l: LevelKind) -> Seq<char> {
    match l {
        LevelKind::Error => "ERROR"@,
        LevelKind::Warn => "WARN "@,
        LevelKind::Info => "INFO "@,
        LevelKind::Debug => "DEBUG"@,
        LevelKind::Trace => "TRACE"@,
        LevelKind::Unknown(s) => pad_right(uppercase(s), 5),
    }
}

/// The paint of a level's badge; unknown levels have none.
pub open spec fn badge_paint(l: LevelKind) -> Option<Paint> {
    match l {
        LevelKind::Error => Some(Paint::ErrorBadge),
        LevelKind::Warn => Some(Paint::WarnBadge),
        LevelKind::Info => Some(Paint::InfoBadge),
        LevelKind::Debug => Some(Paint::DebugBadge),
        LevelKind::Trace => Some(Paint::TraceBadge),
        LevelKind::Unknown(_) => None,
    }
}

/// Pads `s` with spaces on the right to `w` characters.
pub fn pad_to(s: String, w: usize) -> (r: String)
    ensures
        r@ == pad_right(s@, w as nat),
{
    let mut r = s;
    let n = char_count(r.as_str());
    let mut k = n;
    while k < w
        invariant
            n == s@.len(),
            n <= k <= w || (k == n && n >= w),
            r@ == s@ + Seq::new((k - n) as nat, |i: int| ' '),
        decreases w - k,
    {
        push_char(&mut r, ' ');
        k = k + 1;
        assert(r@ =~= s@ + Seq::new((k - n) as nat, |i: int| ' '));
    }
    if n >= w {
        assert(r@ =~= s@);
    }
    r
}

/// The five-character label of a level: `ERROR`, `WARN `, `INFO `, `DEBUG`, `TRACE`,
/// or an unknown level's name in upper case, padded to five characters.
pub fn format_level(lvl: &LogLevel) -> (s: String)
    ensures
        s@ == level_label(lvl@),
{
    match lvl {
        LogLevel::Error => String::from_str("ERROR"),
        LogLevel::Warn => String::from_str("WARN "),
        LogLevel::Info => String::from_str("INFO "),
        LogLevel::Debug => String::from_str("DEBUG"),
        LogLevel::Trace => String::from_str("TRACE"),
        LogLevel::Unknown(s) => pad_to(to_uppercase(s.as_str()), 5),
    }
}

/// The level badge: the label `s`, trimmed and framed by one space on each side, in
/// the level's colours; an unknown level keeps `s` as it is.
pub fn colorize_level(lvl: &LogLevel, s: &str) -> (r: String)
    ensures
        match badge_paint(lvl@) {
            Some(p) => painted_or_plain(r@, seq![' '] + trim(s@) + seq![' '], p),
            None => r@ == s@,
        },
{
    let mut padded = String::from_str(" ");
    let t = str_trim(s);
    padded.append(t.as_str());
    push_char(&mut padded, ' ');
    proof {
        reveal_strlit(" ");
        assert(padded@ =~= seq![' '] + trim(s@) + seq![' ']);
    }
    match lvl {
        LogLevel::Error => paint(padded.as_str(), Paint::ErrorBadge),
        LogLevel::Warn => paint(padded.as_str(), Paint::WarnBadge),
        LogLevel::Info => paint(padded.as_str(), Paint::InfoBadge),
        LogLevel::Debug => paint(padded.as_str(), Paint::DebugBadge),
        LogLevel::Trace => paint(padded.as_str(), Paint::TraceBadge),
        LogLevel::Unknown(_) => String::from_str(s),
    }
}

/// The message holds one of the words that mark an error.
pub open spec fn has_error_keyword(m: Seq<char>) -> bool {
    text_contains(m, "error"@) || text_contains(m, "Error"@) || text_contains(m, "ERROR"@)
        || text_contains(m, "err"@) || text_contains(m, "Err"@)
}

/// Whether `msg` holds `error`, `Error`, `ERROR`, `err` or `Err`.
pub fn contains_error_keyword(msg: &str) -> (b: bool)
    ensures
        b == has_error_keyword(msg@),
{
    str_contains(msg, "error") || str_contains(msg, "Error") || str_contains(msg, "ERROR")
        || str_contains(msg, "err") || str_contains(msg, "Err")
}

} // verus!

verus! {

/// The time of day in an ISO-8601 timestamp: what follows the first `T`, cut at the
/// first `.` and then at the first `Z`; `None` when there is no `T`.
pub open spec fn time_part(ts: Seq<char>) -> Option<Seq<char>> {
    match after_char(ts, 'T') {
        Some(a) => Some(before_char(before_char(a, '.'), 'Z')),
        None => None,
    }
}

/// The first `k` characters of `s` take exactly `n` bytes in UTF-8.
pub open spec fn cut_at_bytes(s: Seq<char>, n: nat, k: int) -> bool {
    0 <= k <= s.len() && utf8_len(s.take(k)) == n
}

/// At most the first `n` characters of `s`.
pub open spec fn first_chars(s: Seq<char>, n: nat) -> Seq<char> {
    if s.len() <= n {
        s
    } else {
        s.take(n as int)
    }
}

/// The timestamp can be shortened: a time part of eight bytes or more has a
/// character boundary at its eighth byte.
pub open spec fn timestamp_shortenable(ts: Seq<char>) -> bool {
    match time_part(ts) {
        Some(tp) => utf8_len(tp) >= 8 ==> exists|k: int| cut_at_bytes(tp, 8, k),
        None => true,
    }
}

/// The shortened timestamp: the first eight bytes of the time part, when it has
/// that many; otherwise the first 19 characters of the timestamp.
pub open spec fn shortened_timestamp(ts: Seq<char>) -> Seq<char> {
    match time_part(ts) {
        Some(tp) => if utf8_len(tp) >= 8 {
            tp.take(choose|k: int| cut_at_bytes(tp, 8, k))
        } else {
            first_chars(ts, 19)
        },
        None => first_chars(ts, 19),
    }
}

/// A cut at a given byte count is unique.
pub proof fn lemma_cut_unique(s: Seq<char>, n: nat, k1: int, k2: int)
    requires
        cut_at_bytes(s, n, k1),
        cut_at_bytes(s, n, k2),
    ensures
        k1 == k2,
{
    if k1 < k2 {
        lemma_utf8_len_strict(s, k1, k2);
    } else if k2 < k1 {
        lemma_utf8_len_strict(s, k2, k1);
    }
}

/// Whether `shorten_timestamp` can cut `ts`: false only where the eighth byte of the
/// time part falls inside a character.
pub fn timestamp_is_shortenable(ts: &str) -> (b: bool)
    ensures
        b == timestamp_shortenable(ts@),
{
    match time_span(ts) {
        None => true,
        Some((cs, start, stop)) => {
            let (k, bytes) = leading_bytes(&cs, start, stop);
            let ghost tp = cs@.subrange(start as int, stop as int);
            proof {
                if bytes == 8 {
                    assert(cut_at_bytes(tp, 8, k as int));
                }
                if bytes > 8 {
                    if exists|j: int| cut_at_bytes(tp, 8, j) {
                        let j = choose|j: int| cut_at_bytes(tp, 8, j);
                        if j < k {
                            if j < k - 1 {
                                lemma_utf8_len_strict(tp, j, k - 1);
                            }
                        } else if j > k {
                            lemma_utf8_len_strict(tp, k as int, j);
                        }
                    }
                }
            }
            bytes <= 8
        },
    }
}

/// The characters of `ts` and the bounds of its time part, when it has one.
fn time_span(ts: &str) -> (r: Option<(Vec<char>, usize, usize)>)
    ensures
        match r {
            Some((cs, start, stop)) => {
                &&& cs@ == ts@
                &&& start <= stop <= cs@.len()
                &&& time_part(ts@) == Some(cs@.subrange(start as int, stop as int))
            },
            None => time_part(ts@) is None,
        },
{
    let cs = chars_of(ts);
    let n = cs.len();
    let t = find_char(&cs, 0, n, 'T');
    assert(cs@.subrange(0, n as int) =~= cs@);
    if t < n {
        let e1 = find_char(&cs, t + 1, n, '.');
        let e2 = find_char(&cs, t + 1, e1, 'Z');
        Some((cs, t + 1, e2))
    } else {
        None
    }
}

/// Scans `cs[start..stop]` until its characters reach eight bytes: the number `k` of
/// characters taken and their byte count.
fn leading_bytes(cs: &Vec<char>, start: usize, stop: usize) -> (r: (usize, usize))
    requires
        start <= stop <= cs@.len(),
    ensures
        ({
            let tp = cs@.subrange(start as int, stop as int);
            let (k, bytes) = r;
            &&& k <= tp.len()
            &&& bytes == utf8_len(tp.take(k as int))
            &&& k == 0 || utf8_len(tp.take(k - 1)) < 8
            &&& (bytes >= 8 || k == tp.len())
            &&& (bytes >= 8 <==> utf8_len(tp) >= 8)
        }),
{
    let ghost tp = cs@.subrange(start as int, stop as int);
    let mut k: usize = 0;
    let mut bytes: usize = 0;
    while start + k < stop && bytes < 8
        invariant
            start <= stop <= cs@.len(),
            tp == cs@.subrange(start as int, stop as int),
            k <= tp.len(),
            bytes == utf8_len(tp.take(k as int)),
            k == 0 || utf8_len(tp.take(k - 1)) < 8,
            bytes < 12,
        decreases stop - start - k,
    {
        proof {
            lemma_utf8_len_take(tp, k as int);
        }
        let w = char_utf8_width(cs[start + k]);
        bytes = bytes + w;
        k = k + 1;
    }
    proof {
        assert(tp.take(tp.len() as int) =~= tp);
        if k < tp.len() {
            lemma_utf8_len_strict(tp, k as int, tp.len() as int);
        }
    }
    (k, bytes)
}

/// Shortens an ISO-8601 timestamp to its time of day (`2024-01-01T10:23:45.123Z`
/// becomes `10:23:45`); a timestamp without a usable time part keeps its first 19
/// characters.
pub fn shorten_timestamp(ts: &str) -> (r: String)
    requires
        timestamp_shortenable(ts@),
    ensures
        r@ == shortened_timestamp(ts@),
{
    match time_span(ts) {
        Some((cs, start, stop)) => {
            let (k, bytes) = leading_bytes(&cs, start, stop);
            let ghost tp = cs@.subrange(start as int, stop as int);
            if bytes >= 8 {
                proof {
                    let j = choose|j: int| cut_at_bytes(tp, 8, j);
                    if j < k && j < k - 1 {
                        lemma_utf8_len_strict(tp, j, k - 1);
                    } else if j > k {
                        lemma_utf8_len_strict(tp, k as int, j);
                    }
                    lemma_cut_unique(tp, 8, j, k as int);
                    assert(tp.take(k as int) =~= cs@.subrange(start as int, start + k));
                }
                return string_from_range(cs.as_slice(), start, start + k);
            }
            first_chars_of(&cs, 19)
        },
        None => {
            let cs = chars_of(ts);
            first_chars_of(&cs, 19)
        },
    }
}

/// At most the first `n` characters of `cs`.
fn first_chars_of(cs: &Vec<char>, n: usize) -> (r: String)
    ensures
        r@ == first_chars(cs@, n as nat),
{
    if cs.len() <= n {
        string_from_chars(cs.as_slice())
    } else {
        string_from_range(cs.as_slice(), 0, n)
    }
}

} // verus!

verus! {

/// A piece of a rendered line: its text and the paint it gets in colour.
pub type Piece = (Seq<char>, Option<Paint>);

/// `out` is how `piece` is shown: its text, painted when colours are on and it has a paint.
pub open spec fn shown_piece(out: Seq<char>, piece: Piece, no_color: bool) -> bool {
    match piece.1 {
        Some(p) => if no_color {
            out == piece.0
        } else {
            painted_or_plain(out, piece.0, p)
        },
        None => out == piece.0,
    }
}

/// `shown` shows `pieces`, one for one.
pub open spec fn shown_all(shown: Seq<Seq<char>>, pieces: Seq<Piece>, no_color: bool) -> bool {
    &&& shown.len() == pieces.len()
    &&& forall|i: int| 0 <= i < shown.len() ==> shown_piece(#[trigger] shown[i], pieces[i], no_color)
}

/// The texts of the pieces.
pub open spec fn piece_texts(pieces: Seq<Piece>) -> Seq<Seq<char>> {
    pieces.map_values(|p: Piece| p.0)
}

/// Continuation lines are shown grey.
pub open spec fn cont_pieces(conts: Seq<Seq<char>>) -> Seq<Piece> {
    conts.map_values(|c: Seq<char>| (c, Some(Paint::Dim)))
}

/// `parts` joined with `sep` between each two (`[String]::join`).
pub open spec fn joined(parts: Seq<Seq<char>>, sep: Seq<char>) -> Seq<char>
    decreases parts.len(),
{
    if parts.len() == 0 {
        Seq::empty()
    } else if parts.len() == 1 {
        parts[0]
    } else {
        joined(parts.drop_last(), sep) + sep + parts.last()
    }
}

/// Each continuation line on a line of its own, indented by two spaces.
pub open spec fn indented(conts: Seq<Seq<char>>) -> Seq<char>
    decreases conts.len(),
{
    if conts.len() == 0 {
        Seq::empty()
    } else {
        indented(conts.drop_last()) + "\n  "@ + conts.last()
    }
}

/// The output: the parts separated by two spaces, then the continuation lines.
pub open spec fn layout(parts: Seq<Seq<char>>, conts: Seq<Seq<char>>) -> Seq<char> {
    joined(parts, "  "@) + indented(conts)
}

/// `out` is the layout of `pieces` and continuation lines `conts`, each shown
/// plain or painted as the terminal decides.
pub open spec fn rendered_as(out: Seq<char>, pieces: Seq<Piece>, conts: Seq<Seq<char>>, no_color: bool) -> bool {
    exists|shown: Seq<Seq<char>>, cshown: Seq<Seq<char>>|
        shown_all(shown, pieces, no_color) && shown_all(cshown, cont_pieces(conts), no_color)
            && out == layout(shown, cshown)
}

/// Without colours the pieces are shown as they are.
pub proof fn lemma_shown_plain(shown: Seq<Seq<char>>, pieces: Seq<Piece>)
    requires
        shown_all(shown, pieces, true),
    ensures
        shown == piece_texts(pieces),
{
    assert(shown =~= piece_texts(pieces));
}

/// Lays out shown parts and continuation lines.
pub fn join_rendered(parts: &Vec<String>, conts: &Vec<String>) -> (r: String)
    ensures
        r@ == layout(texts(parts@), texts(conts@)),
{
    let ghost ps = texts(parts@);
    let ghost cs = texts(conts@);
    let mut r = String::new();
    let mut i: usize = 0;
    while i < parts.len()
        invariant
            ps == texts(parts@),
            i <= parts@.len(),
            r@ == joined(ps.take(i as int), "  "@),
        decreases parts.len() - i,
    {
        proof {
            assert(ps.take(i + 1).drop_last() =~= ps.take(i as int));
        }
        if i > 0 {
            r.append("  ");
        }
        r.append(parts[i].as_str());
        proof {
            reveal_strlit("  ");
            if i == 0 {
                assert(r@ =~= ps.take(1)[0]);
            } else {
                assert(r@ =~= joined(ps.take(i as int), "  "@) + "  "@ + ps.take(i + 1).last());
            }
        }
        i = i + 1;
    }
    assert(ps.take(parts@.len() as int) =~= ps);
    let ghost head = r@;
    let mut j: usize = 0;
    while j < conts.len()
        invariant
            cs == texts(conts@),
            j <= conts@.len(),
            r@ == head + indented(cs.take(j as int)),
        decreases conts.len() - j,
    {
        proof {
            assert(cs.take(j + 1).drop_last() =~= cs.take(j as int));
        }
        r.append("\n  ");
        r.append(conts[j].as_str());
        proof {
            assert(r@ =~= head + (indented(cs.take(j as int)) + "\n  "@ + cs.take(j + 1).last()));
        }
        j = j + 1;
    }
    assert(cs.take(conts@.len() as int) =~= cs);
    r
}

/// Appends how `piece` is shown.
fn push_shown(parts: &mut Vec<String>, out: String, Ghost(pcs): Ghost<Seq<Piece>>, Ghost(piece): Ghost<Piece>, Ghost(no_color): Ghost<bool>)
    requires
        shown_all(texts(old(parts)@), pcs, no_color),
        shown_piece(out@, piece, no_color),
    ensures
        shown_all(texts(final(parts)@), pcs.push(piece), no_color),
{
    parts.push(out);
    proof {
        let t = texts(parts@);
        assert forall|i: int| 0 <= i < t.len() implies shown_piece(#[trigger] t[i], pcs.push(piece)[i], no_color) by {
            if i < pcs.len() {
                assert(t[i] == texts(old(parts)@)[i]);
            }
        }
    }
}

/// Appends `text`, painted with `p` unless colours are off.
fn push_painted(parts: &mut Vec<String>, text: &str, p: Paint, no_color: bool, Ghost(pcs): Ghost<Seq<Piece>>)
    requires
        shown_all(texts(old(parts)@), pcs, no_color),
    ensures
        shown_all(texts(final(parts)@), pcs.push((text@, Some(p))), no_color),
{
    let out = if no_color {
        String::from_str(text)
    } else {
        paint(text, p)
    };
    push_shown(parts, out, Ghost(pcs), Ghost((text@, Some(p))), Ghost(no_color));
}

/// Joins `a` and `b`.
fn concat(a: &str, b: &str) -> (r: String)
    ensures
        r@ == a@ + b@,
{
    let mut r = String::from_str(a);
    r.append(b);
    r
}

/// Paints each continuation line grey unless colours are off.
fn show_continuations(conts: &Vec<String>, no_color: bool) -> (shown: Vec<String>)
    ensures
        shown_all(texts(shown@), cont_pieces(texts(conts@)), no_color),
{
    let ghost cp = cont_pieces(texts(conts@));
    let mut shown: Vec<String> = Vec::new();
    let mut i: usize = 0;
    while i < conts.len()
        invariant
            cp == cont_pieces(texts(conts@)),
            i <= conts@.len(),
            shown_all(texts(shown@), cp.take(i as int), no_color),
        decreases conts.len() - i,
    {
        push_painted(&mut shown, conts[i].as_str(), Paint::Dim, no_color, Ghost(cp.take(i as int)));
        assert(cp.take(i as int).push((conts@[i as int]@, Some(Paint::Dim))) =~= cp.take(i + 1));
        i = i + 1;
    }
    assert(cp.take(conts@.len() as int) =~= cp);
    shown
}

/// Renders a line that is not JSON: the line, grey in colour, then its continuation
/// lines, each on a line of its own, indented by two spaces.
pub fn render_raw(line: &str, continuations: &Vec<String>, no_color: bool) -> (r: String)
    ensures
        rendered_as(r@, seq![(line@, Some(Paint::Dim))], texts(continuations@), no_color),
        no_color ==> r@ == line@ + indented(texts(continuations@)),
{
    let mut parts: Vec<String> = Vec::new();
    push_painted(&mut parts, line, Paint::Dim, no_color, Ghost(Seq::empty()));
    let conts = show_continuations(continuations, no_color);
    let r = join_rendered(&parts, &conts);
    proof {
        let pieces = seq![(line@, Some(Paint::Dim))];
        assert(Seq::<Piece>::empty().push((line@, Some(Paint::Dim))) =~= pieces);
        assert(shown_all(texts(parts@), pieces, no_color));
        if no_color {
            lemma_shown_plain(texts(conts@), cont_pieces(texts(continuations@)));
            assert(piece_texts(cont_pieces(texts(continuations@))) =~= texts(continuations@));
            assert(texts(parts@) =~= seq![line@]);
        }
    }
    r
}

} // verus!

verus! {

/// The timestamp piece, cyan.
pub open spec fn timestamp_pieces(line: ClassifiedLine) -> Seq<Piece> {
    match line.timestamp {
        Some(ts) => seq![(shortened_timestamp(ts@), Some(Paint::Cyan))],
        None => Seq::empty(),
    }
}

/// The level piece: the label without colours; in colour, the badge of a known level.
pub open spec fn level_pieces(line: ClassifiedLine, no_color: bool) -> Seq<Piece> {
    match line.level {
        Some(l) => if no_color || badge_paint(l@) is None {
            seq![(level_label(l@), None)]
        } else {
            seq![(seq![' '] + trim(level_label(l@)) + seq![' '], badge_paint(l@))]
        },
        None => Seq::empty(),
    }
}

/// The paint of the message: bold red when error words are highlighted and it holds
/// one; otherwise red for an error line and white for any other.
pub open spec fn message_paint(line: ClassifiedLine, config: Config, m: Seq<char>) -> Paint {
    if config.highlight_errors && has_error_keyword(m) {
        Paint::BoldRed
    } else if line.level matches Some(LogLevel::Error) {
        Paint::Red
    } else {
        Paint::White
    }
}

/// The message piece.
pub open spec fn message_pieces(line: ClassifiedLine, config: Config) -> Seq<Piece> {
    match line.message {
        Some(m) => seq![(m@, Some(message_paint(line, config, m@)))],
        None => Seq::empty(),
    }
}

/// The `trace=` and `caller=` pieces, grey.
pub open spec fn tagged_pieces(line: ClassifiedLine) -> Seq<Piece> {
    (match line.trace_id {
        Some(t) => seq![("trace="@ + t@, Some(Paint::Dim))],
        None => Seq::<Piece>::empty(),
    }) + (match line.caller {
        Some(c) => seq![("caller="@ + c@, Some(Paint::Dim))],
        None => Seq::<Piece>::empty(),
    })
}

/// The text of an extra field: `key=value`, the value expanded when asked.
pub open spec fn extra_text(e: (String, JsonValue), expand: bool) -> Seq<char> {
    e.0@ + "="@ + if expand {
        expanded_text(e.1@)
    } else {
        value_text(e.1@)
    }
}

/// The extra-field pieces, grey.
pub open spec fn extra_pieces(extras: Seq<(String, JsonValue)>, expand: bool) -> Seq<Piece> {
    extras.map_values(|e: (String, JsonValue)| (extra_text(e, expand), Some(Paint::Dim)))
}

/// The pieces of a rendered log line, in order: timestamp, level, message, trace id,
/// caller, extra fields.
pub open spec fn line_pieces(line: ClassifiedLine, config: Config, no_color: bool) -> Seq<Piece> {
    timestamp_pieces(line) + level_pieces(line, no_color) + message_pieces(line, config)
        + tagged_pieces(line) + extra_pieces(line.extras@, config.expand_nested)
}

/// Appends the timestamp piece.
fn push_timestamp(parts: &mut Vec<String>, line: &ClassifiedLine, no_color: bool, Ghost(pcs): Ghost<Seq<Piece>>)
    requires
        shown_all(texts(old(parts)@), pcs, no_color),
        line.timestamp matches Some(ts) ==> timestamp_shortenable(ts@),
    ensures
        shown_all(texts(final(parts)@), pcs + timestamp_pieces(*line), no_color),
{
    if let Some(ts) = &line.timestamp {
        let short = shorten_timestamp(ts.as_str());
        push_painted(parts, short.as_str(), Paint::Cyan, no_color, Ghost(pcs));
        assert(pcs.push((short@, Some(Paint::Cyan))) =~= pcs + timestamp_pieces(*line));
    } else {
        assert(pcs + timestamp_pieces(*line) =~= pcs);
    }
}

/// Appends the level piece.
fn push_level(parts: &mut Vec<String>, line: &ClassifiedLine, no_color: bool, Ghost(pcs): Ghost<Seq<Piece>>)
    requires
        shown_all(texts(old(parts)@), pcs, no_color),
    ensures
        shown_all(texts(final(parts)@), pcs + level_pieces(*line, no_color), no_color),
{
    if let Some(lvl) = &line.level {
        let label = format_level(lvl);
        let ghost piece: Piece = if no_color || badge_paint(lvl@) is None {
            (level_label(lvl@), None)
        } else {
            (seq![' '] + trim(level_label(lvl@)) + seq![' '], badge_paint(lvl@))
        };
        if no_color {
            push_shown(parts, label, Ghost(pcs), Ghost(piece), Ghost(no_color));
        } else {
            let badge = colorize_level(lvl, label.as_str());
            push_shown(parts, badge, Ghost(pcs), Ghost(piece), Ghost(no_color));
        }
        assert(pcs.push(piece) =~= pcs + level_pieces(*line, no_color));
    } else {
        assert(pcs + level_pieces(*line, no_color) =~= pcs);
    }
}

/// Appends the message piece.
fn push_message(parts: &mut Vec<String>, line: &ClassifiedLine, config: &Config, no_color: bool, Ghost(pcs): Ghost<Seq<Piece>>)
    requires
        shown_all(texts(old(parts)@), pcs, no_color),
    ensures
        shown_all(texts(final(parts)@), pcs + message_pieces(*line, *config), no_color),
{
    if let Some(msg) = &line.message {
        let p = if config.highlight_errors && contains_error_keyword(msg.as_str()) {
            Paint::BoldRed
        } else if matches!(line.level, Some(LogLevel::Error)) {
            Paint::Red
        } else {
            Paint::White
        };
        push_painted(parts, msg.as_str(), p, no_color, Ghost(pcs));
        assert(pcs.push((msg@, Some(p))) =~= pcs + message_pieces(*line, *config));
    } else {
        assert(pcs + message_pieces(*line, *config) =~= pcs);
    }
}

/// Appends the `trace=` and `caller=` pieces.
fn push_tags(parts: &mut Vec<String>, line: &ClassifiedLine, no_color: bool, Ghost(pcs): Ghost<Seq<Piece>>)
    requires
        shown_all(texts(old(parts)@), pcs, no_color),
    ensures
        shown_all(texts(final(parts)@), pcs + tagged_pieces(*line), no_color),
{
    let ghost mut cur = pcs;
    if let Some(tid) = &line.trace_id {
        let t = concat("trace=", tid.as_str());
        push_painted(parts, t.as_str(), Paint::Dim, no_color, Ghost(cur));
        proof {
            cur = cur.push((t@, Some(Paint::Dim)));
        }
    }
    if let Some(c) = &line.caller {
        let t = concat("caller=", c.as_str());
        push_painted(parts, t.as_str(), Paint::Dim, no_color, Ghost(cur));
        proof {
            cur = cur.push((t@, Some(Paint::Dim)));
        }
    }
    assert(cur =~= pcs + tagged_pieces(*line));
}

/// Appends the extra-field pieces.
fn push_extras(parts: &mut Vec<String>, line: &ClassifiedLine, config: &Config, no_color: bool, Ghost(pcs): Ghost<Seq<Piece>>)
    requires
        shown_all(texts(old(parts)@), pcs, no_color),
    ensures
        shown_all(texts(final(parts)@), pcs + extra_pieces(line.extras@, config.expand_nested), no_color),
{
    let ghost ep = extra_pieces(line.extras@, config.expand_nested);
    let mut i: usize = 0;
    assert(pcs + ep.take(0) =~= pcs);
    while i < line.extras.len()
        invariant
            ep == extra_pieces(line.extras@, config.expand_nested),
            i <= line.extras@.len(),
            shown_all(texts(parts@), pcs + ep.take(i as int), no_color),
        decreases line.extras.len() - i,
    {
        let (k, v) = &line.extras[i];
        let val = if config.expand_nested {
            expand_value(v)
        } else {
            value_to_string(v)
        };
        let mut t = concat(k.as_str(), "=");
        t.append(val.as_str());
        push_painted(parts, t.as_str(), Paint::Dim, no_color, Ghost(pcs + ep.take(i as int)));
        proof {
            assert(t@ == extra_text(line.extras@[i as int], config.expand_nested));
            assert((pcs + ep.take(i as int)).push((t@, Some(Paint::Dim))) =~= pcs + ep.take(i + 1));
        }
        i = i + 1;
    }
    assert(ep.take(line.extras@.len() as int) =~= ep);
}

/// Renders a classified log line: timestamp (time of day), level, message, trace id,
/// caller and extra fields, separated by two spaces, then the continuation lines,
/// each on a line of its own, indented by two spaces.
pub fn render(line: &ClassifiedLine, config: &Config, no_color: bool) -> (r: String)
    requires
        line.timestamp matches Some(ts) ==> timestamp_shortenable(ts@),
    ensures
        rendered_as(r@, line_pieces(*line, *config, no_color), texts(line.continuation_lines@), no_color),
        no_color ==> r@ == layout(
            piece_texts(line_pieces(*line, *config, no_color)),
            texts(line.continuation_lines@),
        ),
{
    let mut parts: Vec<String> = Vec::new();
    let ghost p0: Seq<Piece> = Seq::empty();
    assert(texts(parts@) =~= Seq::<Seq<char>>::empty());
    push_timestamp(&mut parts, line, no_color, Ghost(p0));
    let ghost p1 = p0 + timestamp_pieces(*line);
    push_level(&mut parts, line, no_color, Ghost(p1));
    let ghost p2 = p1 + level_pieces(*line, no_color);
    push_message(&mut parts, line, config, no_color, Ghost(p2));
    let ghost p3 = p2 + message_pieces(*line, *config);
    push_tags(&mut parts, line, no_color, Ghost(p3));
    let ghost p4 = p3 + tagged_pieces(*line);
    push_extras(&mut parts, line, config, no_color, Ghost(p4));
    let conts = show_continuations(&line.continuation_lines, no_color);
    let r = join_rendered(&parts, &conts);
    proof {
        let pieces = line_pieces(*line, *config, no_color);
        assert(p4 + extra_pieces(line.extras@, config.expand_nested) =~= pieces);
        if no_color {
            lemma_shown_plain(texts(parts@), pieces);
            lemma_shown_plain(texts(conts@), cont_pieces(texts(line.continuation_lines@)));
            assert(piece_texts(cont_pieces(texts(line.continuation_lines@))) =~= texts(line.continuation_lines@));
        }
    }
    r
}

} // verus!
