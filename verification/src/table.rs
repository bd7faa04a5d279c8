//! The interactive table view: columns, row layout, search and navigation.

use vstd::prelude::*;
use vstd::utf8::encode_utf8;
use crate::classifier::{ClassifiedLine, classified_as, classify};
use crate::config::Config;
use crate::json::{JsonValue, fields_view, json_object_entries, value_text, value_to_string};
use crate::keyed::{insert_by_key_exec, pairs_text, sort_by_key, sort_text_pairs};
use crate::kmp::occurs_in;
use crate::parser::{ParseResult, parse_line};
use crate::reader::LogicalLine;
use crate::search::KmpSearcher;
use crate::text::{char_count, decimal, lowercase, pop_char, push_char, push_decimal, trim};

verus! {

// ----- columns -----

/// A column of the table.
#[derive(Debug, Clone, Copy, PartialEq, Eq, Structural)]
pub enum Column {
    Time,
    Level,
    Message,
}

impl Column {
    /// Reads a column name.
    pub fn from_str(s: &str) -> (c: Option<Self>)
        ensures
            c == if s@ == "time"@ {
                Some(Column::Time)
            } else if s@ == "level"@ {
                Some(Column::Level)
            } else if s@ == "message"@ {
                Some(Column::Message)
            } else {
                None::<Column>
            },
    {
        if crate::text::text_eq(s, "time") {
            Some(Column::Time)
        } else if crate::text::text_eq(s, "level") {
            Some(Column::Level)
        } else if crate::text::text_eq(s, "message") {
            Some(Column::Message)
        } else {
            None
        }
    }

    /// The heading of the column.
    pub fn header(&self) -> (h: &'static str)
        ensures
            h@ == match self {
                Column::Time => "TIME"@,
                Column::Level => "LEVEL"@,
                Column::Message => "MESSAGE"@,
            },
    {
        match self {
            Column::Time => "TIME",
            Column::Level => "LEVEL",
            Column::Message => "MESSAGE",
        }
    }

    /// Fixed width of the column; the message column has none and takes what is left.
    pub fn fixed_width(&self) -> (w: Option<u16>)
        ensures
            w == column_fixed_width(*self),
    {
        match self {
            Column::Time => Some(20),
            Column::Level => Some(5),
            Column::Message => None,
        }
    }
}

/// Fixed width of a column.
pub open spec fn column_fixed_width(c: Column) -> Option<u16> {
    match c {
        Column::Time => Some(20u16),
        Column::Level => Some(5u16),
        Column::Message => None,
    }
}

/// Sum of the fixed widths of `cols`.
pub open spec fn fixed_total(cols: Seq<Column>) -> nat
    decreases cols.len(),
{
    if cols.len() == 0 {
        0
    } else {
        fixed_total(cols.drop_last()) + match column_fixed_width(cols.last()) {
            Some(w) => w as nat,
            None => 0nat,
        }
    }
}

/// Width of the message column for `tw` terminal columns: what the fixed columns and
/// the one-column separators leave, and at least 20.
pub open spec fn message_width(cols: Seq<Column>, tw: u16) -> u16 {
    let sep = (if cols.len() == 0 { 0 } else { cols.len() - 1 }) % 0x10000;
    let rest = tw as int - fixed_total(cols) - sep;
    if rest < 20 { 20 } else { rest as u16 }
}

/// Widths of the columns.
pub struct ColWidths {
    pub widths: Vec<(Column, u16)>,
}

impl ColWidths {
    /// Lays out `columns` on a terminal `terminal_width` columns wide.
    pub fn compute(columns: &[Column], terminal_width: u16) -> (cw: Self)
        requires
            fixed_total(columns@) <= u16::MAX,
        ensures
            cw.widths@.len() == columns@.len(),
            forall|i: int| 0 <= i < columns@.len() ==> #[trigger] cw.widths@[i] == (columns@[i], match column_fixed_width(columns@[i]) {
                Some(w) => w,
                None => message_width(columns@, terminal_width),
            }),
    {
        let separator_total: u16 = if columns.len() == 0 { 0 } else { ((columns.len() - 1) % 0x10000) as u16 };
        let mut fixed: u16 = 0;
        let mut i: usize = 0;
        while i < columns.len()
            invariant
                i <= columns@.len(),
                fixed_total(columns@) <= u16::MAX,
                fixed as nat == fixed_total(columns@.take(i as int)),
            decreases columns.len() - i,
        {
            proof {
                assert(columns@.take(i + 1).drop_last() =~= columns@.take(i as int));
                lemma_fixed_total_prefix(columns@, i + 1);
            }
            match columns[i].fixed_width() {
                Some(w) => { fixed = fixed + w; },
                None => {},
            }
            i = i + 1;
        }
        assert(columns@.take(columns@.len() as int) =~= columns@);
        let msg_width = terminal_width.saturating_sub(fixed).saturating_sub(separator_total);
        let msg_width = if msg_width < 20 { 20 } else { msg_width };
        let mut widths: Vec<(Column, u16)> = Vec::new();
        let mut j: usize = 0;
        while j < columns.len()
            invariant
                j <= columns@.len(),
                msg_width == message_width(columns@, terminal_width),
                widths@.len() == j,
                forall|k: int| 0 <= k < j ==> #[trigger] widths@[k] == (columns@[k], match column_fixed_width(columns@[k]) {
                    Some(w) => w,
                    None => message_width(columns@, terminal_width),
                }),
            decreases columns.len() - j,
        {
            let c = columns[j];
            let w = match c.fixed_width() {
                Some(w) => w,
                None => msg_width,
            };
            widths.push((c, w));
            j = j + 1;
        }
        ColWidths { widths }
    }

    /// The width of `col`, or 0 when it is not laid out.
    pub fn width_of(&self, col: &Column) -> (w: u16)
        ensures
            w == width_in(self.widths@, *col),
    {
        let mut i: usize = 0;
        while i < self.widths.len()
            invariant
                i <= self.widths@.len(),
                forall|k: int| 0 <= k < i ==> (#[trigger] self.widths@[k]).0 != *col,
            decreases self.widths.len() - i,
        {
            if self.widths[i].0 == *col {
                proof {
                    lemma_width_in_first(self.widths@, *col, i as int);
                }
                return self.widths[i].1;
            }
            i = i + 1;
        }
        proof {
            lemma_width_in_absent(self.widths@, *col);
        }
        0
    }
}

/// The width of the first entry for `col` in `ws`, or 0.
pub open spec fn width_in(ws: Seq<(Column, u16)>, col: Column) -> u16
    decreases ws.len(),
{
    if ws.len() == 0 {
        0
    } else if ws[0].0 == col {
        ws[0].1
    } else {
        width_in(ws.drop_first(), col)
    }
}

proof fn lemma_width_in_first(ws: Seq<(Column, u16)>, col: Column, i: int)
    requires
        0 <= i < ws.len(),
        ws[i].0 == col,
        forall|k: int| 0 <= k < i ==> (#[trigger] ws[k]).0 != col,
    ensures
        width_in(ws, col) == ws[i].1,
    decreases i,
{
    if i > 0 {
        assert forall|k: int| 0 <= k < i - 1 implies (#[trigger] ws.drop_first()[k]).0 != col by {
            assert(ws.drop_first()[k] == ws[k + 1]);
        }
        lemma_width_in_first(ws.drop_first(), col, i - 1);
    }
}

proof fn lemma_width_in_absent(ws: Seq<(Column, u16)>, col: Column)
    requires
        forall|k: int| 0 <= k < ws.len() ==> (#[trigger] ws[k]).0 != col,
    ensures
        width_in(ws, col) == 0,
    decreases ws.len(),
{
    if ws.len() > 0 {
        assert forall|k: int| 0 <= k < ws.len() - 1 implies (#[trigger] ws.drop_first()[k]).0 != col by {
            assert(ws.drop_first()[k] == ws[k + 1]);
        }
        lemma_width_in_absent(ws.drop_first(), col);
    }
}

proof fn lemma_fixed_total_prefix(cols: Seq<Column>, n: int)
    requires
        0 <= n <= cols.len(),
    ensures
        fixed_total(cols.take(n)) <= fixed_total(cols),
    decreases cols.len() - n,
{
    if n < cols.len() {
        lemma_fixed_total_prefix(cols, n + 1);
        assert(cols.take(n + 1).drop_last() =~= cols.take(n));
    } else {
        assert(cols.take(n) =~= cols);
    }
}

// ----- line counting -----

/// Lines needed to wrap `char_count` characters at `width` per line; at least one.
pub open spec fn wrapped_lines(char_count: nat, width: nat) -> nat {
    if width == 0 || char_count == 0 {
        1
    } else {
        ((char_count + width - 1) / width as int) as nat
    }
}

/// Number of lines that `char_count` characters take when wrapped at `width`.
pub fn wrap_line_count(char_count: usize, width: usize) -> (n: usize)
    ensures
        n == wrapped_lines(char_count as nat, width as nat),
{
    if width == 0 || char_count == 0 {
        return 1;
    }
    let q = char_count / width;
    proof {
        if char_count % width != 0 {
            assert(width >= 2);
            let c = char_count as int;
            let w = width as int;
            assert(c / w <= c / 2) by (nonlinear_arith)
                requires w >= 2, c >= 0;
        }
    }
    let n = if char_count % width == 0 { q } else { q + 1 };
    proof {
        let c = char_count as int;
        let w = width as int;
        assert(c == w * (c / w) + c % w) by (nonlinear_arith)
            requires w > 0;
        assert((c + w - 1) / w == if c % w == 0 { c / w } else { c / w + 1 }) by (nonlinear_arith)
            requires w > 0, c >= 0, c == w * (c / w) + c % w, 0 <= c % w < w;
    }
    n
}


/// Width of the `key: value` token of a detail pair.
pub open spec fn token_width(p: (String, String)) -> nat {
    p.0@.len() + 2 + p.1@.len()
}

/// Greedy packing of detail tokens into lines at most `w` wide, separated by one space:
/// the number of lines so far and the width of the last one. A token wider than `w`
/// takes a line of its own.
pub open spec fn packing(pairs: Seq<(String, String)>, w: nat) -> (nat, nat)
    decreases pairs.len(),
{
    if pairs.len() == 0 {
        (1, 0)
    } else {
        let (lines, cur) = packing(pairs.drop_last(), w);
        let t = token_width(pairs.last());
        let sep: nat = if cur == 0 { 0 } else { 1 };
        if cur != 0 && cur + sep + t > w {
            (lines + 1, t)
        } else {
            (lines, cur + sep + t)
        }
    }
}

/// Number of lines that the detail pairs take when packed at width `w`.
pub open spec fn compact_lines(pairs: Seq<(String, String)>, w: nat) -> nat {
    if pairs.len() == 0 {
        0
    } else {
        packing(pairs, w).0
    }
}

/// The lines of the greedy packing, each a list of pairs.
pub open spec fn packed_lines(pairs: Seq<(String, String)>, w: nat) -> Seq<Seq<(String, String)>>
    decreases pairs.len(),
{
    if pairs.len() == 0 {
        Seq::empty()
    } else {
        let before = packed_lines(pairs.drop_last(), w);
        let cur = packing(pairs.drop_last(), w).1;
        let t = token_width(pairs.last());
        let sep: nat = if cur == 0 { 0 } else { 1 };
        if before.len() == 0 || (cur != 0 && cur + sep + t > w) {
            before.push(seq![pairs.last()])
        } else {
            before.update(before.len() - 1, before.last().push(pairs.last()))
        }
    }
}

/// The width of the `key: value` token of a pair.
fn token_width_exec(p: &(String, String)) -> (t: u128)
    ensures
        t == token_width(*p),
        t <= 2 * (usize::MAX as int) + 2,
{
    (char_count(p.0.as_str()) as u128) + 2 + (char_count(p.1.as_str()) as u128)
}

/// Number of lines that the detail pairs take in the message column of width `max_width`.
pub fn compact_line_count(detail_pairs: &[(String, String)], max_width: usize) -> (n: usize)
    ensures
        n == compact_lines(detail_pairs@, max_width as nat),
{
    if detail_pairs.len() == 0 {
        return 0;
    }
    let mut lines: usize = 1;
    let mut current: u128 = 0;
    let mut i: usize = 0;
    while i < detail_pairs.len()
        invariant
            i <= detail_pairs@.len(),
            (lines as nat, current as nat) == packing(detail_pairs@.take(i as int), max_width as nat),
            1 <= lines <= if i == 0 { 1 } else { i as int },
            current <= max_width as int + 2 * (usize::MAX as int) + 2,
            i > 0 ==> current > 0,
        decreases detail_pairs.len() - i,
    {
        let t = token_width_exec(&detail_pairs[i]);
        proof {
            assert(detail_pairs@.take(i + 1).drop_last() =~= detail_pairs@.take(i as int));
            assert(detail_pairs@.take(i + 1).last() == detail_pairs@[i as int]);
        }
        let sep: u128 = if current == 0 { 0 } else { 1 };
        if current != 0 && current + sep + t > max_width as u128 {
            lines = lines + 1;
            current = t;
        } else {
            current = current + sep + t;
        }
        i = i + 1;
    }
    assert(detail_pairs@.take(detail_pairs@.len() as int) =~= detail_pairs@);
    lines
}


/// The lists of a list of vectors.
pub open spec fn lines_view(v: Seq<Vec<(String, String)>>) -> Seq<Seq<(String, String)>> {
    v.map_values(|l: Vec<(String, String)>| l@)
}

proof fn lemma_packing_width_positive(pairs: Seq<(String, String)>, w: nat)
    ensures
        (packing(pairs, w).1 == 0) == (pairs.len() == 0),
    decreases pairs.len(),
{
    if pairs.len() > 0 {
        lemma_packing_width_positive(pairs.drop_last(), w);
    }
}

/// Packs the detail pairs into display lines at most `max_width` wide (a pair wider
/// than that takes a line of its own).
pub fn compact_detail_lines(detail_pairs: &[(String, String)], max_width: usize) -> (lines: Vec<Vec<(String, String)>>)
    ensures
        lines_view(lines@) == packed_lines(detail_pairs@, max_width as nat),
{
    let ghost w = max_width as nat;
    let mut lines: Vec<Vec<(String, String)>> = Vec::new();
    let mut current: Vec<(String, String)> = Vec::new();
    let mut current_width: u128 = 0;
    let mut i: usize = 0;
    while i < detail_pairs.len()
        invariant
            i <= detail_pairs@.len(),
            w == max_width as nat,
            current_width as nat == packing(detail_pairs@.take(i as int), w).1,
            current_width <= max_width as int + 2 * (usize::MAX as int) + 2,
            (current@.len() == 0) == (i == 0),
            i == 0 ==> lines@.len() == 0,
            i > 0 ==> lines_view(lines@).push(current@) == packed_lines(detail_pairs@.take(i as int), w),
        decreases detail_pairs.len() - i,
    {
        let ghost prefix = detail_pairs@.take(i as int);
        let ghost next = detail_pairs@.take(i + 1);
        proof {
            assert(next.drop_last() =~= prefix);
            assert(next.last() == detail_pairs@[i as int]);
            lemma_packing_width_positive(prefix, w);
        }
        let pair = &detail_pairs[i];
        let t = token_width_exec(pair);
        let sep: u128 = if current.len() == 0 { 0 } else { 1 };
        let ghost old_lines = lines@;
        let ghost old_current = current@;
        let ghost old_width = current_width;
        let brk = current.len() != 0 && current_width + sep + t > max_width as u128;
        if brk {
            let done = current;
            lines.push(done);
            current = Vec::new();
            current_width = 0;
            proof {
                assert(lines_view(lines@) =~= lines_view(old_lines).push(old_current));
            }
        }
        if current.len() != 0 {
            current_width = current_width + 1;
        }
        current_width = current_width + t;
        let copy = (pair.0.clone(), pair.1.clone());
        assert(copy == detail_pairs@[i as int]);
        let ghost mid_current = current@;
        current.push(copy);
        proof {
            assert(current@ == mid_current.push(detail_pairs@[i as int]));
            assert(current_width == if brk { t as int } else { old_width + sep + t });
            let pk = packed_lines(prefix, w);
            let cur = packing(prefix, w).1;
            assert(cur == 0 <==> i == 0);
            assert(packing(next, w).1 == if cur != 0 && cur + sep + t > w { t as int } else { cur + sep + t });
            assert((old_current.len() == 0) == (cur == 0));
            assert(old_width == cur);

            assert(current_width as nat == packing(next, w).1);
            if i == 0 {
                assert(lines_view(lines@).push(current@) =~~= seq![seq![detail_pairs@[0]]]);
                assert(packed_lines(next, w) =~= Seq::<Seq<(String, String)>>::empty().push(seq![detail_pairs@[0]]));
            } else if old_current.len() != 0 && lines@.len() > old_lines.len() {
                assert(current@ =~= seq![detail_pairs@[i as int]]);
                assert(lines_view(lines@).push(current@) =~= pk.push(seq![detail_pairs@[i as int]]));
            } else {
                assert(lines@ == old_lines);
                assert(current@ =~= old_current.push(detail_pairs@[i as int]));
                assert(pk.last() == old_current);
                assert(lines_view(lines@).push(current@) =~= pk.update(pk.len() - 1, pk.last().push(detail_pairs@[i as int])));
            }
        }
        i = i + 1;
    }
    let ghost before = lines@;
    if current.len() != 0 {
        lines.push(current);
        assert(lines_view(lines@) =~= lines_view(before).push(current@));
    }
    assert(detail_pairs@.take(detail_pairs@.len() as int) =~= detail_pairs@);
    proof {
        if detail_pairs@.len() == 0 {
            assert(lines_view(lines@) =~= Seq::<Seq<(String, String)>>::empty());
        }
    }
    lines
}

/// The number of packed display lines is the number that `compact_line_count` reports,
/// and together they hold every detail pair once, in order.
pub proof fn law_packed_lines_count(pairs: Seq<(String, String)>, w: nat)
    ensures
        packed_lines(pairs, w).len() == compact_lines(pairs, w),
        packed_lines(pairs, w).flatten() == pairs,
    decreases pairs.len(),
{
    if pairs.len() > 0 {
        let d = pairs.drop_last();
        law_packed_lines_count(d, w);
        let before = packed_lines(d, w);
        lemma_packing_width_positive(d, w);
        if d.len() > 0 {
            assert(before.len() == packing(d, w).0);
        }
        let cur = packing(d, w).1;
        let t = token_width(pairs.last());
        let sep: nat = if cur == 0 { 0 } else { 1 };
        if before.len() == 0 || (cur != 0 && cur + sep + t > w) {
            before.lemma_flatten_push(seq![pairs.last()]);
            assert(seq![pairs.last()] =~= Seq::empty().push(pairs.last()));
            assert(d + seq![pairs.last()] =~= pairs);
        } else {
            let last = before.last();
            let front = before.drop_last();
            assert(before =~= front.push(last));
            front.lemma_flatten_push(last);
            front.lemma_flatten_push(last.push(pairs.last()));
            assert(before.update(before.len() - 1, last.push(pairs.last())) =~= front.push(last.push(pairs.last())));
            assert(front.flatten() + last.push(pairs.last()) =~= (front.flatten() + last).push(pairs.last()));
            assert(d.push(pairs.last()) =~= pairs);
        }
    }
}


// ----- detail pairs -----

/// `n` in decimal, padded with a zero to at least two digits (`{:02}`).
pub open spec fn two_digits(n: nat) -> Seq<char> {
    if n < 10 {
        seq!['0'] + decimal(n)
    } else {
        decimal(n)
    }
}

/// The `(key, text)` detail pairs of a line before sorting: trace id, caller, the extra
/// fields and the continuation lines numbered from `continuation_01`.
pub open spec fn detail_texts(row: ClassifiedLine) -> Seq<(Seq<char>, Seq<char>)> {
    let t = trace_part(row);
    let c = caller_part(row);
    let e = row.extras@.map_values(|f: (String, JsonValue)| (f.0@, value_text(f.1@)));
    let k = Seq::new(row.continuation_lines@.len(), |i: int| ("continuation_"@ + two_digits((i + 1) as nat), row.continuation_lines@[i]@));
    t + c + e + k
}

/// The trace id pair of a line, if any.
pub open spec fn trace_part(row: ClassifiedLine) -> Seq<(Seq<char>, Seq<char>)> {
    match row.trace_id {
        Some(tid) => seq![("trace_id"@, tid@)],
        None => Seq::empty(),
    }
}

/// The caller pair of a line, if any.
pub open spec fn caller_part(row: ClassifiedLine) -> Seq<(Seq<char>, Seq<char>)> {
    match row.caller {
        Some(cl) => seq![("caller"@, cl@)],
        None => Seq::empty(),
    }
}

/// Adds a pair to a key-sorted list, keeping the list equal to the sorted pairs so far.
fn add_sorted(v: &mut Vec<(String, String)>, p: (String, String), Ghost(all): Ghost<Seq<(String, String)>>) -> (next: Ghost<Seq<(String, String)>>)
    requires
        old(v)@ == sort_by_key(all),
    ensures
        next@ == all.push(p),
        final(v)@ == sort_by_key(next@),
{
    let ghost next = all.push(p);
    assert(next.drop_last() =~= all);
    insert_by_key_exec(v, p);
    Ghost(next)
}

/// The detail pairs of a row, sorted by key.
pub fn collect_detail_pairs(row: &ClassifiedLine) -> (pairs: Vec<(String, String)>)
    ensures
        pairs_text(pairs@) == sort_text_pairs(detail_texts(*row)),
{
    let mut pairs: Vec<(String, String)> = Vec::new();
    let ghost mut all: Seq<(String, String)> = Seq::empty();
    if let Some(tid) = &row.trace_id {
        let Ghost(n) = add_sorted(&mut pairs, (String::from_str("trace_id"), tid.clone()), Ghost(all));
        proof { all = n; }
    }
    if let Some(c) = &row.caller {
        let Ghost(n) = add_sorted(&mut pairs, (String::from_str("caller"), c.clone()), Ghost(all));
        proof { all = n; }
    }
    let ghost head = all;
    let ghost t = trace_part(*row);
    let ghost c = caller_part(*row);
    assert(pairs_text(head) =~= t + c);
    let mut i: usize = 0;
    while i < row.extras.len()
        invariant
            i <= row.extras@.len(),
            pairs@ == sort_by_key(all),
            pairs_text(all) == t + c + row.extras@.take(i as int).map_values(|f: (String, JsonValue)| (f.0@, value_text(f.1@))),
        decreases row.extras.len() - i,
    {
        let ghost before = all;
        let p = (row.extras[i].0.clone(), value_to_string(&row.extras[i].1));
        let Ghost(n) = add_sorted(&mut pairs, p, Ghost(all));
        proof {
            all = n;
            assert(pairs_text(all) =~= pairs_text(before).push((p.0@, p.1@)));
            assert(row.extras@.take(i + 1).map_values(|f: (String, JsonValue)| (f.0@, value_text(f.1@)))
                =~= row.extras@.take(i as int).map_values(|f: (String, JsonValue)| (f.0@, value_text(f.1@))).push((p.0@, p.1@)));
        }
        i = i + 1;
    }
    let ghost e = row.extras@.map_values(|f: (String, JsonValue)| (f.0@, value_text(f.1@)));
    assert(row.extras@.take(row.extras@.len() as int) =~= row.extras@);
    let mut j: usize = 0;
    while j < row.continuation_lines.len()
        invariant
            j <= row.continuation_lines@.len(),
            pairs@ == sort_by_key(all),
            pairs_text(all) == t + c + e + Seq::new(j as nat, |k: int| ("continuation_"@ + two_digits((k + 1) as nat), row.continuation_lines@[k]@)),
        decreases row.continuation_lines.len() - j,
    {
        let ghost before = all;
        let mut key = String::from_str("continuation_");
        if j + 1 < 10 {
            push_char(&mut key, '0');
        }
        push_decimal(&mut key, j + 1);
        let p = (key, row.continuation_lines[j].clone());
        let Ghost(n) = add_sorted(&mut pairs, p, Ghost(all));
        proof {
            all = n;
            assert(p.0@ =~= "continuation_"@ + two_digits((j + 1) as nat));
            assert(pairs_text(all) =~= pairs_text(before).push((p.0@, p.1@)));
            assert(Seq::new((j + 1) as nat, |k: int| ("continuation_"@ + two_digits((k + 1) as nat), row.continuation_lines@[k]@))
                =~= Seq::new(j as nat, |k: int| ("continuation_"@ + two_digits((k + 1) as nat), row.continuation_lines@[k]@)).push((p.0@, p.1@)));
        }
        j = j + 1;
    }
    proof {
        crate::keyed::lemma_sort_text(all);
        assert(pairs_text(all) =~= detail_texts(*row));
    }
    pairs
}


// ----- search -----

/// A row of the table: the line and its detail pairs.
pub struct TableRowData {
    pub line: ClassifiedLine,
    pub detail_pairs: Vec<(String, String)>,
}

/// The search bar: whether a query is being typed, the query, the rows that match it
/// (in increasing order) and the match that is current.
pub struct SearchState {
    pub typing: bool,
    pub query: String,
    pub matches: Vec<usize>,
    pub current: usize,
}

/// The bytes against which a search for `query` compares texts.
pub open spec fn query_pattern(query: Seq<char>) -> Seq<u8> {
    encode_utf8(lowercase(query))
}

/// The text `t` holds the search pattern `p`, ignoring case.
pub open spec fn text_hit(p: Seq<u8>, t: Seq<char>) -> bool {
    p.len() > 0 && occurs_in(p, encode_utf8(lowercase(t)))
}

/// The row's message, or a key or value of one of its detail pairs, holds the pattern.
pub open spec fn row_hit(row: TableRowData, p: Seq<u8>) -> bool {
    ||| (row.line.message matches Some(m) && text_hit(p, m@))
    ||| exists|i: int| 0 <= i < row.detail_pairs@.len()
            && (text_hit(p, (#[trigger] row.detail_pairs@[i]).0@) || text_hit(p, row.detail_pairs@[i].1@))
}

/// The indices of the rows that hold the pattern, in increasing order.
pub open spec fn hits(rows: Seq<TableRowData>, p: Seq<u8>) -> Seq<usize>
    decreases rows.len(),
{
    if rows.len() == 0 {
        Seq::empty()
    } else if row_hit(rows.last(), p) {
        hits(rows.drop_last(), p).push((rows.len() - 1) as usize)
    } else {
        hits(rows.drop_last(), p)
    }
}

/// The matches are exactly the rows that hold the pattern, each once, in increasing order.
pub proof fn lemma_hits(rows: Seq<TableRowData>, p: Seq<u8>)
    requires
        rows.len() <= usize::MAX,
    ensures
        forall|k: int| 0 <= k < hits(rows, p).len() ==> #[trigger] hits(rows, p)[k] < rows.len(),
        forall|k: int, l: int| 0 <= k < l < hits(rows, p).len() ==> #[trigger] hits(rows, p)[k] < #[trigger] hits(rows, p)[l],
        forall|i: int| 0 <= i < rows.len() ==> (hits(rows, p).contains(i as usize) <==> row_hit(#[trigger] rows[i], p)),
    decreases rows.len(),
{
    if rows.len() > 0 {
        let d = rows.drop_last();
        let h = hits(rows, p);
        let hd = hits(d, p);
        let last = (rows.len() - 1) as usize;
        lemma_hits(d, p);
        if row_hit(rows.last(), p) {
            assert(h == hd.push(last));
        } else {
            assert(h == hd);
        }
        assert forall|i: int| 0 <= i < rows.len() implies (h.contains(i as usize) <==> row_hit(#[trigger] rows[i], p)) by {
            if i < d.len() {
                assert(d[i] == rows[i]);
                if h.contains(i as usize) {
                    let k = choose|k: int| 0 <= k < h.len() && h[k] == i as usize;
                    if k < hd.len() {
                        assert(hd[k] == i as usize);
                        assert(hd.contains(i as usize));
                    }
                }
                if hd.contains(i as usize) {
                    let k = choose|k: int| 0 <= k < hd.len() && hd[k] == i as usize;
                    assert(h[k] == i as usize);
                    assert(h.contains(i as usize));
                }
            } else {
                if row_hit(rows[i], p) {
                    assert(h[hd.len() as int] == i as usize);
                    assert(h.contains(i as usize));
                } else if h.contains(i as usize) {
                    let k = choose|k: int| 0 <= k < h.len() && h[k] == i as usize;
                    assert(hd[k] < d.len());
                }
            }
        }
    }
}

/// Whether the row holds the search pattern.
fn row_matches_searcher(row: &TableRowData, searcher: &KmpSearcher) -> (b: bool)
    ensures
        b == row_hit(*row, searcher.pattern()),
{
    if let Some(msg) = &row.line.message {
        if searcher.matches_text(msg.as_str()) {
            return true;
        }
    }
    let mut i: usize = 0;
    while i < row.detail_pairs.len()
        invariant
            i <= row.detail_pairs@.len(),
            !(row.line.message matches Some(m) && text_hit(searcher.pattern(), m@)),
            forall|k: int| 0 <= k < i ==> !(text_hit(searcher.pattern(), (#[trigger] row.detail_pairs@[k]).0@)
                || text_hit(searcher.pattern(), row.detail_pairs@[k].1@)),
        decreases row.detail_pairs.len() - i,
    {
        if searcher.matches_text(row.detail_pairs[i].0.as_str()) || searcher.matches_text(row.detail_pairs[i].1.as_str()) {
            return true;
        }
        i = i + 1;
    }
    false
}

impl SearchState {
    /// No search.
    pub fn new() -> (s: Self)
        ensures
            !s.typing,
            s.query@.len() == 0,
            s.matches@.len() == 0,
            s.current == 0,
    {
        SearchState { typing: false, query: String::new(), matches: Vec::new(), current: 0 }
    }

    /// A query is being typed or is set.
    pub fn is_active(&self) -> (b: bool)
        ensures
            b == (self.typing || self.query@.len() > 0),
    {
        self.typing || !self.query.as_str().is_empty()
    }

    /// Finds the rows that match the query. With no query there are none and the
    /// current match is the first; otherwise the current match is kept, or moved to
    /// the last one when it is past the end.
    pub fn update_matches(&mut self, rows: &[TableRowData])
        ensures
            final(self).typing == old(self).typing,
            final(self).query == old(self).query,
            old(self).query@.len() == 0 ==> final(self).matches@.len() == 0 && final(self).current == 0,
            forall|k: int| 0 <= k < final(self).matches@.len() ==> #[trigger] final(self).matches@[k] < rows@.len(),
            final(self).matches@.len() > 0 ==> final(self).current < final(self).matches@.len(),
            old(self).query@.len() > 0 ==> {
                &&& query_pattern(old(self).query@).len() > 0
                &&& final(self).matches@ == hits(rows@, query_pattern(old(self).query@))
                &&& final(self).current == if final(self).matches@.len() > 0 && old(self).current >= final(self).matches@.len() {
                    (final(self).matches@.len() - 1) as usize
                } else {
                    old(self).current
                }
            },
    {
        self.matches = Vec::new();
        if self.query.as_str().is_empty() {
            self.current = 0;
            return;
        }
        let searcher = KmpSearcher::new(self.query.as_str());
        let mut i: usize = 0;
        while i < rows.len()
            invariant
                i <= rows@.len(),
                self.typing == old(self).typing,
                self.query == old(self).query,
                self.current == old(self).current,
                searcher.pattern() == query_pattern(self.query@),
                self.matches@ == hits(rows@.take(i as int), searcher.pattern()),
            decreases rows.len() - i,
        {
            proof {
                assert(rows@.take(i + 1).drop_last() =~= rows@.take(i as int));
                assert(rows@.take(i + 1).last() == rows@[i as int]);
            }
            if row_matches_searcher(&rows[i], &searcher) {
                self.matches.push(i);
            }
            i = i + 1;
        }
        assert(rows@.take(rows@.len() as int) =~= rows@);
        let n = rows.len();
        proof {
            lemma_hits(rows@, searcher.pattern());
        }
        if self.matches.len() != 0 && self.current >= self.matches.len() {
            self.current = self.matches.len() - 1;
        }
    }
}


// ----- the table state -----

/// State of the table view.
pub struct App {
    pub rows: Vec<TableRowData>,
    pub scroll_offset: usize,
    pub selected: usize,
    pub paused: bool,
    pub new_count: usize,
    pub col_widths: ColWidths,
    pub columns: Vec<Column>,
    pub visible_height: u16,
    pub highlight_errors: bool,
    pub search: SearchState,
}

/// Width at which messages and detail pairs wrap: the message column, and at least 16.
pub open spec fn wrap_width(ws: Seq<(Column, u16)>) -> nat {
    let w = width_in(ws, Column::Message);
    if w < 16 { 16 } else { w as nat }
}

/// Lines that a row's content takes: its wrapped message (one line when there is
/// none) and its packed detail pairs.
pub open spec fn content_lines(row: TableRowData, mw: nat) -> nat {
    let msg = match row.line.message {
        Some(m) => if m@.len() > 0 { wrapped_lines(m@.len(), mw) } else { 1 },
        None => 1,
    };
    msg + compact_lines(row.detail_pairs@, mw)
}

/// Height of a row on screen: its content lines, capped at the visible height
/// (kept as a `u16` when there is no visible height).
pub open spec fn row_h(rows: Seq<TableRowData>, mw: nat, vh: nat, i: int) -> nat {
    let n = content_lines(rows[i], mw);
    if vh > 0 && n > vh { vh } else { n % 0x10000 }
}

/// Total height of the rows `s..e`.
pub open spec fn span(rows: Seq<TableRowData>, mw: nat, vh: nat, s: int, e: int) -> nat
    decreases e - s,
{
    if e <= s {
        0
    } else {
        span(rows, mw, vh, s, e - 1) + row_h(rows, mw, vh, e - 1)
    }
}

/// `r` is the first row to show so that the rows through `last` end at the bottom
/// of the visible area: the smallest offset from which they fit (or `last` itself
/// when nothing is visible).
pub open spec fn shows_at_bottom(rows: Seq<TableRowData>, mw: nat, vh: nat, last: int, r: int) -> bool {
    if vh == 0 {
        r == last
    } else {
        &&& 0 <= r <= last + 1
        &&& span(rows, mw, vh, r, last + 1) <= vh
        &&& (r == 0 || span(rows, mw, vh, r - 1, last + 1) > vh)
    }
}

/// With the window starting at `so`, row `sel` starts within it and ends by its bottom.
pub open spec fn fits_from(rows: Seq<TableRowData>, mw: nat, vh: nat, so: int, sel: int) -> bool {
    &&& (sel == so || span(rows, mw, vh, so, sel) < vh)
    &&& span(rows, mw, vh, so, sel + 1) <= vh
}

/// `so2` is where the window starts after bringing row `sel` into view from `so`:
/// up to `sel` when it is above, unchanged when it fits, else so that `sel` is at the
/// bottom.
pub open spec fn brought_into_view(rows: Seq<TableRowData>, mw: nat, vh: nat, so: int, sel: int, so2: int) -> bool {
    if rows.len() == 0 {
        so2 == 0
    } else if sel < so {
        so2 == sel
    } else if fits_from(rows, mw, vh, so, sel) {
        so2 == so
    } else {
        shows_at_bottom(rows, mw, vh, sel, so2)
    }
}

/// The selected row is on screen: at or below the first shown row, and ending by
/// the bottom of the visible area.
pub open spec fn selected_visible(a: App) -> bool {
    a.rows@.len() > 0 ==> {
        &&& a.scroll_offset <= a.selected
        &&& span(a.rows@, wrap_width(a.col_widths.widths@), a.visible_height as nat, a.scroll_offset as int, a.selected + 1)
            <= a.visible_height
    }
}

/// `b` has the rows, layout and settings of `a`.
pub open spec fn same_layout(a: App, b: App) -> bool {
    &&& b.rows == a.rows
    &&& b.col_widths == a.col_widths
    &&& b.columns == a.columns
    &&& b.visible_height == a.visible_height
    &&& b.highlight_errors == a.highlight_errors
}

impl App {
    /// The bounds that the methods keep: the selection is a row, every match is a row,
    /// the current match is a match, and no more rows are new than there are rows.
    pub open spec fn well_formed(&self) -> bool {
        &&& self.rows@.len() > 0 ==> self.selected < self.rows@.len()
        &&& self.rows@.len() == 0 ==> self.selected == 0 && self.scroll_offset == 0
        &&& forall|k: int| 0 <= k < self.search.matches@.len() ==> #[trigger] self.search.matches@[k] < self.rows@.len()
        &&& self.search.matches@.len() > 0 ==> self.search.current < self.search.matches@.len()
        &&& self.new_count <= self.rows@.len()
    }

    /// Wrap width of this table.
    pub open spec fn mw(&self) -> nat {
        wrap_width(self.col_widths.widths@)
    }

    /// An empty, live table with the time, level and message columns laid out on a
    /// terminal `terminal_width` wide, showing `visible_height` lines of rows.
    pub fn new(config: &Config, show_extras: bool, terminal_width: u16, visible_height: u16) -> (app: Self)
        ensures
            app.rows@.len() == 0,
            app.scroll_offset == 0,
            app.selected == 0,
            !app.paused,
            app.new_count == 0,
            app.columns@ == seq![Column::Time, Column::Level, Column::Message],
            app.col_widths.widths@ == seq![(Column::Time, 20u16), (Column::Level, 5u16),
                (Column::Message, message_width(seq![Column::Time, Column::Level, Column::Message], terminal_width))],
            app.visible_height == visible_height,
            app.highlight_errors == config.highlight_errors,
            !app.search.typing,
            app.search.query@.len() == 0,
            app.search.matches@.len() == 0,
            app.search.current == 0,
            app.well_formed(),
    {
        let columns: Vec<Column> = vec![Column::Time, Column::Level, Column::Message];
        assert(fixed_total(columns@) == 25) by {
            let c = columns@;
            assert(c =~= seq![Column::Time, Column::Level, Column::Message]);
            assert(c.drop_last().drop_last().drop_last() =~= Seq::<Column>::empty());
            assert(c.drop_last().drop_last().last() == Column::Time);
            assert(c.drop_last().last() == Column::Level);
            assert(fixed_total(c.drop_last().drop_last().drop_last()) == 0);
            assert(fixed_total(c.drop_last().drop_last()) == 20);
            assert(fixed_total(c.drop_last()) == 25);
        }
        let col_widths = ColWidths::compute(columns.as_slice(), terminal_width);
        assert(col_widths.widths@ =~= seq![(Column::Time, 20u16), (Column::Level, 5u16),
            (Column::Message, message_width(seq![Column::Time, Column::Level, Column::Message], terminal_width))]);
        App {
            rows: Vec::new(),
            scroll_offset: 0,
            selected: 0,
            paused: false,
            new_count: 0,
            col_widths,
            columns,
            visible_height,
            highlight_errors: config.highlight_errors,
            search: SearchState::new(),
        }
    }

    /// Height of row `idx` on screen.
    pub fn row_height(&self, idx: usize) -> (h: u16)
        requires
            idx < self.rows@.len(),
        ensures
            h == row_h(self.rows@, self.mw(), self.visible_height as nat, idx as int),
    {
        let w = self.col_widths.width_of(&Column::Message);
        let msg_w: usize = if w < 16 { 16 } else { w as usize };
        let row = &self.rows[idx];
        let msg_lines: usize = match &row.line.message {
            Some(s) => if s.as_str().is_empty() { 1 } else { wrap_line_count(char_count(s.as_str()), msg_w) },
            None => 1,
        };
        let detail_lines = compact_line_count(row.detail_pairs.as_slice(), msg_w);
        let natural: u128 = msg_lines as u128 + detail_lines as u128;
        let vh = self.visible_height;
        if vh > 0 && natural > vh as u128 {
            vh
        } else {
            (natural % 0x10000) as u16
        }
    }
}


// ----- facts about row heights -----

/// Heights of the rows `s..e` add up across a split point.
pub proof fn lemma_span_split(rows: Seq<TableRowData>, mw: nat, vh: nat, s: int, m: int, e: int)
    requires
        s <= m <= e,
    ensures
        span(rows, mw, vh, s, e) == span(rows, mw, vh, s, m) + span(rows, mw, vh, m, e),
    decreases e - m,
{
    if m < e {
        lemma_span_split(rows, mw, vh, s, m, e - 1);
    }
}

/// A longer range of rows is at least as tall.
pub proof fn lemma_span_mono(rows: Seq<TableRowData>, mw: nat, vh: nat, s: int, e1: int, e2: int)
    requires
        s <= e1 <= e2,
    ensures
        span(rows, mw, vh, s, e1) <= span(rows, mw, vh, s, e2),
{
    lemma_span_split(rows, mw, vh, s, e1, e2);
}


/// Heights of rows depend only on those rows.
pub proof fn lemma_span_prefix(rows: Seq<TableRowData>, more: Seq<TableRowData>, mw: nat, vh: nat, s: int, e: int)
    requires
        0 <= s,
        e <= rows.len() <= more.len(),
        forall|i: int| 0 <= i < rows.len() ==> more[i] == rows[i],
    ensures
        span(rows, mw, vh, s, e) == span(more, mw, vh, s, e),
    decreases e - s,
{
    if s < e {
        lemma_span_prefix(rows, more, mw, vh, s, e - 1);
    }
}

/// With a visible height, every row is between one line and the visible height tall.
pub proof fn lemma_row_h_bounds(rows: Seq<TableRowData>, mw: nat, vh: nat, i: int)
    requires
        0 < vh <= u16::MAX,
    ensures
        1 <= row_h(rows, mw, vh, i) <= vh,
{
    let n = content_lines(rows[i], mw);
    let row = rows[i];
    if let Some(m) = row.line.message {
        if m@.len() > 0 && mw > 0 {
            let c = m@.len() as int;
            let w = mw as int;
            assert((c + w - 1) / w >= 1) by (nonlinear_arith)
                requires c >= 1, w >= 1;
        }
    }
    assert(n >= 1);
}

/// One row's range is as tall as that row.
pub proof fn lemma_span_one(rows: Seq<TableRowData>, mw: nat, vh: nat, i: int)
    ensures
        span(rows, mw, vh, i, i + 1) == row_h(rows, mw, vh, i),
{
    assert(span(rows, mw, vh, i, i) == 0);
}

/// With a visible height, the window that puts a row at the bottom never starts past
/// that row, even when the row alone is taller than the visible area (its height is
/// capped), and the rows from the window's start through it fit.
pub proof fn law_bottom_offset_keeps_row(rows: Seq<TableRowData>, mw: nat, vh: nat, last: int, r: int)
    requires
        0 < vh <= u16::MAX,
        0 <= last,
        shows_at_bottom(rows, mw, vh, last, r),
    ensures
        r <= last,
        span(rows, mw, vh, r, last + 1) <= vh,
{
    if r == last + 1 {
        lemma_row_h_bounds(rows, mw, vh, last);
        assert(span(rows, mw, vh, last, last) == 0);
        assert(span(rows, mw, vh, last, last + 1) == row_h(rows, mw, vh, last));
    }
}

/// Bringing a row into view puts it on screen.
pub proof fn lemma_view_shows_selected(rows: Seq<TableRowData>, mw: nat, vh: nat, so: int, sel: int, so2: int)
    requires
        0 < vh <= u16::MAX,
        0 <= sel < rows.len(),
        brought_into_view(rows, mw, vh, so, sel, so2),
    ensures
        so2 <= sel,
        span(rows, mw, vh, so2, sel + 1) <= vh,
{
    if sel < so {
        lemma_row_h_bounds(rows, mw, vh, sel);
        assert(span(rows, mw, vh, sel, sel) == 0);
    } else if fits_from(rows, mw, vh, so, sel) {
    } else {
        law_bottom_offset_keeps_row(rows, mw, vh, sel, so2);
    }
}

/// The selected row stays on screen after the state moves from `a` to `b`, when `b`
/// brought it into view, or showed it at the bottom.
proof fn lemma_visible_after(a: App, b: App)
    requires
        b.well_formed(),
        b.visible_height > 0,
        b.rows@.len() > 0,
        brought_into_view(b.rows@, b.mw(), b.visible_height as nat, a.scroll_offset as int, b.selected as int, b.scroll_offset as int)
            || shows_at_bottom(b.rows@, b.mw(), b.visible_height as nat, b.selected as int, b.scroll_offset as int),
    ensures
        selected_visible(b),
{
    let vh = b.visible_height as nat;
    if brought_into_view(b.rows@, b.mw(), vh, a.scroll_offset as int, b.selected as int, b.scroll_offset as int) {
        lemma_view_shows_selected(b.rows@, b.mw(), vh, a.scroll_offset as int, b.selected as int, b.scroll_offset as int);
    } else {
        law_bottom_offset_keeps_row(b.rows@, b.mw(), vh, b.selected as int, b.scroll_offset as int);
    }
}

impl App {
    /// The first row to show so that row `last_row` ends at the bottom of the visible area.
    fn scroll_offset_for_bottom(&self, last_row: usize) -> (r: usize)
        requires
            last_row < self.rows@.len(),
        ensures
            shows_at_bottom(self.rows@, self.mw(), self.visible_height as nat, last_row as int, r as int),
    {
        let vh = self.visible_height as usize;
        if vh == 0 {
            return last_row;
        }
        let ghost rows = self.rows@;
        let ghost mw = self.mw();
        let mut h: usize = 0;
        let mut idx: usize = last_row;
        loop
            invariant
                idx <= last_row < rows.len(),
                rows == self.rows@,
                mw == self.mw(),
                vh == self.visible_height as nat,
                vh > 0,
                h == span(rows, mw, vh as nat, idx + 1, last_row + 1),
                h <= vh,
            decreases idx,
        {
            let rh = self.row_height(idx) as usize;
            proof {
                lemma_span_split(rows, mw, vh as nat, idx as int, idx + 1, last_row + 1);
                assert(span(rows, mw, vh as nat, idx as int, idx as int) == 0);
                assert(span(rows, mw, vh as nat, idx as int, idx + 1) == row_h(rows, mw, vh as nat, idx as int));
            }
            if h + rh > vh {
                return idx + 1;
            }
            h = h + rh;
            if idx == 0 {
                return 0;
            }
            idx = idx - 1;
        }
    }

    /// Scrolls so that the selected row is on screen.
    fn ensure_selected_visible(&mut self)
        requires
            old(self).rows@.len() > 0 ==> old(self).selected < old(self).rows@.len(),
        ensures
            same_layout(*old(self), *final(self)),
            final(self).selected == old(self).selected,
            final(self).paused == old(self).paused,
            final(self).new_count == old(self).new_count,
            final(self).search == old(self).search,
            brought_into_view(old(self).rows@, old(self).mw(), old(self).visible_height as nat,
                old(self).scroll_offset as int, old(self).selected as int, final(self).scroll_offset as int),
    {
        if self.rows.len() == 0 {
            self.scroll_offset = 0;
            return;
        }
        if self.selected < self.scroll_offset {
            self.scroll_offset = self.selected;
            return;
        }
        let ghost rows = self.rows@;
        let ghost mw = self.mw();
        let ghost vh = self.visible_height as nat;
        let so = self.scroll_offset;
        let sel = self.selected;
        let mut h: usize = 0;
        let mut fits = false;
        let mut i: usize = so;
        while i < self.rows.len()
            invariant_except_break
                so <= i <= sel,
                h == span(rows, mw, vh, so as int, i as int),
                i == so || h < vh,
                !fits,
            invariant
                sel < rows.len(),
                rows == self.rows@,
                mw == self.mw(),
                vh == self.visible_height as nat,
                so == self.scroll_offset,
                sel == self.selected,
                so <= sel,
            ensures
                fits == fits_from(rows, mw, vh, so as int, sel as int),
            decreases self.rows.len() - i,
        {
            let rh = self.row_height(i) as usize;
            proof {
                assert(span(rows, mw, vh, so as int, i + 1) == h + rh);
            }
            if i == sel {
                if h + rh <= self.visible_height as usize {
                    fits = true;
                }
                break;
            }
            h = h + rh;
            if h >= self.visible_height as usize {
                proof {
                    lemma_span_mono(rows, mw, vh, so as int, i + 1, sel as int);
                }
                break;
            }
            i = i + 1;
        }
        if !fits {
            self.scroll_offset = self.scroll_offset_for_bottom(self.selected);
        }
    }

    /// Moves the selection up one row and pauses the live tail.
    pub fn scroll_up(&mut self)
        ensures
            scrolled_up(*old(self), *final(self)),
            old(self).well_formed() ==> final(self).well_formed(),
            old(self).well_formed() && selected_visible(*old(self)) && old(self).visible_height > 0
                ==> selected_visible(*final(self)),
    {
        if self.selected > 0 {
            self.selected = self.selected - 1;
            self.paused = true;
            if self.selected < self.scroll_offset {
                self.scroll_offset = self.selected;
            }
            proof {
                let vh = self.visible_height as nat;
                if old(self).well_formed() && selected_visible(*old(self)) && vh > 0 && self.rows@.len() > 0 {
                    if self.scroll_offset == self.selected {
                        lemma_span_one(self.rows@, self.mw(), vh, self.selected as int);
                        lemma_row_h_bounds(self.rows@, self.mw(), vh, self.selected as int);
                    } else {
                        lemma_span_mono(self.rows@, self.mw(), vh, self.scroll_offset as int, self.selected + 1, self.selected + 2);
                    }
                }
            }
        }
    }

    /// Moves the selection down one row, when there is one, and keeps it on screen.
    pub fn scroll_down(&mut self)
        ensures
            scrolled_down(*old(self), *final(self)),
            old(self).well_formed() ==> final(self).well_formed(),
            old(self).well_formed() && selected_visible(*old(self)) && old(self).visible_height > 0
                ==> selected_visible(*final(self)),
    {
        if self.rows.len() > 0 && self.selected < self.rows.len() - 1 {
            self.selected = self.selected + 1;
            self.ensure_selected_visible();
            proof {
                if old(self).well_formed() && self.visible_height > 0 {
                    lemma_visible_after(*old(self), *self);
                }
            }
        }
    }

    /// Selects the latest row and resumes the live tail.
    pub fn jump_to_end(&mut self)
        ensures
            jumped_to_end(*old(self), *final(self)),
            old(self).well_formed() ==> final(self).well_formed(),
            old(self).well_formed() && selected_visible(*old(self)) && old(self).visible_height > 0
                ==> selected_visible(*final(self)),
    {
        self.paused = false;
        self.new_count = 0;
        if self.rows.len() != 0 {
            self.selected = self.rows.len() - 1;
            self.scroll_offset = self.scroll_offset_for_bottom(self.selected);
            proof {
                if self.visible_height > 0 && old(self).well_formed() {
                    lemma_visible_after(*old(self), *self);
                }
            }
        }
    }

    /// Selects the first row and pauses the live tail.
    pub fn jump_to_start(&mut self)
        ensures
            jumped_to_start(*old(self), *final(self)),
            old(self).well_formed() ==> final(self).well_formed(),
            old(self).well_formed() && selected_visible(*old(self)) && old(self).visible_height > 0
                ==> selected_visible(*final(self)),
    {
        self.paused = true;
        self.new_count = 0;
        self.selected = 0;
        self.scroll_offset = 0;
        proof {
            if self.rows@.len() > 0 && self.visible_height > 0 {
                lemma_span_one(self.rows@, self.mw(), self.visible_height as nat, 0);
                lemma_row_h_bounds(self.rows@, self.mw(), self.visible_height as nat, 0);
            }
        }
    }

    /// Pauses the live tail, or resumes it at the latest row.
    pub fn toggle_pause(&mut self)
        ensures
            if old(self).paused {
                jumped_to_end(*old(self), *final(self))
            } else {
                same_layout(*old(self), *final(self))
                    && final(self).paused
                    && final(self).selected == old(self).selected
                    && final(self).scroll_offset == old(self).scroll_offset
                    && final(self).new_count == old(self).new_count
                    && final(self).search == old(self).search
            },
            old(self).well_formed() ==> final(self).well_formed(),
            old(self).well_formed() && selected_visible(*old(self)) && old(self).visible_height > 0
                ==> selected_visible(*final(self)),
    {
        if self.paused {
            self.jump_to_end();
        } else {
            self.paused = true;
        }
    }

    /// Selects the next search match, wrapping to the first.
    pub fn search_next(&mut self)
        requires
            old(self).well_formed(),
        ensures
            moved_to_match(*old(self), *final(self), if old(self).search.matches@.len() == 0 {
                0
            } else {
                (old(self).search.current + 1) % (old(self).search.matches@.len() as int)
            }),
            final(self).well_formed(),
            selected_visible(*old(self)) && old(self).visible_height > 0 ==> selected_visible(*final(self)),
    {
        if self.search.matches.len() == 0 {
            return;
        }
        self.search.current = (self.search.current + 1) % self.search.matches.len();
        self.selected = self.search.matches[self.search.current];
        self.paused = true;
        self.ensure_selected_visible();
        proof {
            if self.visible_height > 0 {
                lemma_visible_after(*old(self), *self);
            }
        }
    }

    /// Selects the previous search match, wrapping to the last.
    pub fn search_prev(&mut self)
        requires
            old(self).well_formed(),
        ensures
            moved_to_match(*old(self), *final(self), if old(self).search.matches@.len() == 0 {
                0
            } else if old(self).search.current == 0 {
                old(self).search.matches@.len() - 1
            } else {
                old(self).search.current - 1
            }),
            final(self).well_formed(),
            selected_visible(*old(self)) && old(self).visible_height > 0 ==> selected_visible(*final(self)),
    {
        if self.search.matches.len() == 0 {
            return;
        }
        self.search.current = if self.search.current == 0 {
            self.search.matches.len() - 1
        } else {
            self.search.current - 1
        };
        self.selected = self.search.matches[self.search.current];
        self.paused = true;
        self.ensure_selected_visible();
        proof {
            if self.visible_height > 0 {
                lemma_visible_after(*old(self), *self);
            }
        }
    }
}

/// `b` is `a` with the selection moved up one row, as `scroll_up` does.
pub open spec fn scrolled_up(a: App, b: App) -> bool {
    &&& same_layout(a, b)
    &&& b.search == a.search
    &&& b.new_count == a.new_count
    &&& if a.selected > 0 {
        &&& b.selected == a.selected - 1
        &&& b.paused
        &&& b.scroll_offset == if a.selected - 1 < a.scroll_offset { (a.selected - 1) as usize } else { a.scroll_offset }
    } else {
        &&& b.selected == a.selected
        &&& b.paused == a.paused
        &&& b.scroll_offset == a.scroll_offset
    }
}

/// `b` is `a` with the selection moved down one row and brought into view.
pub open spec fn scrolled_down(a: App, b: App) -> bool {
    &&& same_layout(a, b)
    &&& b.search == a.search
    &&& b.new_count == a.new_count
    &&& b.paused == a.paused
    &&& if a.selected + 1 < a.rows@.len() {
        &&& b.selected == a.selected + 1
        &&& brought_into_view(a.rows@, a.mw(), a.visible_height as nat, a.scroll_offset as int, b.selected as int, b.scroll_offset as int)
    } else {
        &&& b.selected == a.selected
        &&& b.scroll_offset == a.scroll_offset
    }
}

/// `b` is `a` live at its latest row, shown at the bottom.
pub open spec fn jumped_to_end(a: App, b: App) -> bool {
    &&& same_layout(a, b)
    &&& b.search == a.search
    &&& b.new_count == 0
    &&& !b.paused
    &&& if a.rows@.len() > 0 {
        &&& b.selected == a.rows@.len() - 1
        &&& shows_at_bottom(a.rows@, a.mw(), a.visible_height as nat, b.selected as int, b.scroll_offset as int)
    } else {
        &&& b.selected == a.selected
        &&& b.scroll_offset == a.scroll_offset
    }
}

/// `b` is `a` paused at its first row.
pub open spec fn jumped_to_start(a: App, b: App) -> bool {
    &&& same_layout(a, b)
    &&& b.search == a.search
    &&& b.new_count == 0
    &&& b.paused
    &&& b.selected == 0
    &&& b.scroll_offset == 0
}

/// `b` is `a` with match `k` made current (when there are matches), that row selected
/// and brought into view, and the live tail paused.
pub open spec fn moved_to_match(a: App, b: App, k: int) -> bool {
    &&& same_layout(a, b)
    &&& b.new_count == a.new_count
    &&& b.search.typing == a.search.typing
    &&& b.search.query == a.search.query
    &&& b.search.matches == a.search.matches
    &&& if a.search.matches@.len() == 0 {
        &&& b.search.current == a.search.current
        &&& b.selected == a.selected
        &&& b.paused == a.paused
        &&& b.scroll_offset == a.scroll_offset
    } else {
        &&& b.search.current == k
        &&& b.selected == a.search.matches@[k]
        &&& b.paused
        &&& brought_into_view(a.rows@, a.mw(), a.visible_height as nat, a.scroll_offset as int, b.selected as int, b.scroll_offset as int)
    }
}


/// Row `i` covers screen line `t` (counted from the first shown row `so`).
pub open spec fn covers(rows: Seq<TableRowData>, mw: nat, vh: nat, so: int, i: int, t: int) -> bool {
    &&& so <= i < rows.len()
    &&& span(rows, mw, vh, so, i) <= t < span(rows, mw, vh, so, i + 1)
}

/// The row under screen line `y` (line 0 is the header), if any.
pub open spec fn screen_row(a: App, y: int) -> Option<int> {
    let t = y - 1;
    if y == 0 || y > a.visible_height {
        None
    } else if exists|i: int| covers(a.rows@, a.mw(), a.visible_height as nat, a.scroll_offset as int, i, t) {
        Some(choose|i: int| covers(a.rows@, a.mw(), a.visible_height as nat, a.scroll_offset as int, i, t))
    } else {
        None
    }
}

/// At most one row covers a screen line.
pub proof fn lemma_covers_unique(rows: Seq<TableRowData>, mw: nat, vh: nat, so: int, i: int, j: int, t: int)
    requires
        covers(rows, mw, vh, so, i, t),
        covers(rows, mw, vh, so, j, t),
    ensures
        i == j,
{
    if i < j {
        lemma_span_mono(rows, mw, vh, so, i + 1, j);
    } else if j < i {
        lemma_span_mono(rows, mw, vh, so, j + 1, i);
    }
}

/// `b` is `a` with `row` appended (with its detail pairs): followed live at the
/// bottom, or counted as new while paused.
pub open spec fn pushed_row(a: App, b: App, row: ClassifiedLine) -> bool {
    &&& b.rows@.len() == a.rows@.len() + 1
    &&& forall|i: int| 0 <= i < a.rows@.len() ==> #[trigger] b.rows@[i] == a.rows@[i]
    &&& b.rows@.last().line == row
    &&& pairs_text(b.rows@.last().detail_pairs@) == sort_text_pairs(detail_texts(row))
    &&& b.col_widths == a.col_widths
    &&& b.columns == a.columns
    &&& b.visible_height == a.visible_height
    &&& b.highlight_errors == a.highlight_errors
    &&& b.search == a.search
    &&& b.paused == a.paused
    &&& if !a.paused {
        &&& b.selected == a.rows@.len()
        &&& b.new_count == a.new_count
        &&& shows_at_bottom(b.rows@, b.mw(), b.visible_height as nat, b.selected as int, b.scroll_offset as int)
    } else {
        &&& b.selected == a.selected
        &&& b.scroll_offset == a.scroll_offset
        &&& b.new_count == a.new_count + 1
    }
}

/// `b` is `a` after a click on screen line `y`: the row there, if any, selected and
/// brought into view, with the live tail paused.
pub open spec fn clicked(a: App, b: App, y: int) -> bool {
    &&& same_layout(a, b)
    &&& b.search == a.search
    &&& b.new_count == a.new_count
    &&& match screen_row(a, y) {
        Some(i) => {
            &&& b.selected == i
            &&& b.paused
            &&& brought_into_view(a.rows@, a.mw(), a.visible_height as nat, a.scroll_offset as int, i, b.scroll_offset as int)
        },
        None => {
            &&& b.selected == a.selected
            &&& b.paused == a.paused
            &&& b.scroll_offset == a.scroll_offset
        },
    }
}

impl App {
    /// Puts the selected (last) row at the bottom of the visible area.
    fn adjust_scroll_to_show_last(&mut self)
        requires
            old(self).rows@.len() > 0 ==> old(self).selected < old(self).rows@.len(),
        ensures
            same_layout(*old(self), *final(self)),
            final(self).selected == old(self).selected,
            final(self).paused == old(self).paused,
            final(self).new_count == old(self).new_count,
            final(self).search == old(self).search,
            old(self).rows@.len() == 0 ==> final(self).scroll_offset == 0,
            old(self).rows@.len() > 0 ==> shows_at_bottom(old(self).rows@, old(self).mw(), old(self).visible_height as nat,
                old(self).selected as int, final(self).scroll_offset as int),
    {
        if self.rows.len() == 0 {
            self.scroll_offset = 0;
            return;
        }
        self.scroll_offset = self.scroll_offset_for_bottom(self.selected);
    }

    /// Appends a log line. While live, the new row is selected and shown at the bottom;
    /// while paused, it is counted as new.
    pub fn push_row(&mut self, row: ClassifiedLine)
        requires
            old(self).well_formed(),
        ensures
            pushed_row(*old(self), *final(self), row),
            final(self).well_formed(),
            selected_visible(*old(self)) && old(self).visible_height > 0 ==> selected_visible(*final(self)),
    {
        let detail_pairs = collect_detail_pairs(&row);
        self.rows.push(TableRowData { line: row, detail_pairs });
        if !self.paused {
            self.selected = self.rows.len() - 1;
            self.adjust_scroll_to_show_last();
            proof {
                if self.visible_height > 0 {
                    lemma_visible_after(*old(self), *self);
                }
            }
        } else {
            let n = self.rows.len();
            assert(self.new_count < n);
            self.new_count = self.new_count + 1;
            proof {
                let vh = self.visible_height as nat;
                if vh > 0 && selected_visible(*old(self)) {
                    if old(self).rows@.len() == 0 {
                        lemma_span_one(self.rows@, self.mw(), vh, 0);
                        lemma_row_h_bounds(self.rows@, self.mw(), vh, 0);
                    } else {
                        lemma_span_prefix(old(self).rows@, self.rows@, self.mw(), vh, self.scroll_offset as int, self.selected + 1);
                    }
                }
            }
        }
    }

    /// The row under screen line `y` (line 0 is the header).
    fn row_at_screen_y(&self, y: u16) -> (r: Option<usize>)
        ensures
            match r {
                Some(i) => screen_row(*self, y as int) == Some(i as int),
                None => screen_row(*self, y as int) is None,
            },
    {
        if y == 0 || y > self.visible_height {
            return None;
        }
        let ghost rows = self.rows@;
        let ghost mw = self.mw();
        let ghost vh = self.visible_height as nat;
        let ghost so = self.scroll_offset as int;
        let target = y - 1;
        let mut cursor_y: u16 = 0;
        let mut idx: usize = self.scroll_offset;
        while idx < self.rows.len() && cursor_y < self.visible_height
            invariant
                rows == self.rows@,
                mw == self.mw(),
                vh == self.visible_height as nat,
                so == self.scroll_offset as int,
                1 <= y <= vh,
                target == y - 1,
                so <= idx,
                cursor_y == if span(rows, mw, vh, so, idx as int) > u16::MAX { u16::MAX as nat } else { span(rows, mw, vh, so, idx as int) },
                forall|i: int| so <= i < idx ==> target >= #[trigger] span(rows, mw, vh, so, i + 1),
            decreases self.rows.len() - idx,
        {
            let h = self.row_height(idx);
            proof {
                assert(span(rows, mw, vh, so, idx + 1) == span(rows, mw, vh, so, idx as int) + h);
            }
            if (target as u32) < (cursor_y as u32) + (h as u32) {
                proof {
                    assert(covers(rows, mw, vh, so, idx as int, target as int)) by {
                        if idx as int > so {
                            assert(target >= span(rows, mw, vh, so, (idx - 1) + 1));
                        }
                    }
                    let c = choose|i: int| covers(rows, mw, vh, so, i, target as int);
                    lemma_covers_unique(rows, mw, vh, so, c, idx as int, target as int);
                }
                return Some(idx);
            }
            cursor_y = cursor_y.saturating_add(h);
            idx = idx + 1;
        }
        proof {
            assert forall|i: int| !covers(rows, mw, vh, so, i, target as int) by {
                if covers(rows, mw, vh, so, i, target as int) {
                    if i < idx {
                        assert(target >= span(rows, mw, vh, so, i + 1));
                    } else {
                        lemma_span_mono(rows, mw, vh, so, idx as int, i);
                    }
                }
            }
        }
        None
    }

    /// Selects the row under screen line `y`, if any, and pauses the live tail.
    pub fn click_select_or_expand(&mut self, y: u16)
        requires
            old(self).well_formed(),
        ensures
            clicked(*old(self), *final(self), y as int),
            final(self).well_formed(),
            selected_visible(*old(self)) && old(self).visible_height > 0 ==> selected_visible(*final(self)),
    {
        if let Some(idx) = self.row_at_screen_y(y) {
            self.paused = true;
            self.selected = idx;
            self.ensure_selected_visible();
            proof {
                if self.visible_height > 0 {
                    lemma_visible_after(*old(self), *self);
                }
            }
        }
    }
}


/// Moving to the previous match undoes moving to the next one: the current match
/// comes back to where it was.
pub proof fn law_search_prev_undoes_next(a: App, b: App, c: App)
    requires
        a.well_formed(),
        a.search.matches@.len() > 0,
        moved_to_match(a, b, (a.search.current + 1) % (a.search.matches@.len() as int)),
        moved_to_match(b, c, if b.search.current == 0 { b.search.matches@.len() - 1 } else { b.search.current - 1 }),
    ensures
        c.search.current == a.search.current,
        c.selected == a.search.matches@[a.search.current as int],
{
    let n = a.search.matches@.len() as int;
    let k = a.search.current as int;
    assert(0 <= k < n);
    if k + 1 < n {
        assert((k + 1) % n == k + 1) by (nonlinear_arith)
            requires 0 <= k + 1 < n;
    } else {
        assert((k + 1) % n == 0) by (nonlinear_arith)
            requires k + 1 == n, n > 0;
    }
}


/// A search finds a row by its message, by any key of its detail pairs, or by any
/// value of them, and by nothing else: row `i` is among the matches exactly when the
/// pattern occurs (ignoring case) in one of those texts.
pub proof fn law_search_covers_every_field(rows: Seq<TableRowData>, p: Seq<u8>, i: int)
    requires
        rows.len() <= usize::MAX,
        0 <= i < rows.len(),
    ensures
        hits(rows, p).contains(i as usize) <==> {
            ||| (rows[i].line.message matches Some(m) && text_hit(p, m@))
            ||| exists|j: int| 0 <= j < rows[i].detail_pairs@.len() && text_hit(p, (#[trigger] rows[i].detail_pairs@[j]).0@)
            ||| exists|j: int| 0 <= j < rows[i].detail_pairs@.len() && text_hit(p, (#[trigger] rows[i].detail_pairs@[j]).1@)
        },
{
    lemma_hits(rows, p);
    let row = rows[i];
    if exists|j: int| 0 <= j < row.detail_pairs@.len() && text_hit(p, (#[trigger] row.detail_pairs@[j]).1@) {
        let j = choose|j: int| 0 <= j < row.detail_pairs@.len() && text_hit(p, (#[trigger] row.detail_pairs@[j]).1@);
        assert(row_hit(row, p));
    }
    if exists|j: int| 0 <= j < row.detail_pairs@.len() && text_hit(p, (#[trigger] row.detail_pairs@[j]).0@) {
        let j = choose|j: int| 0 <= j < row.detail_pairs@.len() && text_hit(p, (#[trigger] row.detail_pairs@[j]).0@);
        assert(row_hit(row, p));
    }
}

/// In the normal mode the key `n` makes the next search match current (wrapping to the
/// first) and selects its row; the key `N` makes the previous one current (wrapping
/// to the last).
pub proof fn law_n_keys_step_through_matches(a: App, b: App, c: App, kind: KeyKind, go_on_b: bool, go_on_c: bool)
    requires
        a.well_formed(),
        !a.search.typing,
        a.search.matches@.len() > 0,
        kind != KeyKind::Release,
        handled(a, b, InputEvent::Key { key: Key::Char('n'), kind }, go_on_b),
        handled(a, c, InputEvent::Key { key: Key::Char('N'), kind }, go_on_c),
    ensures
        go_on_b && go_on_c,
        b.search.current == (a.search.current + 1) % (a.search.matches@.len() as int),
        b.selected == a.search.matches@[b.search.current as int],
        b.paused,
        a.search.current + 1 < a.search.matches@.len() ==> b.search.current == a.search.current + 1,
        a.search.current + 1 == a.search.matches@.len() ==> b.search.current == 0,
        c.search.current == if a.search.current == 0 {
            a.search.matches@.len() - 1
        } else {
            a.search.current - 1
        },
        c.selected == a.search.matches@[c.search.current as int],
        c.paused,
{
    let n = a.search.matches@.len() as int;
    let k = a.search.current as int;
    if k + 1 < n {
        assert((k + 1) % n == k + 1) by (nonlinear_arith)
            requires
                0 <= k + 1 < n,
        ;
    } else {
        assert((k + 1) % n == 0) by (nonlinear_arith)
            requires
                k + 1 == n,
                n > 0,
        ;
    }
}

// ----- terminal events -----

/// A key of the keyboard, as the table view tells keys apart.
#[derive(Debug, Clone, Copy, PartialEq, Eq, Structural)]
pub enum Key {
    Char(char),
    Up,
    Down,
    Home,
    End,
    Enter,
    Esc,
    Backspace,
    Other,
}

/// Whether a key went down, repeats or went up.
#[derive(Debug, Clone, Copy, PartialEq, Eq, Structural)]
pub enum KeyKind {
    Press,
    Repeat,
    Release,
}

/// What the mouse did.
#[derive(Debug, Clone, Copy, PartialEq, Eq, Structural)]
pub enum MouseKind {
    ScrollUp,
    ScrollDown,
    LeftDown,
    Other,
}

/// An event of the terminal.
#[derive(Debug, Clone, Copy, PartialEq, Eq, Structural)]
pub enum InputEvent {
    Key { key: Key, kind: KeyKind },
    Mouse { kind: MouseKind, row: u16 },
    Other,
}

/// The number of leading matches that are below `from` (`partition_point`).
pub open spec fn matches_below(m: Seq<usize>, from: usize) -> int
    decreases m.len(),
{
    if m.len() == 0 || m[0] >= from {
        0
    } else {
        1 + matches_below(m.drop_first(), from)
    }
}

/// Index of the first match that is not below `from`.
fn partition_point_below(m: &Vec<usize>, from: usize) -> (i: usize)
    ensures
        i == matches_below(m@, from),
        i <= m@.len(),
{
    let mut i: usize = 0;
    assert(m@.skip(0) =~= m@);
    while i < m.len() && m[i] < from
        invariant
            i <= m@.len(),
            matches_below(m@, from) == i + matches_below(m@.skip(i as int), from),
        decreases m.len() - i,
    {
        assert(m@.skip(i as int).drop_first() =~= m@.skip(i + 1));
        i = i + 1;
    }
    i
}

/// `b` is `a` with only the search typing mode changed to `typing`.
pub open spec fn only_typing_set(a: App, b: App, typing: bool) -> bool {
    &&& same_layout(a, b)
    &&& b.selected == a.selected
    &&& b.scroll_offset == a.scroll_offset
    &&& b.paused == a.paused
    &&& b.new_count == a.new_count
    &&& b.search.typing == typing
    &&& b.search.query == a.search.query
    &&& b.search.matches == a.search.matches
    &&& b.search.current == a.search.current
}

/// `b` is `a` with the search cleared.
pub open spec fn search_cleared(a: App, b: App) -> bool {
    &&& same_layout(a, b)
    &&& b.selected == a.selected
    &&& b.scroll_offset == a.scroll_offset
    &&& b.paused == a.paused
    &&& b.new_count == a.new_count
    &&& !b.search.typing
    &&& b.search.query@.len() == 0
    &&& b.search.matches@.len() == 0
    &&& b.search.current == 0
}

/// The matches and current match after the query became `q` (`update_matches`).
pub open spec fn matches_updated(a: App, b: App, q: Seq<char>) -> bool {
    &&& b.search.query@ == q
    &&& q.len() == 0 ==> b.search.matches@.len() == 0 && b.search.current == 0
    &&& q.len() > 0 ==> {
        &&& query_pattern(q).len() > 0
        &&& b.search.matches@ == hits(a.rows@, query_pattern(q))
        &&& b.search.current == if b.search.matches@.len() > 0 && a.search.current >= b.search.matches@.len() {
            (b.search.matches@.len() - 1) as usize
        } else {
            a.search.current
        }
    }
}

/// `b` is `a` after `key` was typed into the search bar.
pub open spec fn typed(a: App, b: App, key: Key) -> bool {
    match key {
        Key::Esc => search_cleared(a, b),
        Key::Enter => {
            &&& same_layout(a, b)
            &&& b.new_count == a.new_count
            &&& !b.search.typing
            &&& b.search.query == a.search.query
            &&& b.search.matches == a.search.matches
            &&& if a.search.matches@.len() > 0 {
                &&& b.search.current == 0
                &&& b.selected == a.search.matches@[0]
                &&& b.paused
                &&& brought_into_view(a.rows@, a.mw(), a.visible_height as nat, a.scroll_offset as int, b.selected as int, b.scroll_offset as int)
            } else {
                &&& b.search.current == a.search.current
                &&& b.selected == a.selected
                &&& b.paused == a.paused
                &&& b.scroll_offset == a.scroll_offset
            }
        },
        Key::Backspace => {
            &&& same_layout(a, b)
            &&& b.new_count == a.new_count
            &&& b.selected == a.selected
            &&& b.paused == a.paused
            &&& b.scroll_offset == a.scroll_offset
            &&& b.search.typing == a.search.typing
            &&& matches_updated(a, b, if a.search.query@.len() == 0 { a.search.query@ } else { a.search.query@.drop_last() })
        },
        Key::Char(c) => {
            &&& same_layout(a, b)
            &&& b.new_count == a.new_count
            &&& b.search.typing == a.search.typing
            &&& b.search.query@ == a.search.query@.push(c)
            &&& query_pattern(a.search.query@.push(c)).len() > 0
            &&& b.search.matches@ == hits(a.rows@, query_pattern(a.search.query@.push(c)))
            &&& if b.search.matches@.len() > 0 {
                let i = matches_below(b.search.matches@, a.selected);
                let k = if i < b.search.matches@.len() { i } else { 0 };
                &&& b.search.current == k
                &&& b.selected == b.search.matches@[k]
                &&& b.paused
                &&& brought_into_view(a.rows@, a.mw(), a.visible_height as nat, a.scroll_offset as int, b.selected as int, b.scroll_offset as int)
            } else {
                &&& b.search.current == a.search.current
                &&& b.selected == a.selected
                &&& b.paused == a.paused
                &&& b.scroll_offset == a.scroll_offset
            }
        },
        _ => b == a,
    }
}

/// `b` is `a` after `key` in the normal mode; `go_on` is false for the quit keys.
pub open spec fn pressed(a: App, b: App, key: Key, go_on: bool) -> bool {
    match key {
        Key::Char('q') | Key::Char('Q') => !go_on && b == a,
        Key::Up => go_on && scrolled_up(a, b),
        Key::Down => go_on && scrolled_down(a, b),
        Key::Home | Key::Char('g') => go_on && jumped_to_start(a, b),
        Key::End | Key::Char('G') => go_on && jumped_to_end(a, b),
        Key::Char(' ') => go_on && if a.paused {
            jumped_to_end(a, b)
        } else {
            &&& same_layout(a, b)
            &&& b.paused
            &&& b.selected == a.selected
            &&& b.scroll_offset == a.scroll_offset
            &&& b.new_count == a.new_count
            &&& b.search == a.search
        },
        Key::Char('/') => go_on && only_typing_set(a, b, true),
        Key::Char('n') => go_on && moved_to_match(a, b, if a.search.matches@.len() == 0 {
            0
        } else {
            (a.search.current + 1) % (a.search.matches@.len() as int)
        }),
        Key::Char('N') => go_on && moved_to_match(a, b, if a.search.matches@.len() == 0 {
            0
        } else if a.search.current == 0 {
            a.search.matches@.len() - 1
        } else {
            a.search.current - 1
        }),
        Key::Esc => go_on && if a.search.typing || a.search.query@.len() > 0 {
            search_cleared(a, b)
        } else {
            b == a
        },
        _ => go_on && b == a,
    }
}

/// `b` is `a` after `ev`; `go_on` is false when the view should close.
pub open spec fn handled(a: App, b: App, ev: InputEvent, go_on: bool) -> bool {
    match ev {
        InputEvent::Key { key, kind } => if kind == KeyKind::Release {
            go_on && b == a
        } else if a.search.typing {
            go_on && typed(a, b, key)
        } else {
            pressed(a, b, key, go_on)
        },
        InputEvent::Mouse { kind, row } => go_on && match kind {
            MouseKind::ScrollUp => scrolled_up(a, b),
            MouseKind::ScrollDown => scrolled_down(a, b),
            MouseKind::LeftDown => clicked(a, b, row as int),
            MouseKind::Other => b == a,
        },
        InputEvent::Other => go_on && b == a,
    }
}

/// Handles a terminal event; returns false when the view should close.
pub fn handle_event(app: &mut App, event: InputEvent) -> (go_on: bool)
    requires
        old(app).well_formed(),
    ensures
        handled(*old(app), *final(app), event, go_on),
        final(app).well_formed(),
        selected_visible(*old(app)) && old(app).visible_height > 0 ==> selected_visible(*final(app)),
{
    match event {
        InputEvent::Key { key, kind } => {
            if kind == KeyKind::Release {
                return true;
            }
            if app.search.typing {
                match key {
                    Key::Esc => {
                        app.search.typing = false;
                        app.search.query = String::new();
                        app.search.matches.clear();
                        app.search.current = 0;
                    },
                    Key::Enter => {
                        app.search.typing = false;
                        if app.search.matches.len() != 0 {
                            app.search.current = 0;
                            app.selected = app.search.matches[0];
                            app.paused = true;
                            app.ensure_selected_visible();
                            proof {
                                if app.visible_height > 0 {
                                    lemma_visible_after(*old(app), *app);
                                }
                            }
                        }
                    },
                    Key::Backspace => {
                        pop_char(&mut app.search.query);
                        app.search.update_matches(app.rows.as_slice());
                    },
                    Key::Char(c) => {
                        push_char(&mut app.search.query, c);
                        app.search.update_matches(app.rows.as_slice());
                        if app.search.matches.len() != 0 {
                            let from = app.selected;
                            let i = partition_point_below(&app.search.matches, from);
                            app.search.current = if i < app.search.matches.len() { i } else { 0 };
                            app.selected = app.search.matches[app.search.current];
                            app.paused = true;
                            app.ensure_selected_visible();
                            proof {
                                if app.visible_height > 0 {
                                    lemma_visible_after(*old(app), *app);
                                }
                            }
                        }
                    },
                    _ => {},
                }
                return true;
            }
            match key {
                Key::Char('q') | Key::Char('Q') => {
                    return false;
                },
                Key::Up => app.scroll_up(),
                Key::Down => app.scroll_down(),
                Key::Home | Key::Char('g') => app.jump_to_start(),
                Key::End | Key::Char('G') => app.jump_to_end(),
                Key::Char(' ') => app.toggle_pause(),
                Key::Char('/') => {
                    app.search.typing = true;
                },
                Key::Char('n') => app.search_next(),
                Key::Char('N') => app.search_prev(),
                Key::Esc => {
                    if app.search.is_active() {
                        app.search.query = String::new();
                        app.search.matches.clear();
                        app.search.current = 0;
                        app.search.typing = false;
                    }
                },
                _ => {},
            }
        },
        InputEvent::Mouse { kind, row } => {
            match kind {
                MouseKind::ScrollUp => app.scroll_up(),
                MouseKind::ScrollDown => app.scroll_down(),
                MouseKind::LeftDown => app.click_select_or_expand(row),
                MouseKind::Other => {},
            }
        },
        InputEvent::Other => {},
    }
    true
}

} // verus!

verus! {

// ----- input of the table view -----

/// What the reading side hands the table view.
#[derive(Debug)]
pub enum AppEvent {
    /// A classified JSON log line.
    LogLine(ClassifiedLine),
    /// A line that is not JSON.
    RawLine(String),
    /// The end of the input.
    Eof,
}

/// `c` is the row shown for the text `r` that is not JSON: `r` as its message, and
/// nothing else.
pub open spec fn is_raw_row(c: ClassifiedLine, r: String) -> bool {
    &&& c.level is None
    &&& c.timestamp is None
    &&& c.message == Some(r)
    &&& c.trace_id is None
    &&& c.caller is None
    &&& c.extras@.len() == 0
    &&& c.continuation_lines@.len() == 0
}

/// The event for a logical line: a line that holds one JSON object is classified; any
/// other line is handed on as text, without its continuation lines.
pub fn make_event(p: LogicalLine, config: &Config) -> (e: AppEvent)
    ensures
        match json_object_entries(trim(p.main@)) {
            None => e matches AppEvent::RawLine(l) && l@ == p.main@,
            Some(entries) => e matches AppEvent::LogLine(c) && exists|fields: Seq<(String, JsonValue)>|
                fields_view(fields) == entries && classified_as(c, fields, p.continuations@, config.fields),
        },
{
    let LogicalLine { main, continuations } = p;
    match parse_line(main.as_str(), continuations) {
        ParseResult::Json(parsed) => {
            let ghost fields = parsed.fields@;
            AppEvent::LogLine(classify(parsed, config))
        },
        ParseResult::Raw { line, continuation_lines: _ } => AppEvent::RawLine(line),
    }
}

/// The row for a line that is not JSON.
pub fn raw_row(raw: String) -> (c: ClassifiedLine)
    ensures
        is_raw_row(c, raw),
{
    ClassifiedLine {
        level: None,
        timestamp: None,
        message: Some(raw),
        trace_id: None,
        caller: None,
        extras: Vec::new(),
        continuation_lines: Vec::new(),
    }
}

/// Takes an event from the reading side: a line becomes a new row; the end of the
/// input changes nothing.
pub fn apply_event(app: &mut App, ev: AppEvent)
    requires
        old(app).well_formed(),
    ensures
        final(app).well_formed(),
        match ev {
            AppEvent::LogLine(c) => pushed_row(*old(app), *final(app), c),
            AppEvent::RawLine(r) => exists|c: ClassifiedLine| is_raw_row(c, r) && pushed_row(*old(app), *final(app), c),
            AppEvent::Eof => *final(app) == *old(app),
        },
{
    match ev {
        AppEvent::LogLine(c) => app.push_row(c),
        AppEvent::RawLine(r) => {
            let c = raw_row(r);
            let ghost cc = c;
            app.push_row(c);
            assert(pushed_row(*old(app), *app, cc));
        },
        AppEvent::Eof => {},
    }
}

} // verus!
