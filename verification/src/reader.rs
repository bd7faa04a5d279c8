//! Grouping of input lines into logical log entries: a JSON line together with the
//! continuation lines (stack traces) that follow it.

use vstd::prelude::*;
use regex::Regex;
use crate::config::{MultilineConfig, texts};
use crate::text::{
    after_char, before_char, chars_of, end_without, find_char, lemma_after_char_shorter, str_trim_end_char,
    string_from_range, trim_end_char,
};

verus! {

/// A logical log entry: a main line and the continuation lines that follow it.
#[derive(Debug, Clone, PartialEq)]
pub struct LogicalLine {
    pub main: String,
    pub continuations: Vec<String>,
}

/// The mathematical value of a logical line: its main line and its continuation lines.
pub type Group = (Seq<char>, Seq<Seq<char>>);

impl View for LogicalLine {
    type V = Group;

    open spec fn view(&self) -> Group {
        (self.main@, texts(self.continuations@))
    }
}

/// The value of an optional logical line.
pub open spec fn opt_group(o: Option<LogicalLine>) -> Option<Group> {
    match o {
        Some(l) => Some(l@),
        None => None,
    }
}

/// Whether the regular expression `pattern` (`regex` syntax) matches somewhere in
/// `text`; `None` when `pattern` is not a valid regular expression.
pub uninterp spec fn regex_match(pattern: Seq<char>, text: Seq<char>) -> Option<bool>;

/// `regex::Regex::new(pattern)`, then `is_match(text)` on the compiled expression.
/// The result is named `regex_match(pattern@, text@)`: it depends on the two texts
/// alone; `None` stands for the error that `Regex::new` returns.
#[verifier::external_body]
fn regex_is_match(pattern: &str, text: &str) -> (r: Option<bool>)
    ensures
        r == regex_match(pattern@, text@),
{
    match Regex::new(pattern) {
        Ok(re) => Some(re.is_match(text)),
        Err(_) => None,
    }
}

/// What the default continuation pattern `^[^\{]` matches: a line whose first
/// character is not `{`.
pub open spec fn default_pattern_matches(line: Seq<char>) -> bool {
    line.len() > 0 && line[0] != '{'
}

/// Whether a line continues the entry before it: never when grouping is off;
/// otherwise as the pattern decides (`matched`), or, when the pattern is not a valid
/// regular expression, as the default pattern would.
pub open spec fn continues(enabled: bool, matched: Option<bool>, line: Seq<char>) -> bool {
    enabled && match matched {
        Some(b) => b,
        None => default_pattern_matches(line),
    }
}

/// Decides whether `line` is a continuation line, given what the pattern made of it.
pub fn decide_continuation(enabled: bool, matched: Option<bool>, line: &str) -> (b: bool)
    ensures
        b == continues(enabled, matched, line@),
{
    if !enabled {
        return false;
    }
    match matched {
        Some(b) => b,
        None => {
            let cs = chars_of(line);
            cs.len() > 0 && cs[0] != '{'
        },
    }
}

/// The test for continuation lines that a multi-line configuration sets up.
#[derive(Debug, Clone)]
pub struct ContinuationChecker {
    pub enabled: bool,
    pub pattern: String,
}

/// Sets up the continuation test of `config`.
pub fn make_continuation_checker(config: &MultilineConfig) -> (c: ContinuationChecker)
    ensures
        c.enabled == config.enabled,
        c.pattern@ == config.continuation_pattern@,
{
    ContinuationChecker { enabled: config.enabled, pattern: config.continuation_pattern.clone() }
}

impl ContinuationChecker {
    /// `line` continues the entry before it.
    pub open spec fn is_cont(&self, line: Seq<char>) -> bool {
        continues(self.enabled, regex_match(self.pattern@, line), line)
    }

    /// Whether `line` continues the entry before it.
    pub fn is_continuation(&self, line: &str) -> (b: bool)
        ensures
            b == self.is_cont(line@),
    {
        if !self.enabled {
            return false;
        }
        let matched = regex_is_match(self.pattern.as_str(), line);
        decide_continuation(self.enabled, matched, line)
    }
}

} // verus!

verus! {

/// One line fed to the grouping: given the pending entry, the line and whether it is
/// a continuation line, the entry that is finished (if any) and the new pending entry.
/// A continuation line joins the pending entry (or starts one when there is none);
/// any other line finishes the pending entry and starts a new one.
pub open spec fn group_step(pending: Option<Group>, line: Seq<char>, cont: bool) -> (Option<Group>, Option<Group>) {
    if cont {
        match pending {
            Some(p) => (None, Some((p.0, p.1.push(line)))),
            None => (None, Some((line, Seq::empty()))),
        }
    } else {
        (pending, Some((line, Seq::empty())))
    }
}

/// The finished entries and the pending one after feeding `lines`, with
/// continuation flags `flags`, from the start.
pub open spec fn group_run(lines: Seq<Seq<char>>, flags: Seq<bool>) -> (Seq<Group>, Option<Group>)
    decreases lines.len(),
{
    if lines.len() == 0 {
        (Seq::empty(), None)
    } else {
        let prev = group_run(lines.drop_last(), flags.drop_last());
        let step = group_step(prev.1, lines.last(), flags.last());
        (
            match step.0 {
                Some(g) => prev.0.push(g),
                None => prev.0,
            },
            step.1,
        )
    }
}

/// The entries that `lines` form, the last one flushed at the end of the input.
pub open spec fn grouped(lines: Seq<Seq<char>>, flags: Seq<bool>) -> Seq<Group> {
    let run = group_run(lines, flags);
    match run.1 {
        Some(g) => run.0.push(g),
        None => run.0,
    }
}

/// Groups input lines into logical lines as they arrive.
#[derive(Debug, Clone)]
pub struct LineGrouper {
    pub checker: ContinuationChecker,
    pub pending: Option<LogicalLine>,
}

impl LineGrouper {
    /// A grouping with nothing pending.
    pub fn new(config: &MultilineConfig) -> (g: Self)
        ensures
            g.pending is None,
            g.checker.enabled == config.enabled,
            g.checker.pattern@ == config.continuation_pattern@,
    {
        LineGrouper { checker: make_continuation_checker(config), pending: None }
    }

    /// Feeds a line whose continuation flag is `cont`; returns the entry that it
    /// finishes, if any.
    pub fn push_classified(&mut self, line: String, cont: bool) -> (out: Option<LogicalLine>)
        ensures
            (opt_group(out), opt_group(final(self).pending)) == group_step(opt_group(old(self).pending), line@, cont),
            final(self).checker == old(self).checker,
    {
        if cont {
            match self.pending.take() {
                Some(mut p) => {
                    let ghost before = p@;
                    p.continuations.push(line);
                    proof {
                        assert(p@.1 =~= before.1.push(line@));
                    }
                    self.pending = Some(p);
                },
                None => {
                    let fresh = LogicalLine { main: line, continuations: Vec::new() };
                    assert(fresh@.1 =~= Seq::<Seq<char>>::empty());
                    self.pending = Some(fresh);
                },
            }
            None
        } else {
            let fresh = LogicalLine { main: line, continuations: Vec::new() };
            assert(fresh@.1 =~= Seq::<Seq<char>>::empty());
            let prev = self.pending.take();
            self.pending = Some(fresh);
            prev
        }
    }

    /// Feeds a line (without its line ending, not empty); returns the entry that it
    /// finishes, if any.
    pub fn push_line(&mut self, line: String) -> (out: Option<LogicalLine>)
        ensures
            (opt_group(out), opt_group(final(self).pending)) == group_step(
                opt_group(old(self).pending),
                line@,
                old(self).checker.is_cont(line@),
            ),
            final(self).checker == old(self).checker,
    {
        let cont = self.checker.is_continuation(line.as_str());
        self.push_classified(line, cont)
    }

    /// Ends the input: returns the pending entry, if any.
    pub fn flush(&mut self) -> (out: Option<LogicalLine>)
        ensures
            opt_group(out) == opt_group(old(self).pending),
            final(self).pending is None,
            final(self).checker == old(self).checker,
    {
        self.pending.take()
    }
}

} // verus!

verus! {

/// A raw input line without its line ending: the `\n`, then any `\r` before it.
pub open spec fn stripped_line(raw: Seq<char>) -> Seq<char> {
    trim_end_char(trim_end_char(raw, '\n'), '\r')
}

/// Removes the line ending of a line as `BufRead::read_line` returns it.
pub fn strip_line_ending(raw: &str) -> (r: String)
    ensures
        r@ == stripped_line(raw@),
{
    let t = str_trim_end_char(raw, '\n');
    str_trim_end_char(t.as_str(), '\r')
}

/// The non-empty lines of the text `t`, each without its line ending.
pub open spec fn input_lines(t: Seq<char>) -> Seq<Seq<char>>
    decreases t.len(),
{
    if t.len() == 0 {
        Seq::empty()
    } else {
        let first = trim_end_char(before_char(t, '\n'), '\r');
        let rest = match after_char(t, '\n') {
            Some(r) => {
                proof {
                    lemma_after_char_shorter(t, '\n');
                }
                input_lines(r)
            },
            None => Seq::empty(),
        };
        if first.len() > 0 {
            seq![first] + rest
        } else {
            rest
        }
    }
}

/// The continuation flags of `lines` when grouping is `enabled` with `pattern`.
pub open spec fn cont_flags(enabled: bool, pattern: Seq<char>, lines: Seq<Seq<char>>) -> Seq<bool> {
    lines.map_values(|l: Seq<char>| continues(enabled, regex_match(pattern, l), l))
}

/// The logical lines of a whole text: its non-empty lines, grouped.
pub fn group_lines(text: &str, config: &MultilineConfig) -> (r: Vec<LogicalLine>)
    ensures
        r@.map_values(|l: LogicalLine| l@) == grouped(
            input_lines(text@),
            cont_flags(config.enabled, config.continuation_pattern@, input_lines(text@)),
        ),
{
    let mut grouper = LineGrouper::new(config);
    let ghost checker = grouper.checker;
    let cs = chars_of(text);
    let n = cs.len();
    let mut out: Vec<LogicalLine> = Vec::new();
    let ghost mut fed: Seq<Seq<char>> = Seq::empty();
    let mut pos: usize = 0;
    assert(cs@.subrange(0, n as int) =~= text@);
    while pos < n
        invariant
            cs@ == text@,
            n == cs@.len(),
            pos <= n,
            checker == grouper.checker,
            checker.enabled == config.enabled,
            checker.pattern@ == config.continuation_pattern@,
            input_lines(text@) == fed + input_lines(cs@.subrange(pos as int, n as int)),
            (out@.map_values(|l: LogicalLine| l@), opt_group(grouper.pending)) == group_run(fed, cont_flags(config.enabled, config.continuation_pattern@, fed)),
        decreases n - pos,
    {
        let p = find_char(&cs, pos, n, '\n');
        let e = end_without(&cs, pos, p, '\r');
        let ghost piece = cs@.subrange(pos as int, n as int);
        let ghost next_pos: int = if p < n { p + 1 } else { n as int };
        proof {
            let first = trim_end_char(before_char(piece, '\n'), '\r');
            assert(first == cs@.subrange(pos as int, e as int));
            if p < n {
                assert(input_lines(piece) == if first.len() > 0 {
                    seq![first] + input_lines(cs@.subrange(p + 1, n as int))
                } else {
                    input_lines(cs@.subrange(p + 1, n as int))
                });
            } else {
                assert(cs@.subrange(n as int, n as int) =~= Seq::<char>::empty());
            }
        }
        if e > pos {
            let line = string_from_range(cs.as_slice(), pos, e);
            let ghost old_out = out@.map_values(|l: LogicalLine| l@);
            let ghost old_pending = opt_group(grouper.pending);
            let finished = grouper.push_line(line);
            proof {
                let fed2 = fed.push(line@);
                assert(fed2.drop_last() =~= fed);
                assert(cont_flags(config.enabled, config.continuation_pattern@, fed2).drop_last() =~= cont_flags(config.enabled, config.continuation_pattern@, fed));
                assert(cont_flags(config.enabled, config.continuation_pattern@, fed2).last() == checker.is_cont(line@));
            }
            match finished {
                Some(g) => {
                    out.push(g);
                },
                None => {},
            }
            proof {
                assert(out@.map_values(|l: LogicalLine| l@) =~= match opt_group(finished) {
                    Some(g) => old_out.push(g),
                    None => old_out,
                });
                fed = fed.push(line@);
            }
        }
        proof {
            if e > pos {
                assert(input_lines(text@) =~= fed + input_lines(cs@.subrange(next_pos, n as int)));
            }
        }
        if p < n {
            pos = p + 1;
        } else {
            pos = n;
        }
    }
    assert(cs@.subrange(n as int, n as int) =~= Seq::<char>::empty());
    assert(fed + Seq::<Seq<char>>::empty() =~= fed);
    let ghost done = out@.map_values(|l: LogicalLine| l@);
    let last = grouper.flush();
    match last {
        Some(g) => {
            out.push(g);
        },
        None => {},
    }
    assert(out@.map_values(|l: LogicalLine| l@) =~= grouped(fed, cont_flags(config.enabled, config.continuation_pattern@, fed)));
    out
}

} // verus!

verus! {

/// The lines of an entry: its main line, then its continuation lines.
pub open spec fn lines_of(g: Group) -> Seq<Seq<char>> {
    seq![g.0] + g.1
}

/// All lines of `gs`, entry after entry.
pub open spec fn flatten_groups(gs: Seq<Group>) -> Seq<Seq<char>>
    decreases gs.len(),
{
    if gs.len() == 0 {
        Seq::empty()
    } else {
        flatten_groups(gs.drop_last()) + lines_of(gs.last())
    }
}

/// The lines of an optional entry.
pub open spec fn opt_lines(p: Option<Group>) -> Seq<Seq<char>> {
    match p {
        Some(g) => lines_of(g),
        None => Seq::empty(),
    }
}

/// The entry `g`, whose main line is line `off` of the input, is where grouping puts
/// it: its main line is not a continuation line (unless it is the first line of the
/// input), and each of its continuation lines is one.
pub open spec fn placed(g: Group, flags: Seq<bool>, off: int) -> bool {
    &&& 0 <= off
    &&& off + g.1.len() < flags.len()
    &&& (off > 0 ==> !flags[off])
    &&& forall|j: int| off < j <= off + g.1.len() ==> #[trigger] flags[j]
}

/// Placement only reads flags of lines that came before.
proof fn lemma_placed_extend(g: Group, flags: Seq<bool>, f: bool, off: int)
    requires
        placed(g, flags, off),
    ensures
        placed(g, flags.push(f), off),
{
    assert forall|j: int| off < j <= off + g.1.len() implies #[trigger] flags.push(f)[j] by {
        assert(flags.push(f)[j] == flags[j]);
    }
}

/// What a run of the grouping keeps: the finished and pending entries hold the lines
/// fed so far, in order, and each entry is placed where it belongs.
proof fn lemma_group_run(lines: Seq<Seq<char>>, flags: Seq<bool>)
    requires
        lines.len() == flags.len(),
    ensures
        flatten_groups(group_run(lines, flags).0) + opt_lines(group_run(lines, flags).1) == lines,
        group_run(lines, flags).1 is None <==> lines.len() == 0,
        forall|k: int| 0 <= k < group_run(lines, flags).0.len() ==> placed(
            #[trigger] group_run(lines, flags).0[k],
            flags,
            flatten_groups(group_run(lines, flags).0.take(k)).len() as int,
        ),
        group_run(lines, flags).1 matches Some(p) ==> placed(
            p,
            flags,
            flatten_groups(group_run(lines, flags).0).len() as int,
        ),
    decreases lines.len(),
{
    if lines.len() > 0 {
        let lines0 = lines.drop_last();
        let flags0 = flags.drop_last();
        let l = lines.last();
        let f = flags.last();
        lemma_group_run(lines0, flags0);
        let done = group_run(lines0, flags0).0;
        let pend = group_run(lines0, flags0).1;
        assert(flags0.push(f) =~= flags);
        assert(lines0.push(l) =~= lines);
        let run = group_run(lines, flags);
        assert forall|k: int| 0 <= k < done.len() implies placed(
            #[trigger] done[k],
            flags,
            flatten_groups(done.take(k)).len() as int,
        ) by {
            lemma_placed_extend(done[k], flags0, f, flatten_groups(done.take(k)).len() as int);
        }
        if let Some(p) = pend {
            lemma_placed_extend(p, flags0, f, flatten_groups(done).len() as int);
        }
        if f {
            match pend {
                Some(p) => {
                    let p2 = (p.0, p.1.push(l));
                    assert(run.0 == done);
                    assert(run.1 == Some(p2));
                    assert(lines_of(p2) =~= lines_of(p).push(l));
                    assert(flatten_groups(done) + lines_of(p2) =~= (flatten_groups(done) + lines_of(p)).push(l));
                    let off = flatten_groups(done).len() as int;
                    assert forall|j: int| off < j <= off + p2.1.len() implies #[trigger] flags[j] by {
                        if j < off + p2.1.len() {
                            assert(flags[j] == flags0.push(f)[j]);
                        }
                    }
                },
                None => {
                    assert(lines0.len() == 0);
                    assert(flatten_groups(done) =~= Seq::<Seq<char>>::empty());
                    assert(lines_of((l, Seq::empty())) =~= seq![l]);
                    assert(flatten_groups(done) + lines_of((l, Seq::empty())) =~= lines);
                },
            }
        } else {
            let fresh: Group = (l, Seq::empty());
            assert(lines_of(fresh) =~= seq![l]);
            match pend {
                Some(p) => {
                    let d2 = done.push(p);
                    assert(run.0 == d2);
                    assert(d2.drop_last() =~= done);
                    assert(flatten_groups(d2) == flatten_groups(done) + lines_of(p));
                    assert(flatten_groups(d2) + lines_of(fresh) =~= lines);
                    assert forall|k: int| 0 <= k < d2.len() implies placed(
                        #[trigger] d2[k],
                        flags,
                        flatten_groups(d2.take(k)).len() as int,
                    ) by {
                        if k < done.len() {
                            assert(d2.take(k) =~= done.take(k));
                        } else {
                            assert(d2.take(k) =~= done);
                        }
                    }
                },
                None => {
                    assert(lines0.len() == 0);
                    assert(flatten_groups(done) =~= Seq::<Seq<char>>::empty());
                    assert(flatten_groups(done) + lines_of(fresh) =~= lines);
                },
            }
        }
    }
}

/// Grouping keeps every input line, in order: the lines of the entries, one entry
/// after the other, are the input lines.
pub proof fn law_grouping_keeps_lines(lines: Seq<Seq<char>>, flags: Seq<bool>)
    requires
        lines.len() == flags.len(),
    ensures
        flatten_groups(grouped(lines, flags)) == lines,
{
    lemma_group_run(lines, flags);
    let run = group_run(lines, flags);
    if let Some(g) = run.1 {
        assert(run.0.push(g).drop_last() =~= run.0);
    } else {
        assert(flatten_groups(run.0) + Seq::<Seq<char>>::empty() =~= flatten_groups(run.0));
    }
}

/// Each continuation line joins the entry before it: every entry starts at a line that
/// is not a continuation line (only the first input line may start one regardless),
/// and all the other lines of the entry are continuation lines.
pub proof fn law_grouping_places_entries(lines: Seq<Seq<char>>, flags: Seq<bool>)
    requires
        lines.len() == flags.len(),
    ensures
        forall|k: int| 0 <= k < grouped(lines, flags).len() ==> placed(
            #[trigger] grouped(lines, flags)[k],
            flags,
            flatten_groups(grouped(lines, flags).take(k)).len() as int,
        ),
{
    lemma_group_run(lines, flags);
    let run = group_run(lines, flags);
    let gs = grouped(lines, flags);
    if let Some(g) = run.1 {
        assert forall|k: int| 0 <= k < gs.len() implies placed(
            #[trigger] gs[k],
            flags,
            flatten_groups(gs.take(k)).len() as int,
        ) by {
            if k < run.0.len() {
                assert(gs.take(k) =~= run.0.take(k));
            } else {
                assert(gs.take(k) =~= run.0);
            }
        }
    }
}

} // verus!

verus! {

/// What the reading side hands the grouping of a live stream.
#[derive(Debug)]
pub enum StreamEvent {
    /// A line, without its line ending.
    Line(String),
    /// The end of the input (or the reader went away).
    Eof,
    /// No line came for a while.
    Timeout,
}

/// Takes one event of a live stream: an empty line is skipped; any other line is
/// grouped; at the end of the input, and when no line came for a while, the pending
/// entry is handed out. Returns the entry to print, if any, and whether the stream is
/// over.
pub fn stream_step(grouper: &mut LineGrouper, ev: StreamEvent) -> (r: (Option<LogicalLine>, bool))
    ensures
        final(grouper).checker == old(grouper).checker,
        match ev {
            StreamEvent::Line(l) => if l@.len() == 0 {
                &&& r.0 is None
                &&& !r.1
                &&& opt_group(final(grouper).pending) == opt_group(old(grouper).pending)
            } else {
                &&& (opt_group(r.0), opt_group(final(grouper).pending)) == group_step(
                    opt_group(old(grouper).pending),
                    l@,
                    old(grouper).checker.is_cont(l@),
                )
                &&& !r.1
            },
            StreamEvent::Eof => {
                &&& opt_group(r.0) == opt_group(old(grouper).pending)
                &&& final(grouper).pending is None
                &&& r.1
            },
            StreamEvent::Timeout => {
                &&& opt_group(r.0) == opt_group(old(grouper).pending)
                &&& final(grouper).pending is None
                &&& !r.1
            },
        },
{
    match ev {
        StreamEvent::Line(l) => {
            if l.as_str().is_empty() {
                (None, false)
            } else {
                (grouper.push_line(l), false)
            }
        },
        StreamEvent::Eof => (grouper.flush(), true),
        StreamEvent::Timeout => (grouper.flush(), false),
    }
}

} // verus!
