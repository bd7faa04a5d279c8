//! Search highlighting in the table view: wrapped message lines cut into plain and
//! highlighted segments.

use vstd::prelude::*;
use vstd::utf8::{
    encode_utf8, encode_utf8_valid_utf8, is_char_boundary, is_char_boundary_iff_not_is_continuation_byte,
    is_char_boundary_start_end_of_seq, valid_utf8, valid_utf8_split,
};
use crate::search::lemma_encode_nonempty;
use crate::text::{chars_of, lowercase, string_from_range, to_lowercase};

verus! {

/// The text `text[a..b]`, given as byte offsets at character boundaries.
fn byte_slice(text: &str, a: usize, b: usize) -> (r: String)
    requires
        a <= b <= encode_utf8(text@).len(),
        is_char_boundary(encode_utf8(text@), a as int),
        is_char_boundary(encode_utf8(text@), b as int),
    ensures
        encode_utf8(r@) == encode_utf8(text@).subrange(a as int, b as int),
{
    let ghost tb = encode_utf8(text@);
    proof {
        encode_utf8_valid_utf8(text@);
    }
    let (_, rest) = text.split_at(a);
    proof {
        let rb = encode_utf8(rest@);
        assert(rb =~= tb.subrange(a as int, tb.len() as int));
        valid_utf8_split(tb, a as int);
        if b < tb.len() {
            is_char_boundary_iff_not_is_continuation_byte(tb, b as int);
            is_char_boundary_iff_not_is_continuation_byte(rb, b - a);
            assert(rb[b - a] == tb[b as int]);
        } else {
            is_char_boundary_start_end_of_seq(rb);
        }
    }
    let (mid, _) = rest.split_at(b - a);
    proof {
        assert(encode_utf8(mid@) =~= tb.subrange(a as int, b as int));
    }
    String::from_str(mid)
}

} // verus!

verus! {

/// The first index at or after `from` where `q` occurs in `l`.
pub open spec fn first_occurrence(l: Seq<u8>, q: Seq<u8>, from: int) -> Option<int>
    decreases l.len() - from,
{
    if from < 0 || from + q.len() > l.len() {
        None
    } else if l.subrange(from, from + q.len()) == q {
        Some(from)
    } else {
        proof {
            if q.len() == 0 {
                assert(l.subrange(from, from + q.len()) =~= q);
            }
        }
        first_occurrence(l, q, from + 1)
    }
}

/// An occurrence found from `from` lies at or after it, inside `l`.
pub proof fn lemma_first_occurrence(l: Seq<u8>, q: Seq<u8>, from: int)
    ensures
        first_occurrence(l, q, from) matches Some(i) ==> from <= i && i + q.len() <= l.len(),
    decreases l.len() - from,
{
    if !(from < 0 || from + q.len() > l.len()) && l.subrange(from, from + q.len()) != q {
        if q.len() == 0 {
            assert(l.subrange(from, from + q.len()) =~= q);
        }
        lemma_first_occurrence(l, q, from + 1);
    }
}

/// The rest of the text from byte `last`, as a plain segment, if it is not empty.
pub open spec fn rest_segment(tb: Seq<u8>, last: int) -> Seq<(Seq<u8>, bool)> {
    if last < tb.len() {
        seq![(tb.subrange(last, tb.len() as int), false)]
    } else {
        Seq::empty()
    }
}

/// The segments of the text, as bytes `tb`, from byte `last` on, with the search
/// resumed at byte `from` of the lowercase text `l`: each occurrence of the lowercase
/// query `q` that falls on character boundaries of the text is highlighted; an
/// occurrence that does not is skipped by resuming one byte further.
pub open spec fn highlight_from(tb: Seq<u8>, l: Seq<u8>, q: Seq<u8>, last: int, from: int) -> Seq<(Seq<u8>, bool)>
    decreases l.len() - from,
{
    if q.len() == 0 || from < 0 || from >= l.len() {
        rest_segment(tb, last)
    } else {
        match first_occurrence(l, q, from) {
            None => rest_segment(tb, last),
            Some(start) => {
                let end = start + q.len();
                if !(is_char_boundary(tb, start) && is_char_boundary(tb, end)) {
                    highlight_from(tb, l, q, last, from + 1)
                } else {
                    proof {
                        lemma_first_occurrence(l, q, from);
                    }
                    (if start > last {
                        seq![(tb.subrange(last, start), false)]
                    } else {
                        Seq::empty()
                    }) + seq![(tb.subrange(start, end), true)] + highlight_from(tb, l, q, end, end)
                }
            },
        }
    }
}

/// The search never resumes inside a character of the lowercase text (where the
/// search would cut that text).
pub open spec fn highlight_safe_from(tb: Seq<u8>, l: Seq<u8>, q: Seq<u8>, last: int, from: int) -> bool
    decreases l.len() - from,
{
    if q.len() == 0 || from < 0 || from >= l.len() {
        true
    } else {
        &&& is_char_boundary(l, from)
        &&& match first_occurrence(l, q, from) {
            None => true,
            Some(start) => {
                let end = start + q.len();
                if !(is_char_boundary(tb, start) && is_char_boundary(tb, end)) {
                    highlight_safe_from(tb, l, q, last, from + 1)
                } else {
                    proof {
                        lemma_first_occurrence(l, q, from);
                    }
                    highlight_safe_from(tb, l, q, end, end)
                }
            },
        }
    }
}

/// The bytes of `text`, of its lowercase form and of the lowercase `query`.
pub open spec fn hl_inputs(text: Seq<char>, query: Seq<char>) -> (Seq<u8>, Seq<u8>, Seq<u8>) {
    (encode_utf8(text), encode_utf8(lowercase(text)), encode_utf8(lowercase(query)))
}

/// The segments, as bytes, of `text` with `query` highlighted: the whole text as one
/// plain segment when the query is empty or nothing else comes out.
pub open spec fn highlight_segments(text: Seq<char>, query: Seq<char>) -> Seq<(Seq<u8>, bool)> {
    let (tb, l, q) = hl_inputs(text, query);
    if query.len() == 0 {
        seq![(tb, false)]
    } else {
        let s = highlight_from(tb, l, q, 0, 0);
        if s.len() == 0 {
            seq![(tb, false)]
        } else {
            s
        }
    }
}

/// `text` can be highlighted for `query` without cutting the lowercase text inside a
/// character.
pub open spec fn highlight_safe(text: Seq<char>, query: Seq<char>) -> bool {
    let (tb, l, q) = hl_inputs(text, query);
    query.len() == 0 || highlight_safe_from(tb, l, q, 0, 0)
}

/// The segments as bytes.
pub open spec fn segment_bytes(segs: Seq<(String, bool)>) -> Seq<(Seq<u8>, bool)> {
    segs.map_values(|s: (String, bool)| (encode_utf8(s.0@), s.1))
}

/// Whether `q` occurs in `l` at index `i`.
fn bytes_match_at(l: &[u8], q: &[u8], i: usize) -> (b: bool)
    requires
        i + q@.len() <= l@.len(),
    ensures
        b == (l@.subrange(i as int, i + q@.len()) == q@),
{
    let llen = l.len();
    let mut j: usize = 0;
    while j < q.len()
        invariant
            llen == l@.len(),
            i + q@.len() <= l@.len(),
            j <= q@.len(),
            forall|k: int| 0 <= k < j ==> l@[i + k] == q@[k],
        decreases q.len() - j,
    {
        if l[i + j] != q[j] {
            assert(l@.subrange(i as int, i + q@.len())[j as int] != q@[j as int]);
            return false;
        }
        j = j + 1;
    }
    assert(l@.subrange(i as int, i + q@.len()) =~= q@);
    true
}

/// The first index at or after `from` where `q` occurs in `l`.
fn find_bytes(l: &[u8], q: &[u8], from: usize) -> (r: Option<usize>)
    ensures
        match r {
            Some(i) => first_occurrence(l@, q@, from as int) == Some(i as int),
            None => first_occurrence(l@, q@, from as int) is None,
        },
{
    let mut i: usize = from;
    while i <= l.len() && q.len() <= l.len() - i
        invariant
            from <= i,
            first_occurrence(l@, q@, from as int) == first_occurrence(l@, q@, i as int),
        decreases l.len() + 1 - i,
    {
        if bytes_match_at(l, q, i) {
            return Some(i);
        }
        proof {
            if q@.len() == 0 {
                assert(l@.subrange(i as int, i as int) =~= q@);
            }
        }
        i = i + 1;
    }
    None
}

} // verus!

verus! {

/// A character boundary lies within the bytes.
proof fn lemma_boundary_in_range(b: Seq<u8>, i: int)
    requires
        valid_utf8(b),
        is_char_boundary(b, i),
    ensures
        0 <= i <= b.len(),
{
}

/// Cuts `text` into plain and highlighted segments: each case-insensitive occurrence
/// of `query` is highlighted. The search runs on the lowercase text; an occurrence
/// whose byte offsets are not character boundaries of `text` is skipped.
pub fn highlight_text_spans(text: &str, query: &str) -> (spans: Vec<(String, bool)>)
    requires
        highlight_safe(text@, query@),
    ensures
        segment_bytes(spans@) == highlight_segments(text@, query@),
        text@.len() > 0 && query@.len() > 0 ==> highlights_ok(
            highlight_segments(text@, query@),
            hl_inputs(text@, query@).0,
            hl_inputs(text@, query@).1,
            hl_inputs(text@, query@).2,
            0,
        ),
{
    if query.is_empty() {
        let spans = vec![(String::from_str(text), false)];
        assert(segment_bytes(spans@) =~= highlight_segments(text@, query@));
        return spans;
    }
    let tl = to_lowercase(text);
    let ql = to_lowercase(query);
    let tb = text.as_bytes();
    let l = tl.as_str().as_bytes();
    let q = ql.as_str().as_bytes();
    let ghost full = highlight_from(tb@, l@, q@, 0, 0);
    proof {
        lemma_encode_nonempty(ql@);
        lemma_encode_nonempty(text@);
        encode_utf8_valid_utf8(text@);
        law_highlight_segments(tb@, l@, q@);
        if text@.len() > 0 && full.len() == 0 {
            assert(seg_join(full) =~= Seq::<u8>::empty());
            assert(tb@.subrange(0, tb@.len() as int) =~= tb@);
        }
    }
    let mut spans: Vec<(String, bool)> = Vec::new();
    let mut last: usize = 0;
    let mut sf: usize = 0;
    proof {
        encode_utf8_valid_utf8(text@);
        is_char_boundary_start_end_of_seq(tb@);
    }
    loop
        invariant
            tb@ == encode_utf8(text@),
            valid_utf8(tb@),
            (tb@, l@, q@) == hl_inputs(text@, query@),
            full == highlight_from(tb@, l@, q@, 0, 0),
            segment_bytes(spans@) + highlight_from(tb@, l@, q@, last as int, sf as int) == full,
            highlight_safe_from(tb@, l@, q@, last as int, sf as int),
            last <= sf <= l@.len(),
            last <= tb@.len(),
            is_char_boundary(tb@, last as int),
        ensures
            segment_bytes(spans@) + rest_segment(tb@, last as int) == full,
            last <= tb@.len(),
            is_char_boundary(tb@, last as int),
        decreases l@.len() - sf,
    {
        if q.len() == 0 || sf >= l.len() {
            break;
        }
        let found = find_bytes(l, q, sf);
        proof {
            lemma_first_occurrence(l@, q@, sf as int);
        }
        match found {
            None => {
                break;
            },
            Some(start) => {
                let end = start + q.len();
                if !text.is_char_boundary(start) || !text.is_char_boundary(end) {
                    sf = sf + 1;
                } else {
                    proof {
                        lemma_boundary_in_range(tb@, start as int);
                        lemma_boundary_in_range(tb@, end as int);
                    }
                    let ghost before = segment_bytes(spans@);
                    if start > last {
                        let plain = byte_slice(text, last, start);
                        spans.push((plain, false));
                    }
                    let hit = byte_slice(text, start, end);
                    spans.push((hit, true));
                    proof {
                        let pre = if start > last {
                            seq![(tb@.subrange(last as int, start as int), false)]
                        } else {
                            Seq::empty()
                        };
                        assert(segment_bytes(spans@) =~= before + pre + seq![(tb@.subrange(start as int, end as int), true)]);
                    }
                    last = end;
                    sf = end;
                }
            },
        }
    }
    if last < tb.len() {
        let tail = byte_slice(text, last, tb.len());
        proof {
            assert(tb@.subrange(last as int, tb@.len() as int) == encode_utf8(tail@));
        }
        let ghost before = segment_bytes(spans@);
        spans.push((tail, false));
        assert(segment_bytes(spans@) =~= before + rest_segment(tb@, last as int));
    } else {
        assert(segment_bytes(spans@) + rest_segment(tb@, last as int) =~= segment_bytes(spans@));
    }
    if spans.len() == 0 {
        spans.push((String::from_str(text), false));
        assert(segment_bytes(spans@) =~= seq![(tb@, false)]);
    }
    spans
}

} // verus!

verus! {

/// Whether `highlight_text_spans` can highlight `query` in `text` (the search never
/// resumes inside a character of the lowercase text).
pub fn highlight_is_safe(text: &str, query: &str) -> (b: bool)
    ensures
        b == highlight_safe(text@, query@),
{
    if query.is_empty() {
        return true;
    }
    let tl = to_lowercase(text);
    let ql = to_lowercase(query);
    let tb = text.as_bytes();
    let lower = tl.as_str();
    let l = lower.as_bytes();
    let q = ql.as_str().as_bytes();
    let mut last: usize = 0;
    let mut sf: usize = 0;
    loop
        invariant
            tb@ == encode_utf8(text@),
            l@ == encode_utf8(lower@),
            (tb@, l@, q@) == hl_inputs(text@, query@),
            query@.len() > 0,
            highlight_safe(text@, query@) == highlight_safe_from(tb@, l@, q@, last as int, sf as int),
            sf <= l@.len(),
        decreases l@.len() - sf,
    {
        if q.len() == 0 || sf >= l.len() {
            return true;
        }
        if !lower.is_char_boundary(sf) {
            return false;
        }
        let found = find_bytes(l, q, sf);
        proof {
            lemma_first_occurrence(l@, q@, sf as int);
        }
        match found {
            None => {
                return true;
            },
            Some(start) => {
                let end = start + q.len();
                if !text.is_char_boundary(start) || !text.is_char_boundary(end) {
                    sf = sf + 1;
                } else {
                    last = end;
                    sf = end;
                }
            },
        }
    }
}

/// `s` cut into pieces of `w` characters (the last one shorter).
pub open spec fn wrap_chunks(s: Seq<char>, w: nat) -> Seq<Seq<char>>
    decreases s.len(),
{
    if w == 0 || s.len() <= w {
        seq![s]
    } else {
        seq![s.take(w as int)] + wrap_chunks(s.skip(w as int), w)
    }
}

/// The lines of a message wrapped at `w` characters, each cut into plain and
/// highlighted segments (as bytes); an empty message is one empty line.
pub open spec fn wrapped_segments(text: Seq<char>, w: nat, query: Seq<char>) -> Seq<Seq<(Seq<u8>, bool)>> {
    if text.len() == 0 {
        seq![seq![(Seq::<u8>::empty(), false)]]
    } else {
        wrap_chunks(text, w).map_values(|c: Seq<char>| highlight_segments(c, query))
    }
}

/// Each wrapped line of `text` can be highlighted for `query`.
pub open spec fn wrap_safe(text: Seq<char>, w: nat, query: Seq<char>) -> bool {
    text.len() > 0 ==> forall|i: int| 0 <= i < wrap_chunks(text, w).len() ==> highlight_safe(
        #[trigger] wrap_chunks(text, w)[i],
        query,
    )
}

/// The lines as bytes.
pub open spec fn lines_bytes(v: Seq<Vec<(String, bool)>>) -> Seq<Seq<(Seq<u8>, bool)>> {
    v.map_values(|l: Vec<(String, bool)>| segment_bytes(l@))
}

/// Wraps `text` into lines of `width` characters, with the search query highlighted.
pub fn wrap_and_highlight(text: &str, width: usize, query: &str) -> (lines: Vec<Vec<(String, bool)>>)
    requires
        text@.len() > 0 ==> width > 0,
        wrap_safe(text@, width as nat, query@),
    ensures
        lines_bytes(lines@) == wrapped_segments(text@, width as nat, query@),
{
    let cs = chars_of(text);
    let n = cs.len();
    let mut lines: Vec<Vec<(String, bool)>> = Vec::new();
    if n == 0 {
        let empty_line = vec![(String::new(), false)];
        lines.push(empty_line);
        proof {
            assert(encode_utf8(Seq::<char>::empty()) =~= Seq::<u8>::empty());
            assert(segment_bytes(empty_line@) =~= seq![(Seq::<u8>::empty(), false)]);
            assert(lines_bytes(lines@) =~= wrapped_segments(text@, width as nat, query@));
        }
        return lines;
    }
    let ghost all = wrap_chunks(text@, width as nat);
    let mut offset: usize = 0;
    assert(cs@.skip(0) =~= cs@);
    loop
        invariant
            cs@ == text@,
            n == cs@.len(),
            n > 0,
            width > 0,
            offset < n,
            all == wrap_chunks(text@, width as nat),
            wrap_safe(text@, width as nat, query@),
            lines@.len() <= all.len(),
            all == all.take(lines@.len() as int) + wrap_chunks(cs@.skip(offset as int), width as nat),
            lines_bytes(lines@) == all.take(lines@.len() as int).map_values(|c: Seq<char>| highlight_segments(c, query@)),
        decreases n - offset,
    {
        let rest_len = n - offset;
        let end = if rest_len <= width { n } else { offset + width };
        let chunk = string_from_range(cs.as_slice(), offset, end);
        let ghost k = lines@.len() as int;
        proof {
            let rest = cs@.skip(offset as int);
            let wc = wrap_chunks(rest, width as nat);
            if rest.len() > width {
                assert(rest.take(width as int) =~= cs@.subrange(offset as int, end as int));
                assert(rest.skip(width as int) =~= cs@.skip(end as int));
                assert(wc == seq![rest.take(width as int)] + wrap_chunks(rest.skip(width as int), width as nat));
            } else {
                assert(rest =~= cs@.subrange(offset as int, end as int));
                assert(wc == seq![rest]);
            }
            assert(wc[0] == chunk@);
            assert(all[k] == wc[0]);
            assert(highlight_safe(all[k], query@));
        }
        let line = highlight_text_spans(chunk.as_str(), query);
        let ghost before = lines_bytes(lines@);
        lines.push(line);
        proof {
            assert(lines_bytes(lines@) =~= before.push(segment_bytes(line@)));
            assert(all.take(k + 1) =~= all.take(k).push(all[k]));
            assert(lines_bytes(lines@) =~= all.take(k + 1).map_values(|c: Seq<char>| highlight_segments(c, query@)));
        }
        proof {
            let rest = cs@.skip(offset as int);
            let wc = wrap_chunks(rest, width as nat);
            if end < n {
                assert(wc =~= seq![chunk@] + wrap_chunks(cs@.skip(end as int), width as nat));
                assert(all =~= all.take(k + 1) + wrap_chunks(cs@.skip(end as int), width as nat));
            } else {
                assert(wc.len() == 1);
                assert(all.take(k + 1) =~= all);
            }
        }
        if end == n {
            return lines;
        }
        offset = end;
    }
}

} // verus!

verus! {

/// Whether each wrapped line of `text` can be highlighted for `query`.
pub fn wrap_is_safe(text: &str, width: usize, query: &str) -> (b: bool)
    requires
        text@.len() > 0 ==> width > 0,
    ensures
        b == wrap_safe(text@, width as nat, query@),
{
    let cs = chars_of(text);
    let n = cs.len();
    if n == 0 {
        return true;
    }
    let ghost all = wrap_chunks(text@, width as nat);
    let mut offset: usize = 0;
    let mut k: usize = 0;
    assert(cs@.skip(0) =~= cs@);
    assert(all =~= all.take(0) + wrap_chunks(cs@.skip(0), width as nat));
    loop
        invariant
            cs@ == text@,
            n == cs@.len(),
            n > 0,
            width > 0,
            offset < n,
            all == wrap_chunks(text@, width as nat),
            k <= all.len(),
            k <= offset,
            all == all.take(k as int) + wrap_chunks(cs@.skip(offset as int), width as nat),
            forall|i: int| 0 <= i < k ==> highlight_safe(#[trigger] all[i], query@),
        decreases n - offset,
    {
        let rest_len = n - offset;
        let end = if rest_len <= width { n } else { offset + width };
        let chunk = string_from_range(cs.as_slice(), offset, end);
        proof {
            let rest = cs@.skip(offset as int);
            let wc = wrap_chunks(rest, width as nat);
            if rest.len() > width {
                assert(rest.take(width as int) =~= cs@.subrange(offset as int, end as int));
                assert(rest.skip(width as int) =~= cs@.skip(end as int));
                assert(wc == seq![rest.take(width as int)] + wrap_chunks(rest.skip(width as int), width as nat));
                assert(wc =~= seq![chunk@] + wrap_chunks(cs@.skip(end as int), width as nat));
                assert(all =~= all.take(k + 1) + wrap_chunks(cs@.skip(end as int), width as nat));
            } else {
                assert(rest =~= cs@.subrange(offset as int, end as int));
                assert(wc == seq![rest]);
                assert(all.take(k + 1) =~= all);
            }
            assert(all[k as int] == wc[0]);
        }
        if !highlight_is_safe(chunk.as_str(), query) {
            return false;
        }
        if end == n {
            return true;
        }
        offset = end;
        k = k + 1;
    }
}

} // verus!

verus! {

/// The lowercase query `q` occurs at byte `x` of the lowercase text `l`, and `x` and
/// the end of the occurrence are character boundaries of the text `tb`.
pub open spec fn hit_at(tb: Seq<u8>, l: Seq<u8>, q: Seq<u8>, x: int) -> bool {
    &&& 0 <= x
    &&& x + q.len() <= l.len()
    &&& l.subrange(x, x + q.len()) == q
    &&& is_char_boundary(tb, x)
    &&& is_char_boundary(tb, x + q.len())
}

/// The bytes of the segments, one after the other.
pub open spec fn seg_join(s: Seq<(Seq<u8>, bool)>) -> Seq<u8>
    decreases s.len(),
{
    if s.len() == 0 {
        Seq::empty()
    } else {
        s[0].0 + seg_join(s.drop_first())
    }
}

/// The byte offset at which segment `k` starts, counted from the first segment.
pub open spec fn seg_start(s: Seq<(Seq<u8>, bool)>, k: int) -> int {
    seg_join(s.take(k)).len() as int
}

/// The segments `s` highlight the text `tb` from byte `base` on: they join back into
/// that text, none is empty, each highlighted one is an occurrence of the query (on
/// character boundaries), and every such occurrence starts inside a highlighted one.
/// Since highlighted segments do not overlap, they are the leftmost non-overlapping
/// occurrences.
pub open spec fn highlights_ok(s: Seq<(Seq<u8>, bool)>, tb: Seq<u8>, l: Seq<u8>, q: Seq<u8>, base: int) -> bool {
    &&& seg_join(s) == tb.subrange(base, tb.len() as int)
    &&& forall|k: int| 0 <= k < s.len() ==> (#[trigger] s[k]).0.len() > 0
    &&& forall|k: int|
        0 <= k < s.len() && (#[trigger] s[k]).1 ==> s[k].0.len() == q.len() && hit_at(tb, l, q, base + seg_start(s, k))
    &&& forall|x: int|
        base <= x && #[trigger] hit_at(tb, l, q, x) ==> exists|k: int|
            0 <= k < s.len() && (#[trigger] s[k]).1 && base + seg_start(s, k) <= x < base + seg_start(s, k) + q.len()
}

/// Joining two lists of segments joins their bytes.
proof fn lemma_seg_join_add(a: Seq<(Seq<u8>, bool)>, b: Seq<(Seq<u8>, bool)>)
    ensures
        seg_join(a + b) == seg_join(a) + seg_join(b),
    decreases a.len(),
{
    if a.len() == 0 {
        assert(a + b =~= b);
        assert(seg_join(a) + seg_join(b) =~= seg_join(b));
    } else {
        assert((a + b).drop_first() =~= a.drop_first() + b);
        lemma_seg_join_add(a.drop_first(), b);
        assert(seg_join(a) + seg_join(b) =~= a[0].0 + (seg_join(a.drop_first()) + seg_join(b)));
    }
}

/// Where the segments of `a + b` start.
proof fn lemma_seg_start_add(a: Seq<(Seq<u8>, bool)>, b: Seq<(Seq<u8>, bool)>, k: int)
    requires
        0 <= k <= a.len() + b.len(),
    ensures
        seg_start(a + b, k) == if k < a.len() {
            seg_start(a, k)
        } else {
            seg_join(a).len() + seg_start(b, k - a.len())
        },
{
    if k < a.len() {
        assert((a + b).take(k) =~= a.take(k));
    } else {
        assert((a + b).take(k) =~= a + b.take(k - a.len()));
        lemma_seg_join_add(a, b.take(k - a.len()));
    }
}

/// The query occurs in `l` at byte `y`.
pub open spec fn occurs_at_byte(l: Seq<u8>, q: Seq<u8>, y: int) -> bool {
    0 <= y && y + q.len() <= l.len() && l.subrange(y, y + q.len()) == q
}

/// `first_occurrence` finds the first occurrence at or after `from`.
proof fn lemma_first_occurrence_first(l: Seq<u8>, q: Seq<u8>, from: int)
    requires
        0 <= from,
    ensures
        match first_occurrence(l, q, from) {
            Some(s) => from <= s && occurs_at_byte(l, q, s) && forall|y: int|
                from <= y < s ==> !occurs_at_byte(l, q, y),
            None => forall|y: int| from <= y ==> !occurs_at_byte(l, q, y),
        },
    decreases l.len() - from,
{
    if !(from + q.len() > l.len()) && l.subrange(from, from + q.len()) != q {
        if q.len() == 0 {
            assert(l.subrange(from, from + q.len()) =~= q);
        }
        lemma_first_occurrence_first(l, q, from + 1);
    }
}

/// The segments that `highlight_from` gives from a state with no occurrence left
/// behind are as `highlights_ok` says.
proof fn lemma_highlight_from(tb: Seq<u8>, l: Seq<u8>, q: Seq<u8>, last: int, from: int)
    requires
        valid_utf8(tb),
        q.len() > 0,
        0 <= last <= from,
        last <= tb.len(),
        is_char_boundary(tb, last),
        forall|x: int| last <= x < from ==> !#[trigger] hit_at(tb, l, q, x),
    ensures
        highlights_ok(highlight_from(tb, l, q, last, from), tb, l, q, last),
    decreases l.len() - from,
{
    let s = highlight_from(tb, l, q, last, from);
    lemma_first_occurrence_first(l, q, from);
    if from >= l.len() || first_occurrence(l, q, from) is None {
        assert(s == rest_segment(tb, last));
        if last < tb.len() {
            assert(seg_join(s) =~= tb.subrange(last, tb.len() as int) + seg_join(s.drop_first()));
            assert(seg_join(s) =~= tb.subrange(last, tb.len() as int));
        } else {
            assert(seg_join(s) =~= tb.subrange(last, tb.len() as int));
        }
        assert forall|x: int| last <= x && #[trigger] hit_at(tb, l, q, x) implies false by {
            if x >= from {
                assert(occurs_at_byte(l, q, x));
            }
        }
    } else {
        let start = first_occurrence(l, q, from)->0;
        let end = start + q.len();
        if !(is_char_boundary(tb, start) && is_char_boundary(tb, end)) {
            assert forall|x: int| last <= x < from + 1 implies !#[trigger] hit_at(tb, l, q, x) by {
                if x == from && hit_at(tb, l, q, x) {
                    assert(occurs_at_byte(l, q, x));
                }
            }
            lemma_highlight_from(tb, l, q, last, from + 1);
        } else {
            lemma_boundary_in_range(tb, end);
            lemma_highlight_from(tb, l, q, end, end);
            assert forall|x: int| last <= x < start implies !#[trigger] hit_at(tb, l, q, x) by {
                if x >= from && hit_at(tb, l, q, x) {
                    assert(occurs_at_byte(l, q, x));
                }
            }
            lemma_highlight_step(tb, l, q, last, start, highlight_from(tb, l, q, end, end));
        }
    }
}

/// The segment before an occurrence, the occurrence, then what follows.
pub open spec fn step_segments(tb: Seq<u8>, last: int, start: int, end: int, r: Seq<(Seq<u8>, bool)>) -> Seq<(Seq<u8>, bool)> {
    (if start > last {
        seq![(tb.subrange(last, start), false)]
    } else {
        Seq::empty()
    }) + seq![(tb.subrange(start, end), true)] + r
}

/// The segment before an occurrence, and the occurrence.
pub open spec fn step_head(tb: Seq<u8>, last: int, start: int, end: int) -> Seq<(Seq<u8>, bool)> {
    (if start > last {
        seq![(tb.subrange(last, start), false)]
    } else {
        Seq::empty()
    }) + seq![(tb.subrange(start, end), true)]
}

/// The bytes and offsets of the head of a step.
proof fn lemma_step_head(tb: Seq<u8>, last: int, start: int, end: int)
    requires
        0 <= last <= start <= end <= tb.len(),
    ensures
        seg_join(step_head(tb, last, start, end)) == tb.subrange(last, end),
        step_head(tb, last, start, end).len() >= 1,
        seg_start(step_head(tb, last, start, end), step_head(tb, last, start, end).len() - 1) == start - last,
        step_head(tb, last, start, end).last() == (tb.subrange(start, end), true),
        forall|k: int| 0 <= k < step_head(tb, last, start, end).len() - 1 ==> {
            &&& !(#[trigger] step_head(tb, last, start, end)[k]).1
            &&& step_head(tb, last, start, end)[k].0.len() > 0
        },
{
    let pre: Seq<(Seq<u8>, bool)> = if start > last {
        seq![(tb.subrange(last, start), false)]
    } else {
        Seq::empty()
    };
    let hit: (Seq<u8>, bool) = (tb.subrange(start, end), true);
    let a = step_head(tb, last, start, end);
    assert(a == pre + seq![hit]);
    assert(seg_join(pre) =~= tb.subrange(last, start)) by {
        if start > last {
            assert(seg_join(pre) =~= tb.subrange(last, start) + seg_join(pre.drop_first()));
        }
    }
    assert(seg_join(seq![hit]) =~= tb.subrange(start, end)) by {
        assert(seg_join(seq![hit]) =~= hit.0 + seg_join(seq![hit].drop_first()));
    }
    lemma_seg_join_add(pre, seq![hit]);
    assert(seg_join(a) =~= tb.subrange(last, end));
    assert(a.take(a.len() - 1) =~= pre);
}

/// The highlighted segments of a step are occurrences.
proof fn lemma_step_hits(tb: Seq<u8>, l: Seq<u8>, q: Seq<u8>, last: int, start: int, r: Seq<(Seq<u8>, bool)>, k: int)
    requires
        q.len() > 0,
        0 <= last <= start,
        hit_at(tb, l, q, start),
        start + q.len() <= tb.len(),
        forall|j: int|
            0 <= j < r.len() && (#[trigger] r[j]).1 ==> r[j].0.len() == q.len() && hit_at(
                tb,
                l,
                q,
                start + q.len() + seg_start(r, j),
            ),
        0 <= k < step_segments(tb, last, start, start + q.len(), r).len(),
        step_segments(tb, last, start, start + q.len(), r)[k].1,
    ensures
        step_segments(tb, last, start, start + q.len(), r)[k].0.len() == q.len(),
        hit_at(tb, l, q, last + seg_start(step_segments(tb, last, start, start + q.len(), r), k)),
{
    let end = start + q.len();
    let s = step_segments(tb, last, start, end, r);
    let a = step_head(tb, last, start, end);
    assert(s == a + r);
    lemma_step_head(tb, last, start, end);
    lemma_seg_start_add(a, r, k);
    assert(seg_start(s, k) == seg_start(a + r, k));
    if k < a.len() {
        assert(s[k] == a[k]);
        if k < a.len() - 1 {
            assert(!a[k].1);
        }
        assert(k == a.len() - 1);
        assert(a[k] == a.last());
        assert(seg_start(s, k) == start - last);
    } else {
        let k2 = k - a.len();
        assert(s[k] == r[k2]);
        assert(r[k2].1);
        assert(seg_join(a).len() == end - last);
        assert(seg_start(s, k) == end - last + seg_start(r, k2));
        assert(hit_at(tb, l, q, end + seg_start(r, k2)));
    }
}

/// Every occurrence after the start of a step starts inside one of its highlighted
/// segments.
proof fn lemma_step_cover(tb: Seq<u8>, l: Seq<u8>, q: Seq<u8>, last: int, start: int, r: Seq<(Seq<u8>, bool)>, x: int)
    requires
        q.len() > 0,
        0 <= last <= start <= x,
        start + q.len() <= tb.len(),
        x >= start + q.len() ==> exists|j: int|
            0 <= j < r.len() && (#[trigger] r[j]).1 && start + q.len() + seg_start(r, j) <= x < start + q.len()
                + seg_start(r, j) + q.len(),
    ensures
        exists|k: int|
            0 <= k < step_segments(tb, last, start, start + q.len(), r).len() && (#[trigger] step_segments(
                tb,
                last,
                start,
                start + q.len(),
                r,
            )[k]).1 && last + seg_start(step_segments(tb, last, start, start + q.len(), r), k) <= x < last
                + seg_start(step_segments(tb, last, start, start + q.len(), r), k) + q.len(),
{
    let end = start + q.len();
    let s = step_segments(tb, last, start, end, r);
    let a = step_head(tb, last, start, end);
    assert(s == a + r);
    lemma_step_head(tb, last, start, end);
    if x < end {
        let k = a.len() - 1;
        lemma_seg_start_add(a, r, k);
        assert(s[k] == a[k]);
        assert(a[k] == a.last());
    } else {
        let k2 = choose|j: int|
            0 <= j < r.len() && (#[trigger] r[j]).1 && end + seg_start(r, j) <= x < end + seg_start(r, j) + q.len();
        let k = a.len() + k2;
        lemma_seg_start_add(a, r, k);
        assert(s[k] == r[k2]);
    }
}

/// Highlighting one occurrence, with no occurrence before it, keeps `highlights_ok`.
proof fn lemma_highlight_step(tb: Seq<u8>, l: Seq<u8>, q: Seq<u8>, last: int, start: int, r: Seq<(Seq<u8>, bool)>)
    requires
        valid_utf8(tb),
        q.len() > 0,
        0 <= last <= start,
        hit_at(tb, l, q, start),
        start + q.len() <= tb.len(),
        highlights_ok(r, tb, l, q, start + q.len()),
        forall|x: int| last <= x < start ==> !#[trigger] hit_at(tb, l, q, x),
    ensures
        highlights_ok(step_segments(tb, last, start, start + q.len(), r), tb, l, q, last),
{
    let end = start + q.len();
    let s = step_segments(tb, last, start, end, r);
    let a = step_head(tb, last, start, end);
    assert(s == a + r);
    lemma_step_head(tb, last, start, end);
    lemma_seg_join_add(a, r);
    assert(seg_join(s) =~= tb.subrange(last, tb.len() as int));
    assert forall|k: int| 0 <= k < s.len() implies (#[trigger] s[k]).0.len() > 0 by {
        if k >= a.len() {
            assert(s[k] == r[k - a.len()]);
        } else {
            assert(s[k] == a[k]);
        }
    }
    assert forall|k: int| 0 <= k < s.len() && (#[trigger] s[k]).1 implies s[k].0.len() == q.len() && hit_at(
        tb,
        l,
        q,
        last + seg_start(s, k),
    ) by {
        lemma_step_hits(tb, l, q, last, start, r, k);
    }
    assert forall|x: int| last <= x && #[trigger] hit_at(tb, l, q, x) implies exists|k: int|
        0 <= k < s.len() && (#[trigger] s[k]).1 && last + seg_start(s, k) <= x < last + seg_start(s, k) + q.len() by {
        lemma_step_cover(tb, l, q, last, start, r, x);
    }
}

/// The highlighting of a text: its segments join back into the text, none is empty,
/// the highlighted ones are occurrences of the lowercase query in the lowercase text
/// at character boundaries of the text, and every such occurrence starts inside a
/// highlighted segment (so they are the leftmost non-overlapping ones).
pub proof fn law_highlight_segments(tb: Seq<u8>, l: Seq<u8>, q: Seq<u8>)
    requires
        valid_utf8(tb),
        q.len() > 0,
    ensures
        highlights_ok(highlight_from(tb, l, q, 0, 0), tb, l, q, 0),
{
    is_char_boundary_start_end_of_seq(tb);
    lemma_highlight_from(tb, l, q, 0, 0);
}

} // verus!
