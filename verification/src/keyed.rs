//! Lists of `(key, value)` pairs kept in key order, as `sort_by` on the key leaves them.

use vstd::prelude::*;
use crate::text::chars_of;

verus! {

/// `a <= b` in the order of `str` (lexicographic by code point, which is the
/// byte order of their UTF-8 encodings).
pub open spec fn key_le(a: Seq<char>, b: Seq<char>) -> bool
    decreases a.len(),
{
    if a.len() == 0 {
        true
    } else if b.len() == 0 {
        false
    } else if a[0] != b[0] {
        (a[0] as u32) < (b[0] as u32)
    } else {
        key_le(a.drop_first(), b.drop_first())
    }
}

/// Any two keys are ordered one way or the other.
pub proof fn lemma_key_le_total(a: Seq<char>, b: Seq<char>)
    ensures
        key_le(a, b) || key_le(b, a),
    decreases a.len(),
{
    if a.len() > 0 && b.len() > 0 {
        if a[0] == b[0] {
            lemma_key_le_total(a.drop_first(), b.drop_first());
        } else if (a[0] as u32) == (b[0] as u32) {
            vstd::utf8::char_u32_cast(a[0], a[0] as u32);
            vstd::utf8::char_u32_cast(b[0], b[0] as u32);
        }
    }
}

/// The key order is transitive.
pub proof fn lemma_key_le_trans(a: Seq<char>, b: Seq<char>, c: Seq<char>)
    requires
        key_le(a, b),
        key_le(b, c),
    ensures
        key_le(a, c),
    decreases a.len(),
{
    if a.len() > 0 && b.len() > 0 && c.len() > 0 && a[0] == b[0] && b[0] == c[0] {
        lemma_key_le_trans(a.drop_first(), b.drop_first(), c.drop_first());
    }
}

/// The key order is reflexive.
pub proof fn lemma_key_le_refl(a: Seq<char>)
    ensures
        key_le(a, a),
    decreases a.len(),
{
    if a.len() > 0 {
        lemma_key_le_refl(a.drop_first());
    }
}

/// Compares two keys.
pub fn key_le_exec(a: &String, b: &String) -> (r: bool)
    ensures
        r == key_le(a@, b@),
{
    let ac = chars_of(a.as_str());
    let bc = chars_of(b.as_str());
    let mut i: usize = 0;
    assert(ac@.skip(0) =~= ac@);
    assert(bc@.skip(0) =~= bc@);
    loop
        invariant
            i <= ac@.len(),
            i <= bc@.len(),
            key_le(a@, b@) == key_le(ac@.skip(i as int), bc@.skip(i as int)),
            ac@ == a@,
            bc@ == b@,
        decreases ac@.len() - i,
    {
        if i == ac.len() {
            return true;
        }
        if i == bc.len() {
            return false;
        }
        if ac[i] != bc[i] {
            return (ac[i] as u32) < (bc[i] as u32);
        }
        assert(ac@.skip(i as int).drop_first() =~= ac@.skip(i + 1));
        assert(bc@.skip(i as int).drop_first() =~= bc@.skip(i + 1));
        i = i + 1;
    }
}

/// `x` placed into `s` after every entry whose key is at most its own, counted
/// from the end: the step of a stable insertion sort.
pub open spec fn insert_by_key<V>(s: Seq<(String, V)>, x: (String, V)) -> Seq<(String, V)>
    decreases s.len(),
{
    if s.len() == 0 {
        seq![x]
    } else if key_le(s.last().0@, x.0@) {
        s.push(x)
    } else {
        insert_by_key(s.drop_last(), x).push(s.last())
    }
}

/// `s` stably sorted by key, as `slice::sort_by(|a, b| a.0.cmp(&b.0))` leaves it.
pub open spec fn sort_by_key<V>(s: Seq<(String, V)>) -> Seq<(String, V)>
    decreases s.len(),
{
    if s.len() == 0 {
        s
    } else {
        insert_by_key(sort_by_key(s.drop_last()), s.last())
    }
}

/// The keys of `s` never decrease.
pub open spec fn sorted_by_key<V>(s: Seq<(String, V)>) -> bool {
    forall|i: int, j: int| 0 <= i <= j < s.len() ==> key_le((#[trigger] s[i]).0@, (#[trigger] s[j]).0@)
}

proof fn lemma_insert_facts<V>(s: Seq<(String, V)>, x: (String, V))
    requires
        sorted_by_key(s),
    ensures
        sorted_by_key(insert_by_key(s, x)),
        insert_by_key(s, x).to_multiset() =~= s.to_multiset().insert(x),
        insert_by_key(s, x).len() == s.len() + 1,
    decreases s.len(),
{
    broadcast use vstd::multiset::group_multiset_axioms;
    broadcast use vstd::seq_lib::group_to_multiset_ensures;
    if s.len() == 0 {
        assert(seq![x] =~= Seq::<(String, V)>::empty().push(x));
        lemma_key_le_refl(x.0@);
    } else if key_le(s.last().0@, x.0@) {
        assert forall|i: int, j: int| 0 <= i <= j < s.len() + 1 implies
            key_le((#[trigger] s.push(x)[i]).0@, (#[trigger] s.push(x)[j]).0@) by {
            if j == s.len() as int {
                if i < j {
                    lemma_key_le_trans(s[i].0@, s.last().0@, x.0@);
                } else {
                    lemma_key_le_refl(x.0@);
                }
            }
        }
    } else {
        let r = insert_by_key(s.drop_last(), x);
        assert(sorted_by_key(s.drop_last()));
        lemma_insert_facts(s.drop_last(), x);
        lemma_key_le_total(s.last().0@, x.0@);
        assert(s.drop_last().push(s.last()) =~= s);
        assert forall|i: int, j: int| 0 <= i <= j < r.len() + 1 implies
            key_le((#[trigger] r.push(s.last())[i]).0@, (#[trigger] r.push(s.last())[j]).0@) by {
            if j == r.len() as int {
                if i == j {
                    lemma_key_le_refl(s.last().0@);
                } else {
                    // r[i] is either x or an entry of s.drop_last()
                    assert(r.to_multiset().count(r[i]) > 0);
                    assert(r.contains(r[i]));
                    if r[i] == x {
                    } else {
                        assert(s.drop_last().to_multiset().count(r[i]) > 0);
                        assert(s.drop_last().contains(r[i]));
                        let k = choose|k: int| 0 <= k < s.drop_last().len() && s.drop_last()[k] == r[i];
                        assert(s[k] == r[i]);
                        assert(key_le(s[k].0@, s[s.len() - 1].0@));
                    }
                }
            }
        }
    }
}

/// Sorting by key leaves the keys in order.
pub proof fn lemma_sort_sorted<V>(s: Seq<(String, V)>)
    ensures
        sorted_by_key(sort_by_key(s)),
        sort_by_key(s).to_multiset() =~= s.to_multiset(),
        sort_by_key(s).len() == s.len(),
    decreases s.len(),
{
    broadcast use vstd::multiset::group_multiset_axioms;
    broadcast use vstd::seq_lib::group_to_multiset_ensures;
    if s.len() > 0 {
        lemma_sort_sorted(s.drop_last());
        lemma_insert_facts(sort_by_key(s.drop_last()), s.last());
        assert(s.drop_last().push(s.last()) =~= s);
    }
}

/// Inserting at position `j`, found by scanning back over larger keys, is `insert_by_key`.
proof fn lemma_insert_at<V>(s: Seq<(String, V)>, x: (String, V), j: int)
    requires
        0 <= j <= s.len(),
        forall|k: int| j <= k < s.len() ==> !key_le((#[trigger] s[k]).0@, x.0@),
        j == 0 || key_le(s[j - 1].0@, x.0@),
    ensures
        insert_by_key(s, x) == s.take(j).push(x) + s.skip(j),
    decreases s.len(),
{
    if s.len() == 0 {
        assert(s.take(j).push(x) + s.skip(j) =~= seq![x]);
    } else if j == s.len() {
        assert(s.take(j) =~= s);
        assert(s.take(j).push(x) + s.skip(j) =~= s.push(x));
    } else {
        assert(!key_le(s[s.len() - 1].0@, x.0@));
        let d = s.drop_last();
        assert forall|k: int| j <= k < d.len() implies !key_le((#[trigger] d[k]).0@, x.0@) by {
            assert(d[k] == s[k]);
        }
        if j > 0 {
            assert(d[j - 1] == s[j - 1]);
        }
        lemma_insert_at(d, x, j);
        assert(d.take(j) =~= s.take(j));
        assert(d.take(j).push(x) + d.skip(j) + seq![s.last()] =~= s.take(j).push(x) + s.skip(j));
        assert(insert_by_key(s, x) == insert_by_key(d, x).push(s.last()));
        assert((d.take(j).push(x) + d.skip(j)).push(s.last()) =~= s.take(j).push(x) + s.skip(j));
    }
}

/// Inserts `x` into `v` as `insert_by_key` does.
pub fn insert_by_key_exec<V>(v: &mut Vec<(String, V)>, x: (String, V))
    ensures
        final(v)@ == insert_by_key(old(v)@, x),
{
    let mut j: usize = v.len();
    while j > 0 && !key_le_exec(&v[j - 1].0, &x.0)
        invariant
            j <= v@.len(),
            v@ == old(v)@,
            forall|k: int| j <= k < v@.len() ==> !key_le((#[trigger] v@[k]).0@, x.0@),
        decreases j,
    {
        j = j - 1;
    }
    proof {
        lemma_insert_at(v@, x, j as int);
    }
    let ghost before = v@;
    v.insert(j, x);
    assert(v@ =~= before.take(j as int).push(x) + before.skip(j as int));
}

/// The texts of a list of string pairs.
pub open spec fn pairs_text(s: Seq<(String, String)>) -> Seq<(Seq<char>, Seq<char>)> {
    s.map_values(|p: (String, String)| (p.0@, p.1@))
}

/// `insert_by_key` on pairs of texts.
pub open spec fn insert_text_pair(s: Seq<(Seq<char>, Seq<char>)>, x: (Seq<char>, Seq<char>)) -> Seq<(Seq<char>, Seq<char>)>
    decreases s.len(),
{
    if s.len() == 0 {
        seq![x]
    } else if key_le(s.last().0, x.0) {
        s.push(x)
    } else {
        insert_text_pair(s.drop_last(), x).push(s.last())
    }
}

/// `sort_by_key` on pairs of texts.
pub open spec fn sort_text_pairs(s: Seq<(Seq<char>, Seq<char>)>) -> Seq<(Seq<char>, Seq<char>)>
    decreases s.len(),
{
    if s.len() == 0 {
        s
    } else {
        insert_text_pair(sort_text_pairs(s.drop_last()), s.last())
    }
}

proof fn lemma_insert_text(s: Seq<(String, String)>, x: (String, String))
    ensures
        pairs_text(insert_by_key(s, x)) == insert_text_pair(pairs_text(s), (x.0@, x.1@)),
    decreases s.len(),
{
    if s.len() == 0 {
        assert(pairs_text(seq![x]) =~= seq![(x.0@, x.1@)]);
    } else {
        assert(pairs_text(s).drop_last() =~= pairs_text(s.drop_last()));
        if key_le(s.last().0@, x.0@) {
            assert(pairs_text(s.push(x)) =~= pairs_text(s).push((x.0@, x.1@)));
        } else {
            lemma_insert_text(s.drop_last(), x);
            assert(pairs_text(insert_by_key(s.drop_last(), x).push(s.last()))
                =~= pairs_text(insert_by_key(s.drop_last(), x)).push((s.last().0@, s.last().1@)));
        }
    }
}

/// Sorting string pairs and taking their texts commutes.
pub proof fn lemma_sort_text(s: Seq<(String, String)>)
    ensures
        pairs_text(sort_by_key(s)) == sort_text_pairs(pairs_text(s)),
    decreases s.len(),
{
    if s.len() > 0 {
        lemma_sort_text(s.drop_last());
        lemma_insert_text(sort_by_key(s.drop_last()), s.last());
        assert(pairs_text(s).drop_last() =~= pairs_text(s.drop_last()));
    }
}

} // verus!
