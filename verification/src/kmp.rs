//! Knuth–Morris–Pratt substring search over bytes.

use vstd::prelude::*;

verus! {

/// The `j` bytes of `p` that start it end `t` at position `i`:
/// `p[0..j] == t[i-j..i]`.
pub open spec fn suffix_match(p: Seq<u8>, t: Seq<u8>, i: int, j: int) -> bool {
    &&& 0 <= j <= i
    &&& i <= t.len()
    &&& j <= p.len()
    &&& p.subrange(0, j) == t.subrange(i - j, i)
}

/// `p` occurs as a contiguous block of `t`.
pub open spec fn occurs_in(p: Seq<u8>, t: Seq<u8>) -> bool {
    exists|s: int| 0 <= s && s + p.len() <= t.len() && #[trigger] t.subrange(s, s + p.len()) == p
}

/// `f` is the failure table of `p`: for every non-empty prefix `p[0..l]`,
/// `f[l-1]` is the length of its longest proper border.
pub open spec fn is_failure_table(p: Seq<u8>, f: Seq<usize>) -> bool {
    &&& f.len() == if p.len() == 0 { 1 } else { p.len() }
    &&& forall|l: int| 1 <= l <= p.len() ==> #[trigger] is_longest_border(p, l, f[l - 1] as int)
}

/// `b` is the length of the longest proper border of `p[0..l]`.
pub open spec fn is_longest_border(p: Seq<u8>, l: int, b: int) -> bool {
    &&& 0 <= b < l
    &&& suffix_match(p, p, l, b)
    &&& forall|j: int| b < j < l ==> !#[trigger] suffix_match(p, p, l, j)
}

/// Two prefixes of `p` that both end `t` at `i`: the shorter is a border of the longer.
pub proof fn lemma_shorter_is_border(p: Seq<u8>, t: Seq<u8>, i: int, k: int, j: int)
    requires
        suffix_match(p, t, i, k),
        suffix_match(p, t, i, j),
        j <= k,
    ensures
        suffix_match(p, p, k, j),
{
    assert forall|x: int| 0 <= x < j implies p.subrange(0, j)[x] == p.subrange(k - j, k)[x] by {
        assert(p.subrange(0, j)[x] == t.subrange(i - j, i)[x]);
        assert(t[i - j + x] == t.subrange(i - k, i)[k - j + x]);
        assert(t.subrange(i - k, i)[k - j + x] == p.subrange(0, k)[k - j + x]);
    }
    assert(p.subrange(0, j) =~= p.subrange(k - j, k));
}

/// A border of a prefix that ends `t` at `i` also ends `t` at `i`.
pub proof fn lemma_border_chain(p: Seq<u8>, t: Seq<u8>, i: int, k: int, j: int)
    requires
        suffix_match(p, t, i, k),
        suffix_match(p, p, k, j),
    ensures
        suffix_match(p, t, i, j),
{
    assert forall|x: int| 0 <= x < j implies p.subrange(0, j)[x] == t.subrange(i - j, i)[x] by {
        assert(p.subrange(0, j)[x] == p.subrange(k - j, k)[x]);
        assert(p[k - j + x] == p.subrange(0, k)[k - j + x]);
        assert(p.subrange(0, k)[k - j + x] == t.subrange(i - k, i)[k - j + x]);
    }
    assert(p.subrange(0, j) =~= t.subrange(i - j, i));
}

/// A match of `j >= 1` bytes ending at `i + 1` is a match of `j - 1` bytes ending at `i`
/// followed by the byte `t[i]`, and conversely.
pub proof fn lemma_extend(p: Seq<u8>, t: Seq<u8>, i: int, j: int)
    requires
        1 <= j <= p.len(),
        0 <= i < t.len(),
    ensures
        suffix_match(p, t, i + 1, j) <==> (suffix_match(p, t, i, j - 1) && p[j - 1] == t[i]),
{
    if suffix_match(p, t, i + 1, j) {
        assert(p[j - 1] == p.subrange(0, j)[j - 1]);
        assert(p.subrange(0, j - 1) =~= p.subrange(0, j).subrange(0, j - 1));
        assert(t.subrange(i - (j - 1), i) =~= t.subrange(i + 1 - j, i + 1).subrange(0, j - 1));
    }
    if suffix_match(p, t, i, j - 1) && p[j - 1] == t[i] {
        assert(p.subrange(0, j) =~= p.subrange(0, j - 1).push(p[j - 1]));
        assert(t.subrange(i + 1 - j, i + 1) =~= t.subrange(i - (j - 1), i).push(t[i]));
    }
}

/// A full match ending somewhere is an occurrence, and conversely.
pub proof fn lemma_occurs_iff_full_match(p: Seq<u8>, t: Seq<u8>)
    ensures
        occurs_in(p, t) <==> exists|i: int| 0 <= i <= t.len() && #[trigger] suffix_match(p, t, i, p.len() as int),
{
    if occurs_in(p, t) {
        let s = choose|s: int| 0 <= s && s + p.len() <= t.len() && #[trigger] t.subrange(s, s + p.len()) == p;
        assert(p.subrange(0, p.len() as int) =~= p);
        assert(suffix_match(p, t, s + p.len(), p.len() as int));
    }
    if exists|i: int| 0 <= i <= t.len() && #[trigger] suffix_match(p, t, i, p.len() as int) {
        let i = choose|i: int| 0 <= i <= t.len() && #[trigger] suffix_match(p, t, i, p.len() as int);
        assert(p.subrange(0, p.len() as int) =~= p);
        assert(t.subrange(i - p.len(), (i - p.len()) + p.len()) == p);
    }
}

/// Computes the failure table of `p`.
pub fn failure_table(p: &[u8]) -> (f: Vec<usize>)
    ensures
        is_failure_table(p@, f@),
{
    let m = p.len();
    let mut f: Vec<usize> = Vec::new();
    f.push(0);
    proof {
        if m >= 1 {
            assert(p@.subrange(0, 0) =~= p@.subrange(1, 1));
            assert(is_longest_border(p@, 1, 0));
        }
    }
    if m > 1 {
        let mut k: usize = 0;
        let mut i: usize = 1;
        while i < m
            invariant
                1 <= i <= m,
                m == p@.len(),
                f@.len() == i,
                forall|l: int| 1 <= l <= i ==> #[trigger] is_longest_border(p@, l, f@[l - 1] as int),
                k == f@[i - 1],
            decreases m - i,
        {
            let ghost k0 = k;
            assert(is_longest_border(p@, i as int, k as int));
            while k > 0 && p[k] != p[i]
                invariant
                    1 <= i < m,
                    m == p@.len(),
                    f@.len() == i,
                    forall|l: int| 1 <= l <= i ==> #[trigger] is_longest_border(p@, l, f@[l - 1] as int),
                    is_longest_border(p@, i as int, k0 as int),
                    k <= k0,
                    suffix_match(p@, p@, i as int, k as int),
                    forall|j: int| k < j <= k0 ==> !(#[trigger] suffix_match(p@, p@, i as int, j) && p@[j] == p@[i as int]),
                decreases k,
            {
                let nk = f[k - 1];
                proof {
                    assert(is_longest_border(p@, k as int, nk as int));
                    lemma_border_chain(p@, p@, i as int, k as int, nk as int);
                    assert forall|j: int| nk < j <= k0 implies !(#[trigger] suffix_match(p@, p@, i as int, j) && p@[j] == p@[i as int]) by {
                        if nk < j < k && suffix_match(p@, p@, i as int, j) {
                            lemma_shorter_is_border(p@, p@, i as int, k as int, j);
                        }
                    }
                }
                k = nk;
            }
            if p[k] == p[i] {
                k = k + 1;
            }
            proof {
                if k >= 1 {
                    lemma_extend(p@, p@, i as int, k as int);
                }
                assert forall|j: int| k < j < i + 1 implies !#[trigger] suffix_match(p@, p@, i + 1, j) by {
                    lemma_extend(p@, p@, i as int, j);
                    if suffix_match(p@, p@, i + 1, j) {
                        assert(suffix_match(p@, p@, i as int, j - 1) && p@[j - 1] == p@[i as int]);
                    }
                }
                if k == 0 {
                    assert(p@.subrange(0, 0) =~= p@.subrange(i + 1, i + 1));
                }
            }
            f.push(k);
            i = i + 1;
        }
    }
    f
}

/// Decides whether the non-empty pattern `p`, with failure table `f`, occurs in `t`.
pub fn kmp_occurs(p: &[u8], f: &[usize], t: &[u8]) -> (found: bool)
    requires
        p@.len() > 0,
        is_failure_table(p@, f@),
    ensures
        found == occurs_in(p@, t@),
{
    let n = t.len();
    let m = p.len();
    proof {
        lemma_occurs_iff_full_match(p@, t@);
    }
    if m > n {
        proof {
            assert forall|i: int| 0 <= i <= t@.len() implies !#[trigger] suffix_match(p@, t@, i, m as int) by {}
        }
        return false;
    }
    let mut k: usize = 0;
    let mut i: usize = 0;
    assert(p@.subrange(0, 0) =~= t@.subrange(0, 0));
    while i < n
        invariant
            n == t@.len(),
            m == p@.len(),
            0 < m <= n,
            is_failure_table(p@, f@),
            i <= n,
            k < m,
            suffix_match(p@, t@, i as int, k as int),
            forall|j: int| k < j <= m ==> !#[trigger] suffix_match(p@, t@, i as int, j),
            forall|i2: int| 0 <= i2 <= i ==> !#[trigger] suffix_match(p@, t@, i2, m as int),
            occurs_in(p@, t@) <==> exists|i3: int| 0 <= i3 <= t@.len() && #[trigger] suffix_match(p@, t@, i3, m as int),
        decreases n - i,
    {
        let ghost k0 = k;
        while k > 0 && p[k] != t[i]
            invariant
                n == t@.len(),
                m == p@.len(),
                i < n,
                is_failure_table(p@, f@),
                k <= k0 < m,
                suffix_match(p@, t@, i as int, k as int),
                forall|j: int| k < j <= k0 ==> !(#[trigger] suffix_match(p@, t@, i as int, j) && p@[j] == t@[i as int]),
            decreases k,
        {
            let nk = f[k - 1];
            proof {
                assert(is_longest_border(p@, k as int, nk as int));
                lemma_border_chain(p@, t@, i as int, k as int, nk as int);
                assert forall|j: int| nk < j <= k0 implies !(#[trigger] suffix_match(p@, t@, i as int, j) && p@[j] == t@[i as int]) by {
                    if nk < j < k && suffix_match(p@, t@, i as int, j) {
                        lemma_shorter_is_border(p@, t@, i as int, k as int, j);
                    }
                }
            }
            k = nk;
        }
        if p[k] == t[i] {
            k = k + 1;
        }
        proof {
            if k >= 1 {
                lemma_extend(p@, t@, i as int, k as int);
            }
            assert forall|j: int| k < j <= m implies !#[trigger] suffix_match(p@, t@, i + 1, j) by {
                lemma_extend(p@, t@, i as int, j);
                if suffix_match(p@, t@, i + 1, j) {
                    assert(suffix_match(p@, t@, i as int, j - 1) && p@[j - 1] == t@[i as int]);
                }
            }
            if k == 0 {
                assert(p@.subrange(0, 0) =~= t@.subrange(i + 1, i + 1));
            }
        }
        if k == m {
            return true;
        }
        i = i + 1;
    }
    false
}

} // verus!
