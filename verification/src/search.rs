//! Case-insensitive search used by the table view.

use vstd::prelude::*;
use vstd::utf8::encode_utf8;
use crate::kmp::{failure_table, is_failure_table, kmp_occurs, occurs_in};
use crate::text::{lowercase, to_lowercase};

verus! {

/// Copies a byte slice into a vector.
fn bytes_to_vec(b: &[u8]) -> (v: Vec<u8>)
    ensures
        v@ == b@,
{
    let mut v: Vec<u8> = Vec::new();
    let mut i: usize = 0;
    while i < b.len()
        invariant
            i <= b@.len(),
            v@ == b@.take(i as int),
        decreases b.len() - i,
    {
        v.push(b[i]);
        i = i + 1;
        assert(v@ =~= b@.take(i as int));
    }
    assert(b@.take(b@.len() as int) =~= b@);
    v
}

/// The UTF-8 encoding of a text is empty exactly when the text is.
pub proof fn lemma_encode_nonempty(s: Seq<char>)
    ensures
        encode_utf8(s).len() > 0 <==> s.len() > 0,
{
}

/// Substring search, ignoring case, with a pattern prepared once.
///
/// Texts are compared by the UTF-8 bytes of their lowercase forms.
pub struct KmpSearcher {
    pattern_lower: Vec<u8>,
    failure: Vec<usize>,
}

impl KmpSearcher {
    /// The UTF-8 bytes of the lowercased query.
    pub closed spec fn pattern(&self) -> Seq<u8> {
        self.pattern_lower@
    }

    #[verifier::type_invariant]
    closed spec fn well_formed(&self) -> bool {
        is_failure_table(self.pattern_lower@, self.failure@)
    }

    /// Prepares a search for `query`.
    pub fn new(query: &str) -> (s: Self)
        ensures
            s.pattern() == encode_utf8(lowercase(query@)),
            s.pattern().len() > 0 <==> query@.len() > 0,
    {
        let lower = to_lowercase(query);
        proof {
            lemma_encode_nonempty(lower@);
        }
        let pattern_lower = bytes_to_vec(lower.as_str().as_bytes());
        let failure = failure_table(pattern_lower.as_slice());
        KmpSearcher { pattern_lower, failure }
    }

    /// Whether the pattern is non-empty and occurs in the lowercased `text`.
    pub fn matches_text(&self, text: &str) -> (found: bool)
        ensures
            found == (self.pattern().len() > 0 && occurs_in(self.pattern(), encode_utf8(lowercase(text@)))),
    {
        proof {
            use_type_invariant(self);
        }
        if self.pattern_lower.len() == 0 {
            return false;
        }
        let lower = to_lowercase(text);
        kmp_occurs(self.pattern_lower.as_slice(), self.failure.as_slice(), lower.as_str().as_bytes())
    }
}

} // verus!
