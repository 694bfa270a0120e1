//! Character-based truncation that never splits a character.

use vstd::prelude::*;

use crate::agent::{truncate_chars_spec, truncate_chars as truncate_str_chars};

verus! {

/// Truncation by characters (Unicode scalar values), never by bytes.
pub trait SafeSplitExt {
    spec fn text(&self) -> Seq<char>;

    /// A new `String` of at most `max_chars` characters.
    fn truncate_chars(&self, max_chars: usize) -> (r: String)
        ensures
            r@ == truncate_chars_spec(self.text(), max_chars as nat),
    ;

    /// A borrowed slice of at most `max_chars` characters, without copying.
    fn truncate_chars_ref(&self, max_chars: usize) -> (r: &str)
        ensures
            r@ == truncate_chars_spec(self.text(), max_chars as nat),
    ;
}

fn prefix_slice(s: &str, max_chars: usize) -> (r: &str)
    ensures
        r@ == truncate_chars_spec(s@, max_chars as nat),
{
    let n = s.unicode_len();
    if n <= max_chars {
        let r = s.substring_char(0, n);
        assert(s@.subrange(0, n as int) =~= s@);
        r
    } else {
        let r = s.substring_char(0, max_chars);
        assert(s@.subrange(0, max_chars as int) =~= s@.take(max_chars as int));
        r
    }
}

impl SafeSplitExt for str {
    open spec fn text(&self) -> Seq<char> {
        self@
    }

    fn truncate_chars(&self, max_chars: usize) -> (r: String) {
        truncate_str_chars(self, max_chars)
    }

    fn truncate_chars_ref(&self, max_chars: usize) -> (r: &str) {
        prefix_slice(self, max_chars)
    }
}

impl SafeSplitExt for String {
    open spec fn text(&self) -> Seq<char> {
        self@
    }

    fn truncate_chars(&self, max_chars: usize) -> (r: String) {
        truncate_str_chars(self.as_str(), max_chars)
    }

    fn truncate_chars_ref(&self, max_chars: usize) -> (r: &str) {
        prefix_slice(self.as_str(), max_chars)
    }
}

/// Truncating twice keeps the shorter limit; truncation never lengthens a text.
pub proof fn lemma_truncate_chars_laws(s: Seq<char>, a: nat, b: nat)
    ensures
        truncate_chars_spec(truncate_chars_spec(s, a), b) == truncate_chars_spec(s, if a < b { a } else { b }),
        truncate_chars_spec(s, a).len() <= s.len(),
        truncate_chars_spec(s, a).len() <= a,
        s.len() <= a ==> truncate_chars_spec(s, a) == s,
        truncate_chars_spec(s, a) == s.take(truncate_chars_spec(s, a).len() as int),
{
    let t = truncate_chars_spec(s, a);
    if s.len() > a {
        assert(t =~= s.take(a as int));
        if t.len() > b {
            assert(t.take(b as int) =~= s.take(b as int));
        }
    } else {
        assert(s.take(s.len() as int) =~= s);
    }
}

} // verus!
