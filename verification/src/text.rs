//! Character-level string helpers shared by the rest of the library.

use vstd::prelude::*;

verus! {

/// Appends one character to a `String` (std `String::push`).
#[verifier::external_body]
pub(crate) fn push_char(s: &mut String, c: char)
    ensures
        final(s)@ == old(s)@.push(c),
{
    s.push(c);
}

/// The characters of a string slice, in order.
pub fn chars_of(s: &str) -> (v: Vec<char>)
    ensures
        v@ == s@,
{
    let mut v: Vec<char> = Vec::new();
    for c in it: s.chars()
        invariant
            v@ == it.seq().take(it.index() as int),
    {
        v.push(c);
    }
    v
}

/// Builds a `String` from a slice of characters.
pub fn string_from_chars(v: &[char]) -> (s: String)
    ensures
        s@ == v@,
{
    let mut s = String::new();
    let mut i: usize = 0;
    while i < v.len()
        invariant
            i <= v.len(),
            s@ == v@.take(i as int),
        decreases v.len() - i,
    {
        push_char(&mut s, v[i]);
        i = i + 1;
        assert(v@.take(i as int) =~= v@.take((i - 1) as int).push(v@[i - 1]));
    }
    assert(v@.take(v.len() as int) =~= v@);
    s
}

} // verus!

verus! {

/// Whether two character slices hold the same characters.
pub fn chars_eq(a: &[char], b: &[char]) -> (r: bool)
    ensures
        r == (a@ == b@),
{
    if a.len() != b.len() {
        return false;
    }
    let mut i: usize = 0;
    while i < a.len()
        invariant
            a.len() == b.len(),
            i <= a.len(),
            forall|j: int| 0 <= j < i ==> a@[j] == b@[j],
        decreases a.len() - i,
    {
        if a[i] != b[i] {
            return false;
        }
        i = i + 1;
    }
    assert(a@ =~= b@);
    true
}

/// The part of `s` after the first occurrence of `c`, if `c` occurs.
pub open spec fn after_first(s: Seq<char>, c: char) -> Option<Seq<char>>
    decreases s.len(),
{
    if s.len() == 0 {
        None
    } else if s[0] == c {
        Some(s.drop_first())
    } else {
        after_first(s.drop_first(), c)
    }
}

/// `i` is the position of the first occurrence of `c` in `s`.
pub open spec fn is_first_index(s: Seq<char>, c: char, i: int) -> bool {
    &&& 0 <= i < s.len()
    &&& s[i] == c
    &&& forall|j: int| 0 <= j < i ==> s[j] != c
}

pub proof fn lemma_after_first_index(s: Seq<char>, c: char, i: int)
    requires
        is_first_index(s, c, i),
    ensures
        after_first(s, c) == Some(s.skip(i + 1)),
    decreases i,
{
    if i > 0 {
        assert(s[0] != c);
        lemma_after_first_index(s.drop_first(), c, i - 1);
        assert(s.drop_first().skip(i) =~= s.skip(i + 1));
    } else {
        assert(s.drop_first() =~= s.skip(1));
    }
}

pub proof fn lemma_after_first_absent(s: Seq<char>, c: char)
    requires
        forall|j: int| 0 <= j < s.len() ==> s[j] != c,
    ensures
        after_first(s, c) is None,
    decreases s.len(),
{
    if s.len() > 0 {
        assert(s[0] != c);
        lemma_after_first_absent(s.drop_first(), c);
    }
}

/// Position of the first occurrence of `c` in `v`.
pub fn find_char(v: &[char], c: char) -> (r: Option<usize>)
    ensures
        match r {
            Some(i) => is_first_index(v@, c, i as int),
            None => forall|j: int| 0 <= j < v@.len() ==> v@[j] != c,
        },
        match r {
            Some(i) => after_first(v@, c) == Some(v@.skip(i + 1)),
            None => after_first(v@, c) is None,
        },
{
    let mut i: usize = 0;
    while i < v.len()
        invariant
            i <= v.len(),
            forall|j: int| 0 <= j < i ==> v@[j] != c,
        decreases v.len() - i,
    {
        if v[i] == c {
            proof {
                lemma_after_first_index(v@, c, i as int);
            }
            return Some(i);
        }
        i = i + 1;
    }
    proof {
        lemma_after_first_absent(v@, c);
    }
    None
}

/// Replaces every occurrence of `from` with `to`.
pub open spec fn replace_char_spec(s: Seq<char>, from: char, to: char) -> Seq<char> {
    s.map_values(|x: char| if x == from { to } else { x })
}

pub fn replace_char(v: &[char], from: char, to: char) -> (r: Vec<char>)
    ensures
        r@ == replace_char_spec(v@, from, to),
{
    let mut r: Vec<char> = Vec::new();
    let mut i: usize = 0;
    while i < v.len()
        invariant
            i <= v.len(),
            r@ == replace_char_spec(v@.take(i as int), from, to),
        decreases v.len() - i,
    {
        let x = v[i];
        r.push(if x == from { to } else { x });
        i = i + 1;
        assert(replace_char_spec(v@.take(i as int), from, to) =~= replace_char_spec(
            v@.take((i - 1) as int),
            from,
            to,
        ).push(if x == from { to } else { x }));
    }
    assert(v@.take(v.len() as int) =~= v@);
    r
}

/// `p` is a prefix of `s`.
pub open spec fn has_prefix(s: Seq<char>, p: Seq<char>) -> bool {
    p.len() <= s.len() && s.take(p.len() as int) == p
}

/// `p` is a suffix of `s`.
pub open spec fn has_suffix(s: Seq<char>, p: Seq<char>) -> bool {
    p.len() <= s.len() && s.skip(s.len() - p.len()) == p
}

/// `p` occurs somewhere inside `s`.
pub open spec fn has_infix(s: Seq<char>, p: Seq<char>) -> bool {
    exists|i: int| 0 <= i && i + p.len() <= s.len() && #[trigger] s.subrange(i, i + p.len()) == p
}

pub fn starts_with(s: &[char], p: &[char]) -> (r: bool)
    ensures
        r == has_prefix(s@, p@),
{
    if p.len() > s.len() {
        return false;
    }
    let mut i: usize = 0;
    while i < p.len()
        invariant
            p.len() <= s.len(),
            i <= p.len(),
            forall|j: int| 0 <= j < i ==> s@[j] == p@[j],
        decreases p.len() - i,
    {
        if s[i] != p[i] {
            assert(s@.take(p.len() as int)[i as int] != p@[i as int]);
            return false;
        }
        i = i + 1;
    }
    assert(s@.take(p.len() as int) =~= p@);
    true
}

pub fn ends_with(s: &[char], p: &[char]) -> (r: bool)
    ensures
        r == has_suffix(s@, p@),
{
    if p.len() > s.len() {
        return false;
    }
    let off = s.len() - p.len();
    let mut i: usize = 0;
    while i < p.len()
        invariant
            p.len() <= s.len(),
            off == s.len() - p.len(),
            i <= p.len(),
            forall|j: int| 0 <= j < i ==> s@[off + j] == p@[j],
        decreases p.len() - i,
    {
        if s[off + i] != p[i] {
            assert(s@.skip(off as int)[i as int] != p@[i as int]);
            return false;
        }
        i = i + 1;
    }
    assert(s@.skip(off as int) =~= p@);
    true
}

/// Whether `p` occurs inside `s` starting at position `i`.
fn matches_at(s: &[char], p: &[char], i: usize) -> (r: bool)
    requires
        i + p.len() <= s.len(),
    ensures
        r == (s@.subrange(i as int, i + p.len()) == p@),
{
    let mut k: usize = 0;
    while k < p.len()
        invariant
            i + p.len() <= s.len(),
            k <= p.len(),
            forall|j: int| 0 <= j < k ==> s@[i + j] == p@[j],
        decreases p.len() - k,
    {
        if s[i + k] != p[k] {
            assert(s@.subrange(i as int, i + p.len())[k as int] != p@[k as int]);
            return false;
        }
        k = k + 1;
    }
    assert(s@.subrange(i as int, i + p.len()) =~= p@);
    true
}

pub fn contains_chars(s: &[char], p: &[char]) -> (r: bool)
    ensures
        r == has_infix(s@, p@),
{
    if p.len() > s.len() {
        return false;
    }
    let last = s.len() - p.len();
    let mut i: usize = 0;
    while i < last
        invariant
            p.len() <= s.len(),
            last == s.len() - p.len(),
            i <= last,
            forall|j: int| 0 <= j < i ==> #[trigger] s@.subrange(j, j + p.len()) != p@,
        decreases last - i,
    {
        if matches_at(s, p, i) {
            return true;
        }
        i = i + 1;
    }
    if matches_at(s, p, last) {
        return true;
    }
    assert forall|j: int| 0 <= j && j + p.len() <= s.len() implies #[trigger] s@.subrange(
        j,
        j + p.len(),
    ) != p@ by {}
    false
}

/// Unicode `White_Space` characters, as `char::is_whitespace` defines them.
pub open spec fn is_ws(c: char) -> bool {
    let u = c as u32;
    (0x09 <= u <= 0x0d) || u == 0x20 || u == 0x85 || u == 0xa0 || u == 0x1680 || (0x2000 <= u
        <= 0x200a) || u == 0x2028 || u == 0x2029 || u == 0x202f || u == 0x205f || u == 0x3000
}

pub fn is_whitespace(c: char) -> (r: bool)
    ensures
        r == is_ws(c),
{
    let u = c as u32;
    (0x09 <= u && u <= 0x0d) || u == 0x20 || u == 0x85 || u == 0xa0 || u == 0x1680 || (0x2000 <= u
        && u <= 0x200a) || u == 0x2028 || u == 0x2029 || u == 0x202f || u == 0x205f || u == 0x3000
}

/// Number of leading whitespace characters.
pub open spec fn lead_ws(s: Seq<char>) -> nat
    decreases s.len(),
{
    if s.len() > 0 && is_ws(s[0]) {
        1 + lead_ws(s.drop_first())
    } else {
        0
    }
}

/// Number of trailing whitespace characters.
pub open spec fn trail_ws(s: Seq<char>) -> nat
    decreases s.len(),
{
    if s.len() > 0 && is_ws(s.last()) {
        1 + trail_ws(s.drop_last())
    } else {
        0
    }
}

/// `str::trim`: whitespace removed at both ends.
pub open spec fn trim_spec(s: Seq<char>) -> Seq<char> {
    let a = lead_ws(s);
    if a == s.len() {
        Seq::empty()
    } else {
        s.subrange(a as int, s.len() - trail_ws(s))
    }
}

pub proof fn lemma_lead_ws_bound(s: Seq<char>)
    ensures
        lead_ws(s) <= s.len(),
        forall|j: int| 0 <= j < lead_ws(s) ==> is_ws(#[trigger] s[j]),
        lead_ws(s) < s.len() ==> !is_ws(s[lead_ws(s) as int]),
    decreases s.len(),
{
    if s.len() > 0 && is_ws(s[0]) {
        lemma_lead_ws_bound(s.drop_first());
        assert forall|j: int| 0 <= j < lead_ws(s) implies is_ws(#[trigger] s[j]) by {
            if j > 0 {
                assert(s[j] == s.drop_first()[j - 1]);
            }
        }
    }
}

pub proof fn lemma_trail_ws_bound(s: Seq<char>)
    ensures
        trail_ws(s) <= s.len(),
        forall|j: int| s.len() - trail_ws(s) <= j < s.len() ==> is_ws(#[trigger] s[j]),
        trail_ws(s) < s.len() ==> !is_ws(s[s.len() - 1 - trail_ws(s)]),
    decreases s.len(),
{
    if s.len() > 0 && is_ws(s.last()) {
        lemma_trail_ws_bound(s.drop_last());
        assert forall|j: int| s.len() - trail_ws(s) <= j < s.len() implies is_ws(
            #[trigger] s[j],
        ) by {
            if j < s.len() - 1 {
                assert(s[j] == s.drop_last()[j]);
            }
        }
    }
}

pub proof fn lemma_lead_ws_exact(s: Seq<char>, k: int)
    requires
        0 <= k <= s.len(),
        forall|j: int| 0 <= j < k ==> is_ws(#[trigger] s[j]),
        k < s.len() ==> !is_ws(s[k]),
    ensures
        lead_ws(s) == k,
    decreases k,
{
    if k > 0 {
        assert(is_ws(s[0]));
        assert forall|j: int| 0 <= j < k - 1 implies is_ws(#[trigger] s.drop_first()[j]) by {
            assert(s.drop_first()[j] == s[j + 1]);
        }
        lemma_lead_ws_exact(s.drop_first(), k - 1);
    }
}

pub proof fn lemma_trail_ws_exact(s: Seq<char>, k: int)
    requires
        0 <= k <= s.len(),
        forall|j: int| s.len() - k <= j < s.len() ==> is_ws(#[trigger] s[j]),
        k < s.len() ==> !is_ws(s[s.len() - 1 - k]),
    ensures
        trail_ws(s) == k,
    decreases k,
{
    if k > 0 {
        assert(is_ws(s[s.len() - 1]));
        assert forall|j: int| s.len() - 1 - (k - 1) <= j < s.len() - 1 implies is_ws(
            #[trigger] s.drop_last()[j],
        ) by {
            assert(s.drop_last()[j] == s[j]);
        }
        lemma_trail_ws_exact(s.drop_last(), k - 1);
    }
}

/// `str::trim` on a character slice.
pub fn trim_chars(v: &[char]) -> (r: Vec<char>)
    ensures
        r@ == trim_spec(v@),
{
    let mut a: usize = 0;
    while a < v.len() && is_whitespace(v[a])
        invariant
            a <= v.len(),
            forall|j: int| 0 <= j < a ==> is_ws(#[trigger] v@[j]),
        decreases v.len() - a,
    {
        a = a + 1;
    }
    proof {
        lemma_lead_ws_exact(v@, a as int);
    }
    if a == v.len() {
        return Vec::new();
    }
    let mut b: usize = v.len();
    while b > a && is_whitespace(v[b - 1])
        invariant
            a < v.len(),
            a <= b <= v.len(),
            forall|j: int| b <= j < v.len() ==> is_ws(#[trigger] v@[j]),
        decreases b,
    {
        b = b - 1;
    }
    proof {
        assert(!is_ws(v@[a as int]));
        assert(b > a);
        lemma_trail_ws_exact(v@, (v.len() - b) as int);
    }
    let mut r: Vec<char> = Vec::new();
    let mut i: usize = a;
    while i < b
        invariant
            a <= i <= b <= v.len(),
            r@ == v@.subrange(a as int, i as int),
        decreases b - i,
    {
        r.push(v[i]);
        i = i + 1;
        assert(r@ =~= v@.subrange(a as int, i as int));
    }
    r
}

pub fn trim_str(s: &str) -> (r: Vec<char>)
    ensures
        r@ == trim_spec(s@),
{
    let v = chars_of(s);
    trim_chars(v.as_slice())
}

} // verus!

verus! {

/// A copy of a character slice.
pub fn copy_chars(v: &[char]) -> (r: Vec<char>)
    ensures
        r@ == v@,
{
    let mut r: Vec<char> = Vec::new();
    let mut i: usize = 0;
    while i < v.len()
        invariant
            i <= v.len(),
            r@ == v@.take(i as int),
        decreases v.len() - i,
    {
        r.push(v[i]);
        i = i + 1;
        assert(r@ =~= v@.take(i as int));
    }
    assert(v@.take(v.len() as int) =~= v@);
    r
}

/// The characters `v[from..to]`.
pub fn slice_chars(v: &[char], from: usize, to: usize) -> (r: Vec<char>)
    requires
        from <= to <= v.len(),
    ensures
        r@ == v@.subrange(from as int, to as int),
{
    let mut r: Vec<char> = Vec::new();
    let mut i: usize = from;
    while i < to
        invariant
            from <= i <= to <= v.len(),
            r@ == v@.subrange(from as int, i as int),
        decreases to - i,
    {
        r.push(v[i]);
        i = i + 1;
        assert(r@ =~= v@.subrange(from as int, i as int));
    }
    r
}

} // verus!

verus! {

/// Filtering a sequence extended by one element.
pub proof fn lemma_filter_push<A>(s: Seq<A>, pred: spec_fn(A) -> bool, x: A)
    ensures
        s.push(x).filter(pred) == (if pred(x) {
            s.filter(pred).push(x)
        } else {
            s.filter(pred)
        }),
{
    reveal(Seq::filter);
    assert(s.push(x).drop_last() =~= s);
}

} // verus!

verus! {

/// What `str::to_lowercase` returns for a string: its Unicode lowercase mapping.
pub uninterp spec fn lowercase_of(s: Seq<char>) -> Seq<char>;

/// `str::to_lowercase`: named, since the Unicode case tables take pages.
#[verifier::external_body]
pub(crate) fn to_lowercase(s: &str) -> (r: String)
    ensures
        r@ == lowercase_of(s@),
{
    s.to_lowercase()
}

/// The items of `list` with `sep` between consecutive items.
pub open spec fn join_spec(list: Seq<Seq<char>>, sep: Seq<char>) -> Seq<char>
    decreases list.len(),
{
    if list.len() == 0 {
        seq![]
    } else if list.len() == 1 {
        list[0]
    } else {
        join_spec(list.drop_last(), sep) + sep + list.last()
    }
}

/// `[String]::join`.
pub fn join_strings(list: &[String], sep: &[char]) -> (r: Vec<char>)
    ensures
        r@ == join_spec(list@.map_values(|s: String| s@), sep@),
{
    let ghost items = list@.map_values(|s: String| s@);
    let mut r: Vec<char> = Vec::new();
    let mut i: usize = 0;
    while i < list.len()
        invariant
            i <= list.len(),
            items == list@.map_values(|s: String| s@),
            r@ == join_spec(items.take(i as int), sep@),
        decreases list.len() - i,
    {
        let mut c = chars_of(list[i].as_str());
        proof {
            assert(items.take(i + 1).drop_last() =~= items.take(i as int));
            assert(items.take(i + 1).last() == items[i as int]);
        }
        if i > 0 {
            let mut s = copy_chars(sep);
            r.append(&mut s);
        } else {
            assert(items.take(1) =~= seq![items[0]]);
        }
        r.append(&mut c);
        i = i + 1;
    }
    assert(items.take(list.len() as int) =~= items);
    r
}

/// `str::replace` of a non-empty pattern: left to right, without overlap.
pub open spec fn replace_all_spec(s: Seq<char>, pat: Seq<char>, rep: Seq<char>) -> Seq<char>
    decreases s.len(),
{
    if pat.len() == 0 || s.len() < pat.len() {
        s
    } else if s.take(pat.len() as int) == pat {
        rep + replace_all_spec(s.skip(pat.len() as int), pat, rep)
    } else {
        seq![s[0]] + replace_all_spec(s.drop_first(), pat, rep)
    }
}

pub fn replace_all(s: &[char], pat: &[char], rep: &[char]) -> (r: Vec<char>)
    requires
        pat.len() > 0,
    ensures
        r@ == replace_all_spec(s@, pat@, rep@),
{
    let mut out: Vec<char> = Vec::new();
    let mut i: usize = 0;
    assert(s@.skip(0) =~= s@);
    assert(out@ + replace_all_spec(s@, pat@, rep@) =~= replace_all_spec(s@, pat@, rep@));
    while i < s.len()
        invariant
            pat@.len() > 0,
            i <= s.len(),
            replace_all_spec(s@, pat@, rep@) == out@ + replace_all_spec(s@.skip(i as int), pat@, rep@),
        decreases s.len() - i,
    {
        let ghost rest = s@.skip(i as int);
        if s.len() - i >= pat.len() && starts_with_at(s, pat, i) {
            proof {
                assert(rest.take(pat.len() as int) =~= pat@);
                assert(rest.skip(pat.len() as int) =~= s@.skip(i + pat.len()));
            }
            let ghost before = out@;
            let mut rr = copy_chars(rep);
            out.append(&mut rr);
            i = i + pat.len();
            proof {
                assert(out@ + replace_all_spec(s@.skip(i as int), pat@, rep@) =~= before + (rep@
                    + replace_all_spec(s@.skip(i as int), pat@, rep@)));
            }
        } else {
            proof {
                if s.len() - i >= pat.len() {
                    assert(rest.take(pat.len() as int) != pat@);
                }
                assert(rest.drop_first() =~= s@.skip(i + 1));
                assert(rest[0] == s@[i as int]);
            }
            out.push(s[i]);
            i = i + 1;
        }
    }
    assert(s@.skip(s.len() as int) =~= Seq::<char>::empty());
    assert(out@ + replace_all_spec(Seq::<char>::empty(), pat@, rep@) =~= out@);
    out
}

/// Whether `p` occurs in `s` at position `i`.
fn starts_with_at(s: &[char], p: &[char], i: usize) -> (r: bool)
    requires
        i + p.len() <= s.len(),
    ensures
        r == (s@.skip(i as int).take(p.len() as int) == p@),
{
    let mut k: usize = 0;
    while k < p.len()
        invariant
            i + p.len() <= s.len(),
            k <= p.len(),
            forall|j: int| 0 <= j < k ==> s@[i + j] == p@[j],
        decreases p.len() - k,
    {
        if s[i + k] != p[k] {
            assert(s@.skip(i as int).take(p.len() as int)[k as int] != p@[k as int]);
            return false;
        }
        k = k + 1;
    }
    assert(s@.skip(i as int).take(p.len() as int) =~= p@);
    true
}

} // verus!

verus! {

/// `s` split around the last occurrence of `c`: the text before and after it.
pub open spec fn split_last(s: Seq<char>, c: char) -> Option<(Seq<char>, Seq<char>)>
    decreases s.len(),
{
    if s.len() == 0 {
        None
    } else if s.last() == c {
        Some((s.drop_last(), seq![]))
    } else {
        match split_last(s.drop_last(), c) {
            Some((before, after)) => Some((before, after.push(s.last()))),
            None => None,
        }
    }
}

/// `i` is the position of the last occurrence of `c` in `s`.
pub open spec fn is_last_index(s: Seq<char>, c: char, i: int) -> bool {
    &&& 0 <= i < s.len()
    &&& s[i] == c
    &&& forall|j: int| i < j < s.len() ==> s[j] != c
}

pub proof fn lemma_split_last_index(s: Seq<char>, c: char, i: int)
    requires
        is_last_index(s, c, i),
    ensures
        split_last(s, c) == Some((s.take(i), s.skip(i + 1))),
    decreases s.len(),
{
    if i == s.len() - 1 {
        assert(s.drop_last() =~= s.take(i));
        assert(s.skip(i + 1) =~= Seq::<char>::empty());
    } else {
        assert(s.last() != c);
        lemma_split_last_index(s.drop_last(), c, i);
        assert(s.drop_last().take(i) =~= s.take(i));
        assert(s.drop_last().skip(i + 1).push(s.last()) =~= s.skip(i + 1));
    }
}

pub proof fn lemma_split_last_absent(s: Seq<char>, c: char)
    requires
        forall|j: int| 0 <= j < s.len() ==> s[j] != c,
    ensures
        split_last(s, c) is None,
    decreases s.len(),
{
    if s.len() > 0 {
        assert(s.last() != c);
        lemma_split_last_absent(s.drop_last(), c);
    }
}

/// Position of the last occurrence of `c` in `v`.
pub fn find_last_char(v: &[char], c: char) -> (r: Option<usize>)
    ensures
        match r {
            Some(i) => is_last_index(v@, c, i as int) && split_last(v@, c) == Some(
                (v@.take(i as int), v@.skip(i + 1)),
            ),
            None => (forall|j: int| 0 <= j < v@.len() ==> v@[j] != c) && split_last(v@, c) is None,
        },
{
    let mut k: usize = v.len();
    while k > 0
        invariant
            k <= v.len(),
            forall|j: int| k <= j < v.len() ==> v@[j] != c,
        decreases k,
    {
        if v[k - 1] == c {
            proof {
                lemma_split_last_index(v@, c, k - 1);
            }
            return Some(k - 1);
        }
        k = k - 1;
    }
    proof {
        lemma_split_last_absent(v@, c);
    }
    None
}

} // verus!

verus! {

/// `a` followed by `b`, as a new `String`.
pub fn str_concat(a: &str, b: &str) -> (r: String)
    ensures
        r@ == a@ + b@,
{
    let mut v = chars_of(a);
    let mut w = chars_of(b);
    v.append(&mut w);
    string_from_chars(v.as_slice())
}

/// A copy of a `String` with the same characters.
pub fn copy_string(s: &String) -> (r: String)
    ensures
        r == *s,
{
    s.clone()
}

/// A copy of an optional `String`.
pub fn copy_opt_string(o: &Option<String>) -> (r: Option<String>)
    ensures
        r == *o,
{
    match o {
        Some(s) => Some(s.clone()),
        None => None,
    }
}

/// The first `n` characters of `s` (all of it when shorter).
pub fn take_chars(s: &str, n: usize) -> (r: String)
    ensures
        r@ == s@.take(if n < s@.len() { n as int } else { s@.len() as int }),
{
    let v = chars_of(s);
    let end = if n < v.len() { n } else { v.len() };
    let p = slice_chars(v.as_slice(), 0, end);
    assert(p@ =~= s@.take(end as int));
    string_from_chars(p.as_slice())
}

} // verus!

verus! {

/// The text between newlines, in order (a text without newline is one line).
pub open spec fn lines_of(s: Seq<char>) -> Seq<Seq<char>>
    decreases s.len(),
{
    if s.len() == 0 {
        seq![seq![]]
    } else if s.last() == '\n' {
        lines_of(s.drop_last()).push(seq![])
    } else {
        let ls = lines_of(s.drop_last());
        ls.update(ls.len() - 1, ls.last().push(s.last()))
    }
}

pub proof fn lemma_lines_of_nonempty(s: Seq<char>)
    ensures
        lines_of(s).len() >= 1,
    decreases s.len(),
{
    if s.len() > 0 {
        lemma_lines_of_nonempty(s.drop_last());
    }
}

/// The lines of a prefix ending in a newline are lines of the whole text.
pub proof fn lemma_lines_prefix(s: Seq<char>, n: int)
    requires
        0 < n <= s.len(),
        s[n - 1] == '\n',
    ensures
        forall|k: int|
            0 <= k < lines_of(s.take(n)).len() - 1 ==> #[trigger] lines_of(s.take(n))[k] == lines_of(s)[k],
        lines_of(s.take(n)).len() <= lines_of(s).len(),
    decreases s.len() - n,
{
    if n == s.len() {
        assert(s.take(n) =~= s);
    } else {
        lemma_lines_prefix(s.drop_last(), n);
        assert(s.drop_last().take(n) =~= s.take(n));
        lemma_lines_of_nonempty(s.drop_last());
        lemma_lines_of_nonempty(s.take(n));
        let pre = lines_of(s.take(n));
        let mid = lines_of(s.drop_last());
        assert(pre.len() >= 1);
        assert forall|k: int| 0 <= k < pre.len() - 1 implies #[trigger] pre[k] == lines_of(s)[k] by {
            assert(pre[k] == mid[k]);
            assert(k < mid.len() - 1);
        }
    }
}

} // verus!

verus! {

/// A line without the `\r` of a `\r\n` ending.
pub open spec fn strip_cr(l: Seq<char>) -> Seq<char> {
    if l.len() > 0 && l.last() == '\r' {
        l.drop_last()
    } else {
        l
    }
}

/// `str::lines`: the text split at `\n` (dropping a `\r` just before it),
/// with no empty line after a final newline.
pub open spec fn str_lines(s: Seq<char>) -> Seq<Seq<char>> {
    let segs = lines_of(s);
    let full = segs.drop_last().map_values(|l: Seq<char>| strip_cr(l));
    if segs.last().len() > 0 {
        full.push(segs.last())
    } else {
        full
    }
}

fn strip_cr_exec(v: Vec<char>) -> (r: Vec<char>)
    ensures
        r@ == strip_cr(v@),
{
    let mut v = v;
    if v.len() > 0 && v[v.len() - 1] == '\r' {
        v.pop();
    }
    v
}

/// The lines of a text, as `str::lines` yields them.
pub fn str_lines_exec(s: &str) -> (r: Vec<Vec<char>>)
    ensures
        r@.map_values(|l: Vec<char>| l@) == str_lines(s@),
{
    let v = chars_of(s);
    let ghost t = s@;
    let mut done: Vec<Vec<char>> = Vec::new();
    let mut cur: Vec<char> = Vec::new();
    let mut i: usize = 0;
    assert(t.take(0) =~= Seq::<char>::empty());
    while i < v.len()
        invariant
            v@ == t,
            i <= v.len(),
            lines_of(t.take(i as int)).last() == cur@,
            done@.map_values(|l: Vec<char>| l@) == lines_of(t.take(i as int)).drop_last().map_values(
                |l: Seq<char>| strip_cr(l),
            ),
        decreases v.len() - i,
    {
        let c = v[i];
        let ghost prev = lines_of(t.take(i as int));
        proof {
            assert(t.take(i + 1).drop_last() =~= t.take(i as int));
            assert(t.take(i + 1).last() == c);
            lemma_lines_of_nonempty(t.take(i as int));
        }
        if c == '\n' {
            let ghost before = done@.map_values(|l: Vec<char>| l@);
            let line = strip_cr_exec(cur);
            let ghost lv = line@;
            done.push(line);
            cur = Vec::new();
            proof {
                let now = lines_of(t.take(i + 1));
                assert(now == prev.push(seq![]));
                assert(now.drop_last() =~= prev);
                assert(prev =~= prev.drop_last().push(prev.last()));
                assert(done@.map_values(|l: Vec<char>| l@) =~= before.push(lv));
                assert(now.drop_last().map_values(|l: Seq<char>| strip_cr(l)) =~= prev.drop_last().map_values(
                    |l: Seq<char>| strip_cr(l),
                ).push(strip_cr(prev.last())));
                assert(cur@ =~= Seq::<char>::empty());
            }
        } else {
            cur.push(c);
            proof {
                let now = lines_of(t.take(i + 1));
                assert(now.drop_last() =~= prev.drop_last());
            }
        }
        i = i + 1;
    }
    assert(t.take(v.len() as int) =~= t);
    proof {
        lemma_lines_of_nonempty(t);
    }
    if cur.len() > 0 {
        let ghost before = done@.map_values(|l: Vec<char>| l@);
        let ghost cv = cur@;
        done.push(cur);
        assert(done@.map_values(|l: Vec<char>| l@) =~= before.push(cv));
    }
    done
}

} // verus!

verus! {

/// The pieces of `s` between occurrences of `c`, in order (one piece when
/// `c` does not occur).
pub open spec fn split_on(s: Seq<char>, c: char) -> Seq<Seq<char>>
    decreases s.len(),
{
    if s.len() == 0 {
        seq![seq![]]
    } else if s.last() == c {
        split_on(s.drop_last(), c).push(seq![])
    } else {
        let ls = split_on(s.drop_last(), c);
        ls.update(ls.len() - 1, ls.last().push(s.last()))
    }
}

pub proof fn lemma_split_on_nonempty(s: Seq<char>, c: char)
    ensures
        split_on(s, c).len() >= 1,
    decreases s.len(),
{
    if s.len() > 0 {
        lemma_split_on_nonempty(s.drop_last(), c);
    }
}

/// The pieces of a text split at `c`.
pub fn split_on_exec(s: &[char], c: char) -> (r: Vec<Vec<char>>)
    ensures
        r@.map_values(|l: Vec<char>| l@) == split_on(s@, c),
{
    let mut done: Vec<Vec<char>> = Vec::new();
    let mut cur: Vec<char> = Vec::new();
    let mut i: usize = 0;
    assert(s@.take(0) =~= Seq::<char>::empty());
    assert(done@.map_values(|l: Vec<char>| l@).push(cur@) =~= split_on(s@.take(0), c));
    while i < s.len()
        invariant
            i <= s.len(),
            done@.map_values(|l: Vec<char>| l@).push(cur@) == split_on(s@.take(i as int), c),
        decreases s.len() - i,
    {
        let x = s[i];
        let ghost prev = split_on(s@.take(i as int), c);
        let ghost before = done@.map_values(|l: Vec<char>| l@);
        proof {
            assert(s@.take(i + 1).drop_last() =~= s@.take(i as int));
            assert(s@.take(i + 1).last() == x);
            lemma_split_on_nonempty(s@.take(i as int), c);
        }
        if x == c {
            let ghost cv = cur@;
            done.push(cur);
            cur = Vec::new();
            assert(done@.map_values(|l: Vec<char>| l@).push(cur@) =~= prev.push(seq![]));
        } else {
            cur.push(x);
            assert(done@.map_values(|l: Vec<char>| l@).push(cur@) =~= prev.update(
                prev.len() - 1,
                prev.last().push(x),
            ));
        }
        i = i + 1;
    }
    assert(s@.take(s.len() as int) =~= s@);
    let ghost before = done@.map_values(|l: Vec<char>| l@);
    let ghost cv = cur@;
    done.push(cur);
    assert(done@.map_values(|l: Vec<char>| l@) =~= before.push(cv));
    done
}

} // verus!

verus! {

/// No line holds a newline.
pub proof fn lemma_lines_of_no_sep(s: Seq<char>)
    ensures
        forall|i: int, j: int|
            0 <= i < lines_of(s).len() && 0 <= j < lines_of(s)[i].len() ==> #[trigger] lines_of(s)[i][j] != '\n',
    decreases s.len(),
{
    if s.len() > 0 {
        lemma_lines_of_no_sep(s.drop_last());
        lemma_lines_of_nonempty(s.drop_last());
        let prev = lines_of(s.drop_last());
        let out = lines_of(s);
        assert forall|i: int, j: int| 0 <= i < out.len() && 0 <= j < out[i].len() implies #[trigger] out[i][j]
            != '\n' by {
            if s.last() == '\n' {
                if i < prev.len() {
                    assert(out[i] == prev[i]);
                }
            } else {
                if i < prev.len() - 1 {
                    assert(out[i] == prev[i]);
                } else {
                    assert(out[i] == prev.last().push(s.last()));
                    if j < prev.last().len() {
                        assert(prev[prev.len() - 1][j] != '\n');
                    }
                }
            }
        }
    }
}

/// A trimmed text is the part of the text after its leading whitespace.
pub proof fn lemma_trim_is_subrange(s: Seq<char>)
    ensures
        lead_ws(s) + trim_spec(s).len() <= s.len(),
        forall|i: int| 0 <= i < trim_spec(s).len() ==> #[trigger] trim_spec(s)[i] == s[lead_ws(s) + i],
{
    lemma_lead_ws_bound(s);
    lemma_trail_ws_bound(s);
    let a = lead_ws(s) as int;
    if a < s.len() {
        if a >= s.len() - trail_ws(s) {
            assert(is_ws(s[a]));
        }
    }
}

} // verus!
