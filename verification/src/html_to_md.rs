//! Turning fetched pages into Markdown: what is done with a body of each
//! content type, the clean-up of converted Markdown, the plain-text fallback
//! and the byte-bounded truncation of the result.

use vstd::prelude::*;

use crate::text::{
    after_first, find_char, is_first_index, lemma_after_first_absent, lemma_after_first_index,
    chars_of, contains_chars, has_infix, is_whitespace, is_ws, join_spec, join_strings,
    slice_chars, str_lines, str_lines_exec, string_from_chars, trim_chars, trim_spec,
};
use crate::weixin::{byte_len, fit_count, fit_from, fits_in_bytes};

verus! {

/// What was learned of a fetched page besides its body.
#[derive(Debug)]
pub struct MarkdownMeta {
    pub server_markdown: bool,
    pub token_count: Option<u64>,
    pub content_signal: Option<String>,
    pub final_url: String,
    pub status: u16,
    pub content_type: String,
}

impl Default for MarkdownMeta {
    fn default() -> (m: Self)
        ensures
            !m.server_markdown && m.token_count is None && m.content_signal is None,
            m.final_url@.len() == 0 && m.status == 0 && m.content_type@.len() == 0,
    {
        MarkdownMeta {
            server_markdown: false,
            token_count: None,
            content_signal: None,
            final_url: String::new(),
            status: 0,
            content_type: String::new(),
        }
    }
}

/// The clean-up state after some lines: the text so far and how many blank
/// lines came since the last kept line.
pub open spec fn clean_fold(lines: Seq<Seq<char>>) -> (Seq<char>, nat)
    decreases lines.len(),
{
    if lines.len() == 0 {
        (seq![], 0)
    } else {
        let (r, blanks) = clean_fold(lines.drop_last());
        let line = lines.last();
        if trim_spec(line).len() == 0 {
            (r, blanks + 1)
        } else {
            let sep: Seq<char> = if r.len() == 0 {
                seq![]
            } else if blanks > 0 {
                "\n\n"@
            } else {
                "\n"@
            };
            (r + sep + line, 0)
        }
    }
}

/// `after_first` leaves a strictly shorter text.
pub proof fn lemma_after_first_shorter(s: Seq<char>, c: char)
    ensures
        after_first(s, c) matches Some(r) ==> r.len() < s.len(),
    decreases s.len(),
{
    if s.len() > 0 && s[0] != c {
        lemma_after_first_shorter(s.drop_first(), c);
    }
}

/// A line with its empty links removed: every `[](` up to the next `)` is
/// dropped (an empty link reference); other text is kept as it is.
pub open spec fn strip_empty_links(s: Seq<char>) -> Seq<char>
    decreases s.len(),
{
    if s.len() == 0 {
        seq![]
    } else if s.len() >= 3 && s[0] == '[' && s[1] == ']' && s[2] == '(' && after_first(s.skip(3), ')') is Some {
        proof {
            lemma_after_first_shorter(s.skip(3), ')');
        }
        strip_empty_links(after_first(s.skip(3), ')')->0)
    } else {
        seq![s[0]] + strip_empty_links(s.drop_first())
    }
}

/// A line with empty links removed until none is left: removing one can
/// bring its neighbours together into a new one (`[[]()]()`).
pub open spec fn strip_links_fully(s: Seq<char>) -> Seq<char>
    decreases s.len(),
{
    let t = strip_empty_links(s);
    if t.len() < s.len() {
        strip_links_fully(t)
    } else {
        s
    }
}

/// The lines of converted Markdown with their empty links removed.
pub open spec fn stripped_lines(md: Seq<char>) -> Seq<Seq<char>> {
    str_lines(md).map_values(|l: Seq<char>| strip_links_fully(l))
}

/// One pass never lengthens a line, and a pass that keeps the length
/// changes nothing.
proof fn lemma_strip_len(s: Seq<char>)
    ensures
        strip_empty_links(s).len() <= s.len(),
        strip_empty_links(s).len() == s.len() ==> strip_empty_links(s) == s,
    decreases s.len(),
{
    if s.len() > 0 {
        if s.len() >= 3 && s[0] == '[' && s[1] == ']' && s[2] == '(' && after_first(s.skip(3), ')') is Some {
            lemma_after_first_shorter(s.skip(3), ')');
            lemma_strip_len(after_first(s.skip(3), ')')->0);
        } else {
            let d = s.drop_first();
            lemma_strip_len(d);
            if strip_empty_links(s).len() == s.len() {
                assert(seq![s[0]] + d =~= s);
            }
        }
    }
}

/// A line fully stripped holds no empty link: one more pass changes nothing.
pub proof fn lemma_strip_links_fully_stable(s: Seq<char>)
    ensures
        strip_empty_links(strip_links_fully(s)) == strip_links_fully(s),
    decreases s.len(),
{
    let t = strip_empty_links(s);
    lemma_strip_len(s);
    if t.len() < s.len() {
        lemma_strip_links_fully_stable(t);
    }
}

/// Removes the empty links of one line until none is left.
pub fn strip_links_fully_exec(s: &[char]) -> (r: Vec<char>)
    ensures
        r@ == strip_links_fully(s@),
{
    let mut cur = crate::text::copy_chars(s);
    loop
        invariant
            strip_links_fully(cur@) == strip_links_fully(s@),
        decreases cur.len(),
    {
        let t = strip_empty_links_exec(cur.as_slice());
        if t.len() < cur.len() {
            cur = t;
        } else {
            return cur;
        }
    }
}

/// Converted Markdown cleaned up: empty links removed, lines with text kept,
/// runs of blank lines collapsed to one, then trimmed.
pub open spec fn clean_markdown_spec(md: Seq<char>) -> Seq<char> {
    trim_spec(clean_fold(stripped_lines(md)).0)
}

/// No three newlines in a row.
pub open spec fn no_triple_newline(s: Seq<char>) -> bool {
    forall|i: int| 0 <= i && i + 2 < s.len() ==> !(#[trigger] s[i] == '\n' && s[i + 1] == '\n' && s[i + 2] == '\n')
}

fn push_str_chars(out: &mut Vec<char>, s: &str)
    ensures
        final(out)@ == old(out)@ + s@,
{
    let mut w = chars_of(s);
    out.append(&mut w);
}

fn push_vec_chars(out: &mut Vec<char>, s: &[char])
    ensures
        final(out)@ == old(out)@ + s@,
{
    let mut w = crate::text::copy_chars(s);
    out.append(&mut w);
}

proof fn lemma_strip_step_link(s: Seq<char>, i: int)
    requires
        s.len() >= 3,
        s[0] == '[' && s[1] == ']' && s[2] == '(',
        is_first_index(s.skip(3), ')', i),
    ensures
        strip_empty_links(s) == strip_empty_links(s.skip(3 + i + 1)),
{
    lemma_after_first_index(s.skip(3), ')', i);
    assert(s.skip(3).skip(i + 1) =~= s.skip(3 + i + 1));
}

/// Removes the empty links of one line.
pub fn strip_empty_links_exec(s: &[char]) -> (r: Vec<char>)
    ensures
        r@ == strip_empty_links(s@),
{
    let mut out: Vec<char> = Vec::new();
    let mut p: usize = 0;
    assert(s@.skip(0) =~= s@);
    while p < s.len()
        invariant
            p <= s.len(),
            out@ + strip_empty_links(s@.skip(p as int)) == strip_empty_links(s@),
        decreases s.len() - p,
    {
        let ghost rest = s@.skip(p as int);
        if s.len() - p >= 3 && s[p] == '[' && s[p + 1] == ']' && s[p + 2] == '(' {
            let tail = slice_chars(s, p + 3, s.len());
            match find_char(tail.as_slice(), ')') {
                Some(i) => {
                    proof {
                        assert(tail@ =~= rest.skip(3));
                        lemma_strip_step_link(rest, i as int);
                        assert(rest.skip(3 + i + 1) =~= s@.skip(p + 3 + i + 1));
                    }
                    p = p + 3 + i + 1;
                    continue;
                },
                None => {
                    proof {
                        assert(tail@ =~= rest.skip(3));
                        lemma_after_first_absent(rest.skip(3), ')');
                    }
                },
            }
        }
        proof {
            assert(rest.drop_first() =~= s@.skip(p + 1));
            assert(rest[0] == s@[p as int]);
            assert(strip_empty_links(rest) == seq![s@[p as int]] + strip_empty_links(s@.skip(p + 1)));
        }
        out.push(s[p]);
        proof {
            assert(out@ + strip_empty_links(s@.skip(p + 1)) =~= out@.drop_last() + (seq![s@[p as int]]
                + strip_empty_links(s@.skip(p + 1))));
        }
        p = p + 1;
    }
    assert(s@.skip(p as int) =~= Seq::<char>::empty());
    assert(out@ + Seq::<char>::empty() =~= out@);
    out
}

/// Removes empty links, collapses runs of blank lines in converted Markdown
/// and trims it.
pub fn clean_markdown(md: &str) -> (r: String)
    ensures
        r@ == clean_markdown_spec(md@),
{
    let raw = str_lines_exec(md);
    let ghost ls = stripped_lines(md@);
    let mut lines: Vec<Vec<char>> = Vec::new();
    let mut k: usize = 0;
    while k < raw.len()
        invariant
            k <= raw.len(),
            raw@.map_values(|l: Vec<char>| l@) == str_lines(md@),
            lines@.map_values(|l: Vec<char>| l@) == str_lines(md@).take(k as int).map_values(
                |l: Seq<char>| strip_links_fully(l),
            ),
        decreases raw.len() - k,
    {
        let t = strip_links_fully_exec(raw[k].as_slice());
        proof {
            assert(raw@[k as int]@ == str_lines(md@)[k as int]);
            assert(str_lines(md@).take(k + 1).map_values(|l: Seq<char>| strip_links_fully(l)) =~= str_lines(
                md@,
            ).take(k as int).map_values(|l: Seq<char>| strip_links_fully(l)).push(t@));
        }
        lines.push(t);
        proof {
            assert(lines@.map_values(|l: Vec<char>| l@) =~= str_lines(md@).take(k as int).map_values(
                |l: Seq<char>| strip_links_fully(l),
            ).push(t@));
        }
        k = k + 1;
    }
    assert(str_lines(md@).take(raw.len() as int) =~= str_lines(md@));
    assert(lines@.map_values(|l: Vec<char>| l@) == ls);
    let mut out: Vec<char> = Vec::new();
    let mut blanks: usize = 0;
    let mut i: usize = 0;
    assert(ls.take(0) =~= Seq::<Seq<char>>::empty());
    while i < lines.len()
        invariant
            i <= lines.len(),
            lines@.map_values(|l: Vec<char>| l@) == ls,
            (out@, blanks as nat) == clean_fold(ls.take(i as int)),
            blanks <= i,
        decreases lines.len() - i,
    {
        proof {
            assert(ls.take(i + 1).drop_last() =~= ls.take(i as int));
            assert(ls.take(i + 1).last() == ls[i as int]);
            assert(lines@[i as int]@ == ls[i as int]);
        }
        let t = trim_chars(lines[i].as_slice());
        if t.len() == 0 {
            blanks = blanks + 1;
        } else {
            if out.len() > 0 {
                if blanks > 0 {
                    push_str_chars(&mut out, "\n\n");
                } else {
                    push_str_chars(&mut out, "\n");
                }
            } else {
                assert(out@ + Seq::<char>::empty() =~= out@);
            }
            push_vec_chars(&mut out, lines[i].as_slice());
            blanks = 0;
        }
        i = i + 1;
    }
    assert(ls.take(lines.len() as int) =~= ls);
    let t = trim_chars(out.as_slice());
    string_from_chars(t.as_slice())
}

proof fn lemma_str_lines_no_newline(s: Seq<char>)
    ensures
        forall|i: int, j: int|
            0 <= i < str_lines(s).len() && 0 <= j < str_lines(s)[i].len() ==> #[trigger] str_lines(s)[i][j]
                != '\n',
{
    crate::text::lemma_lines_of_no_sep(s);
    crate::text::lemma_lines_of_nonempty(s);
    let segs = crate::text::lines_of(s);
    let out = str_lines(s);
    assert forall|i: int, j: int| 0 <= i < out.len() && 0 <= j < out[i].len() implies #[trigger] out[i][j]
        != '\n' by {
        if i < segs.len() - 1 {
            assert(out[i] == crate::text::strip_cr(segs[i]));
            assert(segs[i][j] != '\n');
        } else {
            assert(out[i] == segs.last());
            assert(segs[segs.len() - 1][j] != '\n');
        }
    }
}

proof fn lemma_clean_fold_props(lines: Seq<Seq<char>>)
    requires
        forall|i: int, j: int| 0 <= i < lines.len() && 0 <= j < lines[i].len() ==> #[trigger] lines[i][j] != '\n',
    ensures
        no_triple_newline(clean_fold(lines).0),
        clean_fold(lines).0.len() > 0 ==> clean_fold(lines).0.last() != '\n',
    decreases lines.len(),
{
    if lines.len() > 0 {
        let prev = lines.drop_last();
        assert forall|i: int, j: int| 0 <= i < prev.len() && 0 <= j < prev[i].len() implies #[trigger] prev[i][j]
            != '\n' by {
            assert(prev[i] == lines[i]);
        }
        lemma_clean_fold_props(prev);
        let (r, blanks) = clean_fold(prev);
        let line = lines.last();
        if trim_spec(line).len() != 0 {
            let sep: Seq<char> = if r.len() == 0 {
                seq![]
            } else if blanks > 0 {
                "\n\n"@
            } else {
                "\n"@
            };
            reveal_strlit("\n\n");
            reveal_strlit("\n");
            let out = r + sep + line;
            assert(line.len() > 0) by {
                if line.len() == 0 {
                    assert(trim_spec(line) =~= line) by {
                        crate::text::lemma_lead_ws_bound(line);
                        crate::text::lemma_trail_ws_bound(line);
                    }
                }
            }
            assert forall|j: int| 0 <= j < line.len() implies line[j] != '\n' by {
                assert(lines[lines.len() - 1][j] != '\n');
            }
            assert forall|i: int| 0 <= i && i + 2 < out.len() implies !(#[trigger] out[i] == '\n' && out[i + 1]
                == '\n' && out[i + 2] == '\n') by {
                if i + 2 < r.len() {
                    assert(out[i] == r[i] && out[i + 1] == r[i + 1] && out[i + 2] == r[i + 2]);
                } else if i + 2 >= r.len() + sep.len() {
                    assert(out[i + 2] == line[i + 2 - r.len() - sep.len()]);
                } else if i < r.len() {
                    // the window starts inside r and r does not end with a newline
                    assert(out[r.len() - 1] == r.last());
                } else {
                    // the window starts in sep: sep has at most two newlines, then the line follows
                    assert(sep.len() <= 2);
                    assert(i + 2 >= r.len() + sep.len());
                }
            }
            assert(out.last() == line.last());
        }
    }
}

proof fn lemma_strip_no_newline(s: Seq<char>)
    requires
        forall|j: int| 0 <= j < s.len() ==> s[j] != '\n',
    ensures
        forall|j: int| 0 <= j < strip_empty_links(s).len() ==> #[trigger] strip_empty_links(s)[j] != '\n',
    decreases s.len(),
{
    if s.len() > 0 {
        if s.len() >= 3 && s[0] == '[' && s[1] == ']' && s[2] == '(' && after_first(s.skip(3), ')') is Some {
            lemma_after_first_shorter(s.skip(3), ')');
            lemma_after_first_suffix(s.skip(3), ')');
            let r = after_first(s.skip(3), ')')->0;
            assert forall|j: int| 0 <= j < r.len() implies r[j] != '\n' by {
                assert(r[j] == s.skip(3)[s.skip(3).len() - r.len() + j]);
            }
            lemma_strip_no_newline(r);
            assert(strip_empty_links(s) == strip_empty_links(r));
        } else {
            let d = s.drop_first();
            assert forall|j: int| 0 <= j < d.len() implies d[j] != '\n' by {
                assert(d[j] == s[j + 1]);
            }
            lemma_strip_no_newline(d);
            let t = seq![s[0]] + strip_empty_links(d);
            assert forall|j: int| 0 <= j < t.len() implies t[j] != '\n' by {
                if j > 0 {
                    assert(t[j] == strip_empty_links(d)[j - 1]);
                }
            }
            assert(strip_empty_links(s) == t);
        }
    }
}

proof fn lemma_strip_fully_no_newline(s: Seq<char>)
    requires
        forall|j: int| 0 <= j < s.len() ==> s[j] != '\n',
    ensures
        forall|j: int| 0 <= j < strip_links_fully(s).len() ==> #[trigger] strip_links_fully(s)[j] != '\n',
    decreases s.len(),
{
    let t = strip_empty_links(s);
    if t.len() < s.len() {
        lemma_strip_no_newline(s);
        assert forall|j: int| 0 <= j < t.len() implies t[j] != '\n' by {
            assert(t[j] != '\n');
        }
        lemma_strip_fully_no_newline(t);
        assert(strip_links_fully(s) == strip_links_fully(t));
    } else {
        assert(strip_links_fully(s) == s);
    }
}

/// What `after_first` leaves is a suffix of the text.
proof fn lemma_after_first_suffix(s: Seq<char>, c: char)
    ensures
        after_first(s, c) matches Some(r) ==> r =~= s.skip(s.len() - r.len()),
    decreases s.len(),
{
    if s.len() > 0 && s[0] != c {
        lemma_after_first_suffix(s.drop_first(), c);
        lemma_after_first_shorter(s.drop_first(), c);
        if after_first(s.drop_first(), c) is Some {
            let r = after_first(s.drop_first(), c)->0;
            assert(s.drop_first().skip(s.drop_first().len() - r.len()) =~= s.skip(s.len() - r.len()));
        }
    }
}

/// Cleaned Markdown never holds three newlines in a row.
pub proof fn lemma_clean_markdown_collapses(md: Seq<char>)
    ensures
        no_triple_newline(clean_markdown_spec(md)),
{
    lemma_str_lines_no_newline(md);
    let raw = str_lines(md);
    let lines = stripped_lines(md);
    assert forall|i: int, j: int| 0 <= i < lines.len() && 0 <= j < lines[i].len() implies #[trigger] lines[i][j]
        != '\n' by {
        assert forall|k: int| 0 <= k < raw[i].len() implies raw[i][k] != '\n' by {
            assert(raw[i][k] != '\n');
        }
        lemma_strip_fully_no_newline(raw[i]);
    }
    lemma_clean_fold_props(lines);
    let r = clean_fold(lines).0;
    let t = trim_spec(r);
    crate::text::lemma_trim_is_subrange(r);
    assert forall|i: int| 0 <= i && i + 2 < t.len() implies !(#[trigger] t[i] == '\n' && t[i + 1] == '\n' && t[i
        + 2] == '\n') by {
        let k = crate::text::lead_ws(r) as int;
        assert(t[i] == r[k + i] && t[i + 1] == r[k + i + 1] && t[i + 2] == r[k + i + 2]);
    }
}

/// A text cut to at most `max_bytes` bytes of UTF-8, at a character boundary.
pub open spec fn truncate_utf8_spec(s: Seq<char>, max_bytes: int) -> Seq<char> {
    s.take(fit_count(s, max_bytes) as int)
}

pub fn truncate_utf8(s: &str, max_bytes: usize) -> (r: String)
    ensures
        r@ == truncate_utf8_spec(s@, max_bytes as int),
{
    let v = chars_of(s);
    let f = fit_from(v.as_slice(), 0, max_bytes);
    assert(v@.skip(0) =~= v@);
    let p = slice_chars(v.as_slice(), 0, f);
    assert(p@ =~= s@.take(f as int));
    string_from_chars(p.as_slice())
}

/// The pieces of `s` between whitespace characters (empty pieces included).
pub open spec fn split_ws(s: Seq<char>) -> Seq<Seq<char>>
    decreases s.len(),
{
    if s.len() == 0 {
        seq![seq![]]
    } else if is_ws(s.last()) {
        split_ws(s.drop_last()).push(seq![])
    } else {
        let ls = split_ws(s.drop_last());
        ls.update(ls.len() - 1, ls.last().push(s.last()))
    }
}

proof fn lemma_split_ws_nonempty(s: Seq<char>)
    ensures
        split_ws(s).len() >= 1,
    decreases s.len(),
{
    if s.len() > 0 {
        lemma_split_ws_nonempty(s.drop_last());
    }
}

/// The non-empty pieces, in order.
pub open spec fn nonempty_pieces(ps: Seq<Seq<char>>) -> Seq<Seq<char>>
    decreases ps.len(),
{
    if ps.len() == 0 {
        seq![]
    } else if ps.last().len() == 0 {
        nonempty_pieces(ps.drop_last())
    } else {
        nonempty_pieces(ps.drop_last()).push(ps.last())
    }
}

/// `split_whitespace` joined by single spaces.
pub open spec fn normalize_ws_spec(s: Seq<char>) -> Seq<char> {
    join_spec(nonempty_pieces(split_ws(s)), " "@)
}

pub(crate) fn normalize_ws(s: &[char]) -> (r: Vec<char>)
    ensures
        r@ == normalize_ws_spec(s@),
{
    let mut words: Vec<String> = Vec::new();
    let mut cur: Vec<char> = Vec::new();
    let mut i: usize = 0;
    assert(s@.take(0) =~= Seq::<char>::empty());
    while i < s.len()
        invariant
            i <= s.len(),
            split_ws(s@.take(i as int)).last() == cur@,
            words@.map_values(|w: String| w@) == nonempty_pieces(split_ws(s@.take(i as int)).drop_last()),
        decreases s.len() - i,
    {
        let c = s[i];
        let ghost prev = split_ws(s@.take(i as int));
        proof {
            assert(s@.take(i + 1).drop_last() =~= s@.take(i as int));
            assert(s@.take(i + 1).last() == c);
            lemma_split_ws_nonempty(s@.take(i as int));
        }
        if is_whitespace(c) {
            let ghost before = words@.map_values(|w: String| w@);
            if cur.len() > 0 {
                let w = string_from_chars(cur.as_slice());
                words.push(w);
                assert(words@.map_values(|w: String| w@) =~= before.push(cur@));
            }
            proof {
                let now = split_ws(s@.take(i + 1));
                assert(now.drop_last() =~= prev);
                assert(prev =~= prev.drop_last().push(prev.last()));
            }
            cur = Vec::new();
        } else {
            cur.push(c);
            proof {
                let now = split_ws(s@.take(i + 1));
                assert(now.drop_last() =~= prev.drop_last());
            }
        }
        i = i + 1;
    }
    assert(s@.take(s.len() as int) =~= s@);
    proof {
        lemma_split_ws_nonempty(s@);
        let ps = split_ws(s@);
        assert(ps =~= ps.drop_last().push(ps.last()));
    }
    if cur.len() > 0 {
        let ghost before = words@.map_values(|w: String| w@);
        let w = string_from_chars(cur.as_slice());
        words.push(w);
        assert(words@.map_values(|w: String| w@) =~= before.push(cur@));
    }
    let sp = chars_of(" ");
    join_strings(words.as_slice(), sp.as_slice())
}

/// The tags whose content is left out of a page's Markdown: scripts, styles,
/// navigation and page furniture, and embedded frames.
pub open spec fn skipped_tags_spec() -> Seq<Seq<char>> {
    seq!["script"@, "style"@, "nav"@, "footer"@, "header"@, "aside"@, "noscript"@, "iframe"@]
}

fn skipped_tags() -> (r: Vec<String>)
    ensures
        r@.map_values(|t: String| t@) == skipped_tags_spec(),
{
    let mut v: Vec<String> = Vec::new();
    v.push("script".to_owned());
    v.push("style".to_owned());
    v.push("nav".to_owned());
    v.push("footer".to_owned());
    v.push("header".to_owned());
    v.push("aside".to_owned());
    v.push("noscript".to_owned());
    v.push("iframe".to_owned());
    assert(v@.map_values(|t: String| t@) =~= skipped_tags_spec());
    v
}

/// The Markdown `htmd` makes of a page with the given tags skipped; `None`
/// when it fails.
pub uninterp spec fn htmd_markdown_of(html: Seq<char>, skip_tags: Seq<Seq<char>>) -> Option<Seq<char>>;

/// `htmd::HtmlToMarkdown::builder().skip_tags(..).build()`, then `convert`:
/// named, the result depends on the page and the skipped tags alone.
#[verifier::external_body]
fn htmd_convert(html: &str, skip_tags: &Vec<String>) -> (r: Option<String>)
    ensures
        r matches Some(m) ==> htmd_markdown_of(html@, skip_tags@.map_values(|t: String| t@)) == Some(m@),
        r is None ==> htmd_markdown_of(html@, skip_tags@.map_values(|t: String| t@)) is None,
{
    let tags: Vec<&str> = skip_tags.iter().map(|t| t.as_str()).collect();
    let converter = htmd::HtmlToMarkdown::builder().skip_tags(tags).build();
    converter.convert(html).ok()
}

/// The text nodes of the first element of a page that matches a CSS
/// selector; `None` when the selector does not parse or nothing matches.
pub uninterp spec fn selected_text_of(html: Seq<char>, selector: Seq<char>) -> Option<Seq<Seq<char>>>;

/// `scraper::Html::parse_document`, `Selector::parse`, the first `select`
/// match and its `text()` nodes: named, the result depends on its arguments alone.
#[verifier::external_body]
pub(crate) fn select_first_text(html: &str, selector: &str) -> (r: Option<Vec<String>>)
    ensures
        r matches Some(v) ==> selected_text_of(html@, selector@) == Some(v@.map_values(|s: String| s@)),
        r is None ==> selected_text_of(html@, selector@) is None,
{
    let document = scraper::Html::parse_document(html);
    let sel = scraper::Selector::parse(selector).ok()?;
    let element = document.select(&sel).next()?;
    Some(element.text().map(|t| t.to_string()).collect())
}

/// The text nodes of a whole page.
pub uninterp spec fn page_text_of(html: Seq<char>) -> Seq<Seq<char>>;

/// `scraper::Html::parse_document`, then the `text()` nodes of its root
/// element: named, the result depends on the page alone.
#[verifier::external_body]
pub(crate) fn page_text(html: &str) -> (r: Vec<String>)
    ensures
        r@.map_values(|s: String| s@) == page_text_of(html@),
{
    let document = scraper::Html::parse_document(html);
    document.root_element().text().map(|t| t.to_string()).collect()
}

/// The selectors tried for a page's main text, in order.
pub open spec fn fallback_selector(k: int) -> Seq<char> {
    if k == 0 {
        "article"@
    } else if k == 1 {
        "main"@
    } else if k == 2 {
        "[role=\"main\"]"@
    } else if k == 3 {
        ".content"@
    } else if k == 4 {
        "#content"@
    } else {
        "body"@
    }
}

/// The normalized text of the `k`-th selector when it is longer than 100
/// bytes.
pub open spec fn selector_text(html: Seq<char>, k: int) -> Option<Seq<char>> {
    match selected_text_of(html, fallback_selector(k)) {
        Some(nodes) => {
            let t = normalize_ws_spec(join_spec(nodes, " "@));
            if byte_len(t) > 100 {
                Some(t)
            } else {
                None
            }
        },
        None => None,
    }
}

/// The plain text of a page: from the first selector whose text is long
/// enough, else from the whole page.
pub open spec fn fallback_from(html: Seq<char>, k: nat) -> Seq<char>
    decreases 6 - k,
{
    if k >= 6 {
        normalize_ws_spec(join_spec(page_text_of(html), " "@))
    } else {
        match selector_text(html, k as int) {
            Some(t) => t,
            None => fallback_from(html, k + 1),
        }
    }
}

fn selector_name(k: usize) -> (r: &'static str)
    requires
        k < 6,
    ensures
        r@ == fallback_selector(k as int),
{
    if k == 0 {
        "article"
    } else if k == 1 {
        "main"
    } else if k == 2 {
        "[role=\"main\"]"
    } else if k == 3 {
        ".content"
    } else if k == 4 {
        "#content"
    } else {
        "body"
    }
}

/// The text of a page when `htmd` fails.
pub fn extract_text_fallback(html: &str) -> (r: String)
    ensures
        r@ == fallback_from(html@, 0),
{
    let sp = chars_of(" ");
    let mut k: usize = 0;
    while k < 6
        invariant
            k <= 6,
            sp@ == " "@,
            fallback_from(html@, 0) == fallback_from(html@, k as nat),
        decreases 6 - k,
    {
        let sel = selector_name(k);
        match select_first_text(html, sel) {
            Some(nodes) => {
                let joined = join_strings(nodes.as_slice(), sp.as_slice());
                let t = normalize_ws(joined.as_slice());
                if !fits_in_bytes(t.as_slice(), 100) {
                    return string_from_chars(t.as_slice());
                }
            },
            None => {},
        }
        k = k + 1;
    }
    let nodes = page_text(html);
    let joined = join_strings(nodes.as_slice(), sp.as_slice());
    let t = normalize_ws(joined.as_slice());
    string_from_chars(t.as_slice())
}

/// A page as Markdown: `htmd`'s conversion with the skipped tags left out,
/// cleaned up, or the plain text when the conversion fails.
pub open spec fn html_to_markdown_spec(html: Seq<char>) -> Seq<char> {
    match htmd_markdown_of(html, skipped_tags_spec()) {
        Some(m) => clean_markdown_spec(m),
        None => fallback_from(html, 0),
    }
}

pub fn html_to_markdown(html: &str) -> (r: String)
    ensures
        r@ == html_to_markdown_spec(html@),
{
    let skip = skipped_tags();
    match htmd_convert(html, &skip) {
        Some(m) => clean_markdown(m.as_str()),
        None => extract_text_fallback(html),
    }
}

/// The pretty-printed form of a JSON text; `None` when it is not JSON.
pub uninterp spec fn pretty_json_of(body: Seq<char>) -> Option<Seq<char>>;

/// `serde_json::from_str::<Value>` then `serde_json::to_string_pretty`:
/// named, the result depends on the text alone.
#[verifier::external_body]
pub(crate) fn pretty_json_line(body: &str) -> (r: Option<String>)
    ensures
        r matches Some(p) ==> pretty_json_of(body@) == Some(p@),
        r is None ==> pretty_json_of(body@) is None,
{
    let v = serde_json::from_str::<serde_json::Value>(body).ok()?;
    serde_json::to_string_pretty(&v).ok()
}

/// What a fetched body becomes, by content type: Markdown served as such
/// (flagged), HTML converted, JSON pretty-printed, anything else as it is.
pub open spec fn body_markdown_spec(content_type: Seq<char>, body: Seq<char>) -> (Seq<char>, bool) {
    if has_infix(content_type, "text/markdown"@) {
        (body, true)
    } else if has_infix(content_type, "text/html"@) {
        (html_to_markdown_spec(body), false)
    } else if has_infix(content_type, "application/json"@) {
        (
            match pretty_json_of(body) {
                Some(p) => p,
                None => body,
            },
            false,
        )
    } else {
        (body, false)
    }
}

/// The Markdown of a fetched body, cut to `max_bytes` bytes, and whether the
/// server sent Markdown itself.
pub fn markdown_from_body(content_type: &str, body: String, max_bytes: usize) -> (r: (String, bool))
    ensures
        r.0@ == truncate_utf8_spec(body_markdown_spec(content_type@, body@).0, max_bytes as int),
        r.1 == body_markdown_spec(content_type@, body@).1,
{
    let ct = chars_of(content_type);
    let md = chars_of("text/markdown");
    let html = chars_of("text/html");
    let json = chars_of("application/json");
    let (text, server) = if contains_chars(ct.as_slice(), md.as_slice()) {
        (body, true)
    } else if contains_chars(ct.as_slice(), html.as_slice()) {
        (html_to_markdown(body.as_str()), false)
    } else if contains_chars(ct.as_slice(), json.as_slice()) {
        match pretty_json_line(body.as_str()) {
            Some(p) => (p, false),
            None => (body, false),
        }
    } else {
        (body, false)
    };
    (truncate_utf8(text.as_str(), max_bytes), server)
}

} // verus!
