//! Weixin (iLink bot) channel: message splitting, inbound message shaping,
//! the polling loop's decisions and the identifiers sent with each request.

use vstd::prelude::*;
use vstd::utf8::*;
use crate::crypto::{base64_encode, base64_std};
use crate::numbers::{decimal_chars, decimal_spec, hex8_chars, hex_padded_spec};
use crate::text::{
    chars_eq, chars_of, join_spec, join_strings, lemma_split_last_absent, lemma_split_last_index,
    slice_chars, split_last, string_from_chars, trim_spec, trim_str,
};

verus! {

/// Bytes of the UTF-8 encoding of one character.
pub open spec fn char_width(c: char) -> nat {
    encode_scalar(c as u32).len()
}

/// Bytes of the UTF-8 encoding of a character sequence (`str::len`).
pub open spec fn byte_len(s: Seq<char>) -> nat {
    encode_utf8(s).len()
}

pub proof fn lemma_encode_concat(a: Seq<char>, b: Seq<char>)
    ensures
        encode_utf8(a + b) == encode_utf8(a) + encode_utf8(b),
    decreases a.len(),
{
    if a.len() == 0 {
        assert(a + b =~= b);
        assert(encode_utf8(a) =~= Seq::<u8>::empty());
        assert(encode_utf8(a) + encode_utf8(b) =~= encode_utf8(b));
    } else {
        lemma_encode_concat(a.drop_first(), b);
        assert((a + b).drop_first() =~= a.drop_first() + b);
        assert((a + b)[0] == a[0]);
        assert(encode_scalar(a[0] as u32) + (encode_utf8(a.drop_first()) + encode_utf8(b))
            =~= (encode_scalar(a[0] as u32) + encode_utf8(a.drop_first())) + encode_utf8(b));
    }
}

/// The encoded length of a prefix one character longer.
pub proof fn lemma_byte_len_take_next(s: Seq<char>, k: int)
    requires
        0 <= k < s.len(),
    ensures
        byte_len(s.take(k + 1)) == byte_len(s.take(k)) + char_width(s[k]),
{
    assert(s.take(k + 1) =~= s.take(k) + seq![s[k]]);
    lemma_encode_concat(s.take(k), seq![s[k]]);
    lemma_encode_single(s[k]);
}

pub proof fn lemma_encode_single(c: char)
    ensures
        encode_utf8(seq![c]) == encode_scalar(c as u32),
{
    reveal_with_fuel(encode_utf8, 2);
    assert(seq![c].drop_first() =~= Seq::<char>::empty());
    assert(encode_scalar(c as u32) + Seq::<u8>::empty() =~= encode_scalar(c as u32));
}

pub proof fn lemma_byte_len_split(s: Seq<char>, k: int)
    requires
        0 <= k <= s.len(),
    ensures
        byte_len(s) == byte_len(s.take(k)) + byte_len(s.skip(k)),
{
    assert(s =~= s.take(k) + s.skip(k));
    lemma_encode_concat(s.take(k), s.skip(k));
}

pub proof fn lemma_byte_len_take_mono(s: Seq<char>, a: int, b: int)
    requires
        0 <= a <= b <= s.len(),
    ensures
        byte_len(s.take(a)) <= byte_len(s.take(b)),
{
    lemma_byte_len_split(s.take(b), a);
    assert(s.take(b).take(a) =~= s.take(a));
}

/// One character takes one to four bytes.
pub proof fn lemma_char_width_range(c: char)
    ensures
        1 <= char_width(c) <= 4,
{
    char_is_scalar(c);
}

/// Greedy count of leading characters whose encoding fits in `max` bytes.
pub open spec fn fit_count(s: Seq<char>, max: int) -> nat
    decreases s.len(),
{
    if s.len() == 0 || char_width(s[0]) > max {
        0
    } else {
        1 + fit_count(s.drop_first(), max - char_width(s[0]))
    }
}

/// `k` is the length of the longest prefix of `s` that fits in `max` bytes.
pub open spec fn is_fit(s: Seq<char>, max: int, k: int) -> bool {
    &&& 0 <= k <= s.len()
    &&& byte_len(s.take(k)) <= max
    &&& (k == s.len() || byte_len(s.take(k + 1)) > max)
}

pub proof fn lemma_fit_count_is_fit(s: Seq<char>, max: int)
    requires
        max >= 0,
    ensures
        is_fit(s, max, fit_count(s, max) as int),
    decreases s.len(),
{
    assert(s.take(0) =~= Seq::<char>::empty());
    if s.len() == 0 {
    } else if char_width(s[0]) > max {
        lemma_byte_len_take_next(s, 0);
    } else {
        let w = char_width(s[0]);
        let r = s.drop_first();
        let f = fit_count(r, max - w) as int;
        lemma_fit_count_is_fit(r, max - w);
        assert(s.take(f + 1) =~= seq![s[0]] + r.take(f));
        lemma_encode_concat(seq![s[0]], r.take(f));
        lemma_encode_single(s[0]);
        if f < r.len() {
            assert(s.take(f + 2) =~= seq![s[0]] + r.take(f + 1));
            lemma_encode_concat(seq![s[0]], r.take(f + 1));
        }
    }
}

pub proof fn lemma_fit_unique(s: Seq<char>, max: int, k1: int, k2: int)
    requires
        is_fit(s, max, k1),
        is_fit(s, max, k2),
    ensures
        k1 == k2,
{
    if k1 < k2 {
        lemma_byte_len_take_mono(s, k1 + 1, k2);
    } else if k2 < k1 {
        lemma_byte_len_take_mono(s, k2 + 1, k1);
    }
}

/// Characters in the next chunk: the longest prefix that fits, cut after
/// its last newline when it has one, and one character when nothing fits.
pub open spec fn chunk_len(s: Seq<char>, max: int) -> int {
    let f = fit_count(s, max) as int;
    let k = match split_last(s.take(f), '\n') {
        Some((before, _)) => before.len() + 1int,
        None => f,
    };
    if k == 0 {
        1
    } else {
        k
    }
}

pub proof fn lemma_chunk_len_bounds(s: Seq<char>, max: int)
    requires
        s.len() > 0,
        max >= 0,
    ensures
        1 <= chunk_len(s, max) <= s.len(),
{
    let f = fit_count(s, max) as int;
    lemma_fit_count_is_fit(s, max);
    let p = s.take(f);
    match split_last(p, '\n') {
        Some((before, after)) => {
            lemma_split_last_len(p, '\n');
        },
        None => {},
    }
}

proof fn lemma_split_last_len(s: Seq<char>, c: char)
    requires
        split_last(s, c) is Some,
    ensures
        match split_last(s, c) {
            Some((before, _)) => before.len() < s.len(),
            None => true,
        },
    decreases s.len(),
{
    if s.len() > 0 && s.last() != c {
        lemma_split_last_len(s.drop_last(), c);
    }
}

/// The chunks of a text that does not fit in one message, in order.
pub open spec fn split_rest(s: Seq<char>, max: int) -> Seq<Seq<char>>
    decreases s.len(),
{
    if s.len() == 0 || max < 0 {
        seq![]
    } else if byte_len(s) <= max {
        seq![s]
    } else {
        let k = chunk_len(s, max);
        proof {
            lemma_chunk_len_bounds(s, max);
        }
        seq![s.take(k)] + split_rest(s.skip(k), max)
    }
}

/// What `split_message` returns: the text whole when it fits in `max` bytes,
/// else its chunks.
pub open spec fn split_message_spec(s: Seq<char>, max: int) -> Seq<Seq<char>> {
    if byte_len(s) <= max {
        seq![s]
    } else {
        split_rest(s, max)
    }
}

/// All the chunks, one after the other.
pub open spec fn concat_all(chunks: Seq<Seq<char>>) -> Seq<char>
    decreases chunks.len(),
{
    if chunks.len() == 0 {
        seq![]
    } else {
        chunks[0] + concat_all(chunks.drop_first())
    }
}

/// A chunk is no longer than the limit, unless it is a single character
/// that alone exceeds it.
pub open spec fn chunk_fits(c: Seq<char>, max: int) -> bool {
    byte_len(c) <= max || c.len() == 1
}

proof fn lemma_chunk_fits(s: Seq<char>, max: int)
    requires
        s.len() > 0,
        max >= 0,
    ensures
        chunk_fits(s.take(chunk_len(s, max)), max),
{
    let f = fit_count(s, max) as int;
    lemma_fit_count_is_fit(s, max);
    lemma_chunk_len_bounds(s, max);
    let k = chunk_len(s, max);
    let p = s.take(f);
    match split_last(p, '\n') {
        Some((before, after)) => {
            lemma_split_last_len(p, '\n');
        },
        None => {
            if f == 0 {
                assert(p =~= Seq::<char>::empty());
            }
        },
    }
    if k <= f {
        lemma_byte_len_take_mono(s, k, f);
    }
}

proof fn lemma_split_rest_props(s: Seq<char>, max: int)
    requires
        max >= 0,
    ensures
        concat_all(split_rest(s, max)) == s,
        forall|i: int|
            0 <= i < split_rest(s, max).len() ==> {
                &&& chunk_fits(#[trigger] split_rest(s, max)[i], max)
                &&& split_rest(s, max)[i].len() > 0
            },
    decreases s.len(),
{
    if s.len() == 0 {
        assert(concat_all(seq![]) =~= s);
    } else if byte_len(s) <= max {
        reveal_with_fuel(concat_all, 2);
        assert(seq![s].drop_first() =~= Seq::<Seq<char>>::empty());
        assert(s + Seq::<char>::empty() =~= s);
    } else {
        let k = chunk_len(s, max);
        lemma_chunk_len_bounds(s, max);
        lemma_chunk_fits(s, max);
        lemma_split_rest_props(s.skip(k), max);
        let out = split_rest(s, max);
        assert(out.drop_first() =~= split_rest(s.skip(k), max));
        assert(s.take(k) + s.skip(k) =~= s);
        assert forall|i: int| 0 <= i < out.len() implies {
            &&& chunk_fits(#[trigger] out[i], max)
            &&& out[i].len() > 0
        } by {
            if i > 0 {
                assert(out[i] == split_rest(s.skip(k), max)[i - 1]);
            }
        }
    }
}

/// The chunks of a split message, put back together, are the message; no
/// chunk is empty unless the message is; a chunk is no longer than the limit
/// unless it is one character that alone exceeds it, which no character does
/// once the limit is four bytes or more.
pub proof fn lemma_split_message_laws(s: Seq<char>, max: int)
    requires
        max >= 0,
    ensures
        concat_all(split_message_spec(s, max)) == s,
        split_message_spec(s, max).len() >= 1,
        forall|i: int|
            0 <= i < split_message_spec(s, max).len() ==> {
                &&& chunk_fits(#[trigger] split_message_spec(s, max)[i], max)
                &&& (max >= 4 ==> byte_len(split_message_spec(s, max)[i]) <= max)
                &&& (s.len() > 0 ==> split_message_spec(s, max)[i].len() > 0)
            },
{
    let out = split_message_spec(s, max);
    if byte_len(s) <= max {
        reveal_with_fuel(concat_all, 2);
        assert(seq![s].drop_first() =~= Seq::<Seq<char>>::empty());
        assert(s + Seq::<char>::empty() =~= s);
    } else {
        lemma_split_rest_props(s, max);
        if s.len() == 0 {
            assert(encode_utf8(s) =~= Seq::<u8>::empty());
        }
        assert(out.len() >= 1);
    }
    assert forall|i: int| 0 <= i < out.len() implies {
        &&& chunk_fits(#[trigger] out[i], max)
        &&& (max >= 4 ==> byte_len(out[i]) <= max)
        &&& (s.len() > 0 ==> out[i].len() > 0)
    } by {
        if byte_len(s) <= max {
            assert(out[i] == s);
        }
        if out[i].len() == 1 {
            lemma_char_width_range(out[i][0]);
            lemma_encode_single(out[i][0]);
            assert(out[i] =~= seq![out[i][0]]);
        }
    }
}

/// Bytes of one character, from its code point.
fn char_width_exec(c: char) -> (w: usize)
    ensures
        w == char_width(c),
        1 <= w <= 4,
{
    proof {
        char_is_scalar(c);
    }
    let u = c as u32;
    if u <= 0x7F {
        1
    } else if u <= 0x7FF {
        2
    } else if u <= 0xFFFF {
        3
    } else {
        4
    }
}

/// Length of the longest prefix of `v[from..]` that fits in `max` bytes.
pub fn fit_from(v: &[char], from: usize, max: usize) -> (f: usize)
    requires
        from <= v.len(),
    ensures
        f == fit_count(v@.skip(from as int), max as int),
        from + f <= v.len(),
{
    let ghost s = v@.skip(from as int);
    let mut j: usize = 0;
    let mut acc: usize = 0;
    assert(s.take(0) =~= Seq::<char>::empty());
    while from + j < v.len()
        invariant
            from <= v.len(),
            s == v@.skip(from as int),
            from + j <= v.len(),
            acc <= max,
            acc == byte_len(s.take(j as int)),
        ensures
            from + j <= v.len(),
            byte_len(s.take(j as int)) <= max,
            from + j == v.len() || byte_len(s.take(j + 1)) > max,
        decreases v.len() - from - j,
    {
        let w = char_width_exec(v[from + j]);
        proof {
            assert(s[j as int] == v@[from + j]);
            lemma_byte_len_take_next(s, j as int);
        }
        if w > max - acc {
            break;
        }
        acc = acc + w;
        j = j + 1;
    }
    proof {
        lemma_fit_count_is_fit(s, max as int);
        lemma_fit_unique(s, max as int, j as int, fit_count(s, max as int) as int);
    }
    j
}

/// Whether a text takes at most `max` bytes of UTF-8.
pub fn fits_in_bytes(v: &[char], max: usize) -> (r: bool)
    ensures
        r == (byte_len(v@) <= max),
{
    let f = fit_from(v, 0, max);
    proof {
        let s = v@;
        assert(s.skip(0) =~= s);
        lemma_fit_count_is_fit(s, max as int);
        assert(s.take(s.len() as int) =~= s);
        if byte_len(s) <= max {
            lemma_fit_unique(s, max as int, f as int, s.len() as int);
        }
    }
    f == v.len()
}

/// Index just after the last newline of `v[from..from + f]`, relative to `from`.
fn newline_cut(v: &[char], from: usize, f: usize) -> (k: usize)
    requires
        from + f <= v.len(),
    ensures
        k == (match split_last(v@.skip(from as int).take(f as int), '\n') {
            Some((before, _)) => before.len() + 1int,
            None => f as int,
        }),
{
    let ghost p = v@.skip(from as int).take(f as int);
    let mut i: usize = f;
    while i > 0
        invariant
            from + f <= v.len(),
            i <= f,
            p == v@.skip(from as int).take(f as int),
            forall|j: int| i <= j < f ==> p[j] != '\n',
        decreases i,
    {
        if v[from + i - 1] == '\n' {
            proof {
                assert(p[i - 1] == v@[from + i - 1]);
                lemma_split_last_index(p, '\n', i - 1);
            }
            return i;
        }
        assert(p[i - 1] == v@[from + i - 1]);
        i = i - 1;
    }
    proof {
        lemma_split_last_absent(p, '\n');
    }
    f
}

/// Splits a text into chunks of at most `max_len` UTF-8 bytes, never inside a
/// character, cutting after the last newline that fits when there is one.
pub fn split_message(text: &str, max_len: usize) -> (r: Vec<String>)
    ensures
        r@.map_values(|s: String| s@) == split_message_spec(text@, max_len as int),
{
    let v = chars_of(text);
    let ghost s = text@;
    let ghost m = max_len as int;
    if v.len() == 0 {
        let mut r: Vec<String> = Vec::new();
        r.push(string_from_chars(v.as_slice()));
        assert(r@.map_values(|x: String| x@) =~= seq![s]);
        assert(encode_utf8(s) =~= Seq::<u8>::empty());
        return r;
    }
    let mut r: Vec<String> = Vec::new();
    let mut pos: usize = 0;
    assert(s.skip(0) =~= s);
    assert(r@.map_values(|x: String| x@) + split_rest(s, m) =~= split_rest(s, m));
    while pos < v.len()
        invariant_except_break
            v@ == s,
            m == max_len as int,
            pos <= v.len(),
            split_rest(s, m) == r@.map_values(|x: String| x@) + split_rest(s.skip(pos as int), m),
        ensures
            r@.map_values(|x: String| x@) == split_rest(s, m),
        decreases v.len() - pos,
    {
        let ghost rest = s.skip(pos as int);
        let ghost before = r@.map_values(|x: String| x@);
        let f = fit_from(v.as_slice(), pos, max_len);
        proof {
            lemma_fit_count_is_fit(rest, m);
        }
        if f == v.len() - pos {
            let piece = slice_chars(v.as_slice(), pos, v.len());
            proof {
                assert(rest.take(f as int) =~= rest);
                assert(piece@ =~= rest);
            }
            r.push(string_from_chars(piece.as_slice()));
            proof {
                assert(r@.map_values(|x: String| x@) =~= before.push(rest));
                assert(split_rest(rest, m) == seq![rest]);
                assert(before + seq![rest] =~= before.push(rest));
            }
            break;
        }
        proof {
            if byte_len(rest) <= m {
                assert(rest.take(rest.len() as int) =~= rest);
                lemma_fit_unique(rest, m, f as int, rest.len() as int);
            }
        }
        let nk = newline_cut(v.as_slice(), pos, f);
        let k: usize = if nk == 0 { 1 } else { nk };
        proof {
            assert(k == chunk_len(rest, m));
            lemma_chunk_len_bounds(rest, m);
        }
        let piece = slice_chars(v.as_slice(), pos, pos + k);
        proof {
            assert(piece@ =~= rest.take(k as int));
            assert(rest.skip(k as int) =~= s.skip(pos + k));
        }
        r.push(string_from_chars(piece.as_slice()));
        pos = pos + k;
        proof {
            assert(r@.map_values(|x: String| x@) =~= before.push(rest.take(k as int)));
            assert(split_rest(rest, m) == seq![rest.take(k as int)] + split_rest(rest.skip(k as int), m));
            assert(before + split_rest(rest, m) =~= before.push(rest.take(k as int)) + split_rest(s.skip(pos as int), m));
        }
    }
    r
}

} // verus!

verus! {

/// One item of an inbound message, as the API sends it: its type, the text of
/// a text item, the transcript of a voice item and the title of a quoted message.
#[derive(Debug, Clone)]
pub struct WeixinItem {
    pub item_type: i32,
    pub text: Option<String>,
    pub voice_text: Option<String>,
    pub ref_title: Option<String>,
}

/// An inbound message from `getupdates`.
#[derive(Debug, Clone)]
pub struct WeixinMessage {
    pub message_type: i32,
    pub from_user_id: String,
    pub context_token: Option<String>,
    pub items: Vec<WeixinItem>,
}

/// What a handled message is passed on as.
#[derive(Debug, Clone)]
pub struct WeixinInbound {
    pub sender_id: String,
    pub chat_id: String,
    pub content: String,
    pub context_token: String,
}

/// An empty allow list admits everyone; otherwise the sender must be listed.
pub open spec fn weixin_allowed_spec(allow_from: Seq<Seq<char>>, from: Seq<char>) -> bool {
    allow_from.len() == 0 || exists|i: int| 0 <= i < allow_from.len() && #[trigger] allow_from[i] == from
}

pub fn is_allowed(allow_from: &[String], from: &str) -> (r: bool)
    ensures
        r == weixin_allowed_spec(allow_from@.map_values(|s: String| s@), from@),
{
    let ghost list = allow_from@.map_values(|s: String| s@);
    if allow_from.len() == 0 {
        return true;
    }
    let f = chars_of(from);
    let mut i: usize = 0;
    while i < allow_from.len()
        invariant
            i <= allow_from.len(),
            list == allow_from@.map_values(|s: String| s@),
            f@ == from@,
            forall|j: int| 0 <= j < i ==> list[j] != from@,
        decreases allow_from.len() - i,
    {
        let a = chars_of(allow_from[i].as_str());
        if chars_eq(a.as_slice(), f.as_slice()) {
            assert(list[i as int] == a@);
            return true;
        }
        i = i + 1;
    }
    false
}

/// `Some(s)` with `s` non-empty, as a one-element list; else nothing.
pub open spec fn nonempty_part(o: Option<String>, prefix: Seq<char>) -> Seq<Seq<char>> {
    match o {
        Some(t) => if t@.len() > 0 {
            seq![prefix + t@]
        } else {
            seq![]
        },
        None => seq![],
    }
}

/// The text parts one item contributes: its text (type 1) or voice
/// transcript (type 3), then the title of a quoted message.
pub open spec fn item_parts(item: WeixinItem) -> Seq<Seq<char>> {
    let main = if item.item_type == 1 {
        nonempty_part(item.text, seq![])
    } else if item.item_type == 3 {
        nonempty_part(item.voice_text, "[语音] "@)
    } else {
        seq![]
    };
    main + nonempty_part(item.ref_title, "[引用] "@)
}

pub open spec fn parts_of(items: Seq<WeixinItem>) -> Seq<Seq<char>>
    decreases items.len(),
{
    if items.len() == 0 {
        seq![]
    } else {
        parts_of(items.drop_last()) + item_parts(items.last())
    }
}

/// The content of a message: its parts, one per line.
pub open spec fn weixin_content_spec(items: Seq<WeixinItem>) -> Seq<char> {
    join_spec(parts_of(items), "\n"@)
}

fn prefixed(prefix: &str, s: &str) -> (r: String)
    ensures
        r@ == prefix@ + s@,
{
    let mut v = chars_of(prefix);
    let mut w = chars_of(s);
    v.append(&mut w);
    string_from_chars(v.as_slice())
}

fn push_nonempty(parts: &mut Vec<String>, o: &Option<String>, prefix: &str)
    ensures
        final(parts)@.map_values(|s: String| s@) == old(parts)@.map_values(|s: String| s@)
            + nonempty_part(*o, prefix@),
{
    let ghost before = parts@.map_values(|s: String| s@);
    match o {
        Some(t) => {
            if !t.as_str().is_empty() {
                parts.push(prefixed(prefix, t.as_str()));
                assert(parts@.map_values(|s: String| s@) =~= before + nonempty_part(*o, prefix@));
            } else {
                assert(before + nonempty_part(*o, prefix@) =~= before);
            }
        },
        None => {
            assert(before + nonempty_part(*o, prefix@) =~= before);
        },
    }
}

/// The text of a message: text items, voice transcripts marked `[语音]` and
/// quoted titles marked `[引用]`, joined by newlines.
pub fn weixin_content(items: &[WeixinItem]) -> (r: String)
    ensures
        r@ == weixin_content_spec(items@),
{
    let mut parts: Vec<String> = Vec::new();
    let mut i: usize = 0;
    proof {
        reveal_strlit("");
    }
    assert(parts@.map_values(|s: String| s@) =~= parts_of(items@.take(0)));
    while i < items.len()
        invariant
            i <= items.len(),
            parts@.map_values(|s: String| s@) == parts_of(items@.take(i as int)),
        decreases items.len() - i,
    {
        let item = &items[i];
        let ghost before = parts@.map_values(|s: String| s@);
        if item.item_type == 1 {
            push_nonempty(&mut parts, &item.text, "");
            proof {
                reveal_strlit("");
                if item.text is Some {
                    assert(""@ + item.text->0@ =~= item.text->0@);
                }
            }
        } else if item.item_type == 3 {
            push_nonempty(&mut parts, &item.voice_text, "[语音] ");
        }
        push_nonempty(&mut parts, &item.ref_title, "[引用] ");
        proof {
            assert(items@.take(i + 1).drop_last() =~= items@.take(i as int));
            assert(items@.take(i + 1).last() == *item);
            assert(parts@.map_values(|s: String| s@) =~= before + item_parts(*item));
        }
        i = i + 1;
    }
    assert(items@.take(items.len() as int) =~= items@);
    let nl = chars_of("\n");
    let joined = join_strings(parts.as_slice(), nl.as_slice());
    string_from_chars(joined.as_slice())
}

/// What handling a message yields: nothing when the sender is not allowed or
/// the content is empty, else the inbound message for the agent.
pub fn handle_message(allow_from: &[String], msg: &WeixinMessage) -> (r: Option<WeixinInbound>)
    ensures
        r is Some <==> (weixin_allowed_spec(allow_from@.map_values(|s: String| s@), msg.from_user_id@)
            && weixin_content_spec(msg.items@).len() > 0),
        r matches Some(m) ==> {
            &&& m.sender_id@ == msg.from_user_id@
            &&& m.chat_id@ == msg.from_user_id@
            &&& m.content@ == weixin_content_spec(msg.items@)
            &&& m.context_token@ == (match msg.context_token {
                Some(c) => c@,
                None => Seq::<char>::empty(),
            })
        },
{
    if !is_allowed(allow_from, msg.from_user_id.as_str()) {
        return None;
    }
    let content = weixin_content(msg.items.as_slice());
    if content.as_str().is_empty() {
        return None;
    }
    let context_token = match &msg.context_token {
        Some(c) => string_from_chars(chars_of(c.as_str()).as_slice()),
        None => String::new(),
    };
    let sender = string_from_chars(chars_of(msg.from_user_id.as_str()).as_slice());
    let chat = string_from_chars(chars_of(msg.from_user_id.as_str()).as_slice());
    Some(WeixinInbound { sender_id: sender, chat_id: chat, content, context_token })
}

/// Only ordinary user messages (type 1) are handled.
pub fn is_handled_message_type(message_type: i32) -> (r: bool)
    ensures
        r == (message_type == 1),
{
    message_type == 1
}

} // verus!

verus! {

/// Failed polls in a row that trigger the long back-off.
pub const MAX_CONTINUOUS_FAILURES: u32 = 3;

/// Milliseconds to wait after a failed poll or an error code.
pub const RETRY_DELAY_MS: u64 = 2000;

/// Milliseconds to wait after `MAX_CONTINUOUS_FAILURES` failed polls.
pub const BACKOFF_DELAY_MS: u64 = 30000;

/// What one `getupdates` call came back with.
#[derive(Debug, Clone)]
pub enum PollOutcome {
    Updates { ret: Option<i32>, errcode: Option<i32>, sync_buf: Option<String> },
    Failed,
}

/// What the loop does next.
#[derive(Debug, Clone, Copy, PartialEq, Eq, Structural)]
pub enum PollAction {
    /// Handle the messages of this response, then poll again at once.
    Dispatch,
    /// Wait this many milliseconds, then poll again.
    RetryAfter(u64),
}

/// The state the polling loop carries from one call to the next.
pub struct WeixinPoller {
    sync_buf: String,
    failures: u32,
}

/// The poller's next `(sync_buf, failures)` and action for an outcome.
pub open spec fn poll_next(buf: Seq<char>, failures: int, outcome: PollOutcome) -> (Seq<char>, int, PollAction) {
    match outcome {
        PollOutcome::Updates { ret, errcode, sync_buf } => {
            let nb = match sync_buf {
                Some(b) => if b@.len() > 0 {
                    b@
                } else {
                    buf
                },
                None => buf,
            };
            let code_ok = (match ret { Some(x) => x, None => 0i32 }) == 0 && (match errcode {
                Some(x) => x,
                None => 0i32,
            }) == 0;
            (nb, 0, if code_ok {
                PollAction::Dispatch
            } else {
                PollAction::RetryAfter(RETRY_DELAY_MS)
            })
        },
        PollOutcome::Failed => {
            if failures + 1 >= MAX_CONTINUOUS_FAILURES {
                (buf, 0, PollAction::RetryAfter(BACKOFF_DELAY_MS))
            } else {
                (buf, failures + 1, PollAction::RetryAfter(RETRY_DELAY_MS))
            }
        },
    }
}

impl WeixinPoller {
    pub closed spec fn buf(&self) -> Seq<char> {
        self.sync_buf@
    }

    pub closed spec fn failure_count(&self) -> int {
        self.failures as int
    }

    pub closed spec fn wf(&self) -> bool {
        self.failures < MAX_CONTINUOUS_FAILURES
    }

    /// The loop starts only with a token that is not blank.
    pub fn start(token: &str) -> (r: Option<Self>)
        ensures
            r is Some <==> trim_spec(token@).len() > 0,
            r matches Some(p) ==> p.wf() && p.buf().len() == 0 && p.failure_count() == 0,
    {
        let t = trim_str(token);
        if t.len() == 0 {
            None
        } else {
            Some(WeixinPoller { sync_buf: String::new(), failures: 0 })
        }
    }

    /// The sync buffer sent with the next poll.
    pub fn sync_buf(&self) -> (r: &str)
        ensures
            r@ == self.buf(),
    {
        self.sync_buf.as_str()
    }

    pub fn failures(&self) -> (r: u32)
        ensures
            r == self.failure_count(),
    {
        self.failures
    }

    /// Takes in the outcome of a poll and says what to do next.
    pub fn step(&mut self, outcome: PollOutcome) -> (a: PollAction)
        requires
            old(self).wf(),
        ensures
            final(self).wf(),
            (final(self).buf(), final(self).failure_count(), a) == poll_next(
                old(self).buf(),
                old(self).failure_count(),
                outcome,
            ),
    {
        match outcome {
            PollOutcome::Updates { ret, errcode, sync_buf } => {
                self.failures = 0;
                match sync_buf {
                    Some(b) => {
                        if !b.as_str().is_empty() {
                            self.sync_buf = b;
                        }
                    },
                    None => {},
                }
                let r = match ret {
                    Some(x) => x,
                    None => 0,
                };
                let e = match errcode {
                    Some(x) => x,
                    None => 0,
                };
                if r != 0 || e != 0 {
                    PollAction::RetryAfter(RETRY_DELAY_MS)
                } else {
                    PollAction::Dispatch
                }
            },
            PollOutcome::Failed => {
                self.failures = self.failures + 1;
                if self.failures >= MAX_CONTINUOUS_FAILURES {
                    self.failures = 0;
                    PollAction::RetryAfter(BACKOFF_DELAY_MS)
                } else {
                    PollAction::RetryAfter(RETRY_DELAY_MS)
                }
            },
        }
    }
}

/// Three failed polls in a row, from a poller that has just succeeded, end
/// in the long back-off with the counter cleared; the first two wait briefly.
pub proof fn lemma_three_failures_back_off(buf: Seq<char>)
    ensures
        ({
            let s1 = poll_next(buf, 0, PollOutcome::Failed);
            let s2 = poll_next(s1.0, s1.1, PollOutcome::Failed);
            let s3 = poll_next(s2.0, s2.1, PollOutcome::Failed);
            &&& s1.2 == PollAction::RetryAfter(RETRY_DELAY_MS)
            &&& s2.2 == PollAction::RetryAfter(RETRY_DELAY_MS)
            &&& s3.2 == PollAction::RetryAfter(BACKOFF_DELAY_MS)
            &&& s3.1 == 0
            &&& s3.0 == buf
        }),
{
}

/// Any response, whatever its codes, clears the failure count; an empty or
/// missing sync buffer keeps the previous one.
pub proof fn lemma_response_resets_failures(
    buf: Seq<char>,
    failures: int,
    ret: Option<i32>,
    errcode: Option<i32>,
    sync_buf: Option<String>,
)
    ensures
        poll_next(buf, failures, PollOutcome::Updates { ret, errcode, sync_buf }).1 == 0,
        (sync_buf is None || sync_buf->0@.len() == 0) ==> poll_next(
            buf,
            failures,
            PollOutcome::Updates { ret, errcode, sync_buf },
        ).0 == buf,
{
}

} // verus!

verus! {

/// Longest text sent in one message, in bytes.
pub const MAX_MESSAGE_BYTES: usize = 2000;

/// The chunks `send_message` sends: refused without a token, else the text
/// split at `MAX_MESSAGE_BYTES`.
pub fn send_chunks(token: &str, text: &str) -> (r: Result<Vec<String>, String>)
    ensures
        r is Err <==> token@.len() == 0,
        r matches Err(e) ==> e@ == "Weixin: token not configured"@,
        r matches Ok(chunks) ==> chunks@.map_values(|s: String| s@) == split_message_spec(
            text@,
            MAX_MESSAGE_BYTES as int,
        ),
{
    if token.is_empty() {
        return Err("Weixin: token not configured".to_owned());
    }
    Ok(split_message(text, MAX_MESSAGE_BYTES))
}

/// A QR code for logging in.
#[derive(Debug, Clone)]
pub struct WeixinLoginQrCode {
    pub qrcode: String,
    pub qrcode_img_content: String,
}

/// Where a QR-code login stands.
#[derive(Debug, Clone)]
pub struct WeixinLoginStatus {
    pub status: String,
    pub bot_token: Option<String>,
    pub ilink_bot_id: Option<String>,
    pub baseurl: Option<String>,
    pub ilink_user_id: Option<String>,
}

pub open spec fn opt_trimmed(o: Option<String>) -> Seq<char> {
    match o {
        Some(s) => trim_spec(s@),
        None => Seq::<char>::empty(),
    }
}

fn trimmed_or_empty(o: &Option<String>) -> (r: String)
    ensures
        r@ == opt_trimmed(*o),
{
    match o {
        Some(s) => string_from_chars(trim_str(s.as_str()).as_slice()),
        None => String::new(),
    }
}

/// The QR code of a `get_bot_qrcode` reply: both fields trimmed, refused when
/// either is empty.
pub fn qrcode_from_reply(qrcode: &Option<String>, qrcode_img_content: &Option<String>) -> (r: Result<WeixinLoginQrCode, String>)
    ensures
        r is Err <==> (opt_trimmed(*qrcode).len() == 0 || opt_trimmed(*qrcode_img_content).len() == 0),
        r matches Err(e) ==> e@ == "Weixin get_bot_qrcode returned an empty qrcode payload"@,
        r matches Ok(q) ==> q.qrcode@ == opt_trimmed(*qrcode) && q.qrcode_img_content@ == opt_trimmed(
            *qrcode_img_content,
        ),
{
    let q = trimmed_or_empty(qrcode);
    let img = trimmed_or_empty(qrcode_img_content);
    if q.as_str().is_empty() || img.as_str().is_empty() {
        return Err("Weixin get_bot_qrcode returned an empty qrcode payload".to_owned());
    }
    Ok(WeixinLoginQrCode { qrcode: q, qrcode_img_content: img })
}

/// The login status of a `get_qrcode_status` reply; a missing status reads
/// `unknown`.
pub fn login_status_from_reply(
    status: Option<String>,
    bot_token: Option<String>,
    ilink_bot_id: Option<String>,
    baseurl: Option<String>,
    ilink_user_id: Option<String>,
) -> (r: WeixinLoginStatus)
    ensures
        r.status@ == (match status {
            Some(s) => s@,
            None => "unknown"@,
        }),
        r.bot_token == bot_token,
        r.ilink_bot_id == ilink_bot_id,
        r.baseurl == baseurl,
        r.ilink_user_id == ilink_user_id,
{
    let st = match status {
        Some(s) => s,
        None => "unknown".to_owned(),
    };
    WeixinLoginStatus { status: st, bot_token, ilink_bot_id, baseurl, ilink_user_id }
}

} // verus!

verus! {

/// Nanoseconds since the Unix epoch, 0 before it (`SystemTime::now`).
/// Nothing is stated of it: it is the clock.
#[verifier::external_body]
fn unix_now_nanos() -> u128 {
    std::time::SystemTime::now().duration_since(std::time::UNIX_EPOCH).unwrap_or_default().as_nanos()
}

/// Milliseconds since the Unix epoch, 0 before it (`SystemTime::now`).
/// Nothing is stated of it: it is the clock.
#[verifier::external_body]
fn unix_now_millis() -> u128 {
    std::time::SystemTime::now().duration_since(std::time::UNIX_EPOCH).unwrap_or_default().as_millis()
}

/// `BuildHasher::hash_one` of a fresh `RandomState`: each state is seeded at
/// random, so nothing is stated of the result.
#[verifier::external_body]
fn random_hash(x: u64) -> u64 {
    std::hash::BuildHasher::hash_one(&std::collections::hash_map::RandomState::new(), x)
}

/// A random 32-bit number: the clock hashed with a randomly seeded hasher.
pub fn rand_u32() -> u32 {
    let nanos = unix_now_nanos();
    let h = random_hash(nanos as u64);
    h as u32
}

/// The `X-WECHAT-UIN` header for a number: base64 of its decimal digits.
pub fn uin_for(n: u32) -> (r: String)
    ensures
        r@ == base64_std(encode_utf8(decimal_spec(n as nat))),
{
    let digits = decimal_chars(n as u128);
    let s = string_from_chars(digits.as_slice());
    base64_encode(s.as_str().as_bytes())
}

/// A fresh `X-WECHAT-UIN` header: `uin_for` of a random number.
pub fn generate_uin() -> (r: String)
    ensures
        exists|n: u32| r@ == base64_std(encode_utf8(decimal_spec(n as nat))),
{
    let n = rand_u32();
    uin_for(n)
}

/// What `format!("wcc-{}-{:08x}", ts, rnd)` writes.
pub open spec fn client_id_spec(ts: nat, rnd: nat) -> Seq<char> {
    "wcc-"@ + decimal_spec(ts) + "-"@ + hex_padded_spec(rnd, 8)
}

pub fn format_client_id(ts: u128, rnd: u32) -> (r: String)
    ensures
        r@ == client_id_spec(ts as nat, rnd as nat),
{
    let mut v = chars_of("wcc-");
    let mut d = decimal_chars(ts);
    let mut dash = chars_of("-");
    let mut h = hex8_chars(rnd);
    v.append(&mut d);
    v.append(&mut dash);
    v.append(&mut h);
    string_from_chars(v.as_slice())
}

/// A fresh client id for a sent message: the time in milliseconds and a
/// random number.
pub fn generate_client_id() -> (r: String)
    ensures
        exists|ts: u128, rnd: u32| r@ == client_id_spec(ts as nat, rnd as nat),
{
    let ts = unix_now_millis();
    let rnd = rand_u32();
    format_client_id(ts, rnd)
}

} // verus!
