//! Session keys (`channel:chat_id`) and the file stems sessions are stored under.

use vstd::prelude::*;

use crate::text::{
    after_first, chars_eq, chars_of, copy_chars, slice_chars, find_char, replace_char, replace_char_spec,
    string_from_chars,
};

verus! {

/// `channel:chat_id`.
pub open spec fn session_key_spec(channel: Seq<char>, chat_id: Seq<char>) -> Seq<char> {
    channel + seq![':'] + chat_id
}

/// Path-unsafe characters of a key become `_`.
pub open spec fn stem_char(c: char) -> char {
    if c == ':' || c == '/' || c == '\\' {
        '_'
    } else {
        c
    }
}

pub open spec fn file_stem_spec(key: Seq<char>) -> Seq<char> {
    key.map_values(|c: char| stem_char(c))
}

/// Everything after the first `_` of a stem, or the whole stem.
pub open spec fn id_from_stem_spec(stem: Seq<char>) -> Seq<char> {
    match after_first(stem, '_') {
        Some(rest) => rest,
        None => stem,
    }
}

/// Every `_` of an id becomes `:`.
pub open spec fn title_spec(id: Seq<char>) -> Seq<char> {
    replace_char_spec(id, '_', ':')
}

/// A stored stem names the session `normalized_id`.
pub open spec fn stem_matches(stem: Seq<char>, normalized_id: Seq<char>) -> bool {
    stem == normalized_id || id_from_stem_spec(stem) == normalized_id
}

/// The first stem, in list order, that names the session.
pub open spec fn first_matching_stem(stems: Seq<Seq<char>>, normalized_id: Seq<char>) -> Option<
    Seq<char>,
>
    decreases stems.len(),
{
    if stems.len() == 0 {
        None
    } else if stem_matches(stems[0], normalized_id) {
        Some(stems[0])
    } else {
        first_matching_stem(stems.drop_first(), normalized_id)
    }
}

/// The key of the web session `ws:<title>` for an id.
pub open spec fn direct_key_spec(id: Seq<char>) -> Seq<char> {
    session_key_spec(seq!['w', 's'], title_spec(id))
}

/// The session key an id resolves to, given the stems stored on disk.
pub open spec fn resolve_spec(id: Seq<char>, stems: Seq<Seq<char>>) -> Seq<char> {
    let direct_key = direct_key_spec(id);
    if stems.contains(file_stem_spec(direct_key)) {
        direct_key
    } else {
        match first_matching_stem(stems, replace_char_spec(id, ':', '_')) {
            Some(stem) => title_spec(stem),
            None => direct_key,
        }
    }
}

pub fn build_session_key(channel: &str, chat_id: &str) -> (key: String)
    ensures
        key@ == session_key_spec(channel@, chat_id@),
{
    let mut v = chars_of(channel);
    v.push(':');
    let mut w = chars_of(chat_id);
    v.append(&mut w);
    proof {
        assert(v@ =~= session_key_spec(channel@, chat_id@));
    }
    string_from_chars(v.as_slice())
}

fn file_stem_chars(key: &[char]) -> (r: Vec<char>)
    ensures
        r@ == file_stem_spec(key@),
{
    let mut r: Vec<char> = Vec::new();
    let mut i: usize = 0;
    while i < key.len()
        invariant
            i <= key.len(),
            r@ == file_stem_spec(key@.take(i as int)),
        decreases key.len() - i,
    {
        let c = key[i];
        r.push(if c == ':' || c == '/' || c == '\\' { '_' } else { c });
        i = i + 1;
        assert(file_stem_spec(key@.take(i as int)) =~= file_stem_spec(
            key@.take((i - 1) as int),
        ).push(stem_char(c)));
    }
    assert(key@.take(key.len() as int) =~= key@);
    r
}

pub fn session_file_stem(session_key: &str) -> (stem: String)
    ensures
        stem@ == file_stem_spec(session_key@),
{
    let v = chars_of(session_key);
    let r = file_stem_chars(v.as_slice());
    string_from_chars(r.as_slice())
}

fn id_from_stem_chars(stem: &[char]) -> (r: Vec<char>)
    ensures
        r@ == id_from_stem_spec(stem@),
{
    let found = find_char(stem, '_');
    match found {
        Some(pos) => {
            assert(crate::text::is_first_index(stem@, '_', pos as int));
            assert(pos < stem.len());
            let r = slice_chars(stem, pos + 1, stem.len());
            assert(r@ =~= stem@.skip(pos + 1));
            r
        },
        None => copy_chars(stem),
    }
}

pub fn session_id_from_file_stem(file_stem: &str) -> (id: String)
    ensures
        id@ == id_from_stem_spec(file_stem@),
{
    let v = chars_of(file_stem);
    let r = id_from_stem_chars(v.as_slice());
    string_from_chars(r.as_slice())
}

pub fn session_title_from_id(session_id: &str) -> (title: String)
    ensures
        title@ == title_spec(session_id@),
{
    let v = chars_of(session_id);
    let r = replace_char(v.as_slice(), '_', ':');
    string_from_chars(r.as_slice())
}

/// Resolves a session id to a session key. A stored stem of the direct web
/// key `ws:<id with : for _>` wins; otherwise the first stored stem that is the
/// id, or whose part after the first `_` is the id, gives the key; otherwise
/// the direct web key.
pub fn resolve_session_key_from_id(session_id: &str, file_stems: &[&str]) -> (key: String)
    ensures
        key@ == resolve_spec(session_id@, file_stems@.map_values(|s: &str| s@)),
{
    let ghost stems = file_stems@.map_values(|s: &str| s@);
    let id = chars_of(session_id);
    let normalized = replace_char(id.as_slice(), ':', '_');
    let title = replace_char(id.as_slice(), '_', ':');
    let mut direct: Vec<char> = Vec::new();
    direct.push('w');
    direct.push('s');
    direct.push(':');
    let mut t = title.clone();
    direct.append(&mut t);
    proof {
        assert(direct@ =~= direct_key_spec(session_id@));
    }
    let direct_stem = file_stem_chars(direct.as_slice());

    let mut i: usize = 0;
    while i < file_stems.len()
        invariant
            i <= file_stems.len(),
            stems == file_stems@.map_values(|s: &str| s@),
            direct@ == direct_key_spec(session_id@),
            direct_stem@ == file_stem_spec(direct@),
            forall|j: int| 0 <= j < i ==> stems[j] != direct_stem@,
        decreases file_stems.len() - i,
    {
        let s = chars_of(file_stems[i]);
        if chars_eq(s.as_slice(), direct_stem.as_slice()) {
            proof {
                assert(stems[i as int] == file_stem_spec(direct_key_spec(session_id@)));
                assert(stems.contains(file_stem_spec(direct_key_spec(session_id@))));
            }
            return string_from_chars(direct.as_slice());
        }
        i = i + 1;
    }
    assert(!stems.contains(file_stem_spec(direct_key_spec(session_id@))));
    assert(stems.skip(0) =~= stems);

    let mut k: usize = 0;
    while k < file_stems.len()
        invariant
            k <= file_stems.len(),
            stems == file_stems@.map_values(|s: &str| s@),
            normalized@ == replace_char_spec(session_id@, ':', '_'),
            direct@ == direct_key_spec(session_id@),
            !stems.contains(file_stem_spec(direct_key_spec(session_id@))),
            first_matching_stem(stems, normalized@) == first_matching_stem(
                stems.skip(k as int),
                normalized@,
            ),
        decreases file_stems.len() - k,
    {
        let s = chars_of(file_stems[k]);
        let sid = id_from_stem_chars(s.as_slice());
        proof {
            assert(stems.skip(k as int)[0] == s@);
            assert(stems.skip(k as int).drop_first() =~= stems.skip(k + 1));
        }
        if chars_eq(s.as_slice(), normalized.as_slice()) || chars_eq(
            sid.as_slice(),
            normalized.as_slice(),
        ) {
            let r = replace_char(s.as_slice(), '_', ':');
            return string_from_chars(r.as_slice());
        }
        k = k + 1;
    }
    proof {
        assert(stems.skip(file_stems.len() as int).len() == 0);
    }
    string_from_chars(direct.as_slice())
}

/// A key made only of characters other than `_`, `/` and `\` is recovered from
/// its file stem by turning `_` back into `:`.
pub proof fn lemma_title_of_stem_recovers_key(key: Seq<char>)
    requires
        forall|i: int| 0 <= i < key.len() ==> key[i] != '_' && key[i] != '/' && key[i] != '\\',
    ensures
        title_spec(file_stem_spec(key)) == key,
{
    assert(title_spec(file_stem_spec(key)) =~= key);
}

/// For a channel name free of `:`, `/`, `\` and `_`, the session id read back
/// from the file stem of `channel:chat_id` is the file stem of `chat_id`.
pub proof fn lemma_id_of_key_stem(channel: Seq<char>, chat_id: Seq<char>)
    requires
        forall|i: int|
            0 <= i < channel.len() ==> channel[i] != ':' && channel[i] != '/' && channel[i]
                != '\\' && channel[i] != '_',
    ensures
        id_from_stem_spec(file_stem_spec(session_key_spec(channel, chat_id))) == file_stem_spec(
            chat_id,
        ),
{
    let stem = file_stem_spec(session_key_spec(channel, chat_id));
    let n = channel.len() as int;
    assert(stem[n] == '_');
    assert forall|j: int| 0 <= j < n implies stem[j] != '_' by {
        assert(stem[j] == stem_char(channel[j]));
    }
    crate::text::lemma_after_first_index(stem, '_', n);
    assert(stem.skip(n + 1) =~= file_stem_spec(chat_id));
}

} // verus!
