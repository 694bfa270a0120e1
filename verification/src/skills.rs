//! The `list_skills` tool: which evolution records count as being learned or
//! learned, how skill directories are chosen, and how `meta.yaml` is read.

use vstd::prelude::*;

use crate::exec_local::{ToolError, ToolSchema};

use crate::text::{
    chars_eq, chars_of, find_char, is_first_index, slice_chars, str_lines, str_lines_exec,
    string_from_chars, trim_chars, trim_spec,
};

verus! {

/// The `list_skills` tool; its `query` parameter needs no checking.
pub struct ListSkillsTool;

pub const LIST_SKILLS_DESCRIPTION: &'static str = "Query the skill evolution system. Shows which skills are currently being learned (evolving), which have been learned (completed evolutions), and available skills. Use when the user asks about learning progress, skill status, or capabilities.";

pub const LIST_SKILLS_PARAMETERS: &'static str = r#"{"type":"object","properties":{"query":{"type":"string","enum":["learning","learned","all","available"],"description":"What to query: 'learning' = skills currently being evolved/learned, 'learned' = skills that completed evolution, 'all' = full status, 'available' = currently loaded skills"}},"required":[]}"#;

impl ListSkillsTool {
    pub fn schema(&self) -> (s: ToolSchema)
        ensures
            s.name@ == "list_skills"@,
            s.description@ == LIST_SKILLS_DESCRIPTION@,
            s.parameters@ == LIST_SKILLS_PARAMETERS@,
    {
        ToolSchema {
            name: "list_skills".to_owned(),
            description: LIST_SKILLS_DESCRIPTION.to_owned(),
            parameters: LIST_SKILLS_PARAMETERS.to_owned(),
        }
    }

    /// Any `query` is accepted; an unknown one lists everything.
    pub fn validate(&self, query: Option<&str>) -> (r: Result<(), ToolError>)
        ensures
            r is Ok,
    {
        Ok(())
    }
}

/// What `list_skills` is asked for.
#[derive(Debug, Clone, Copy, PartialEq, Eq, Structural)]
pub enum SkillQuery {
    Learning,
    Learned,
    Available,
    All,
}

fn str_is(a: &[char], b: &str) -> (r: bool)
    ensures
        r == (a@ == b@),
{
    let w = chars_of(b);
    chars_eq(a, w.as_slice())
}

/// The query named by the `query` parameter; `all` for anything else.
pub fn skill_query(query: Option<&str>) -> (r: SkillQuery)
    ensures
        r == (match query {
            Some(q) => if q@ == "learning"@ {
                SkillQuery::Learning
            } else if q@ == "learned"@ {
                SkillQuery::Learned
            } else if q@ == "available"@ {
                SkillQuery::Available
            } else {
                SkillQuery::All
            },
            None => SkillQuery::All,
        }),
{
    match query {
        Some(q) => {
            let v = chars_of(q);
            if str_is(v.as_slice(), "learning") {
                SkillQuery::Learning
            } else if str_is(v.as_slice(), "learned") {
                SkillQuery::Learned
            } else if str_is(v.as_slice(), "available") {
                SkillQuery::Available
            } else {
                SkillQuery::All
            }
        },
        None => SkillQuery::All,
    }
}

/// The statuses of an evolution still in progress, with what each means.
pub open spec fn learning_description(status: Seq<char>) -> Option<Seq<char>> {
    if status == "Triggered"@ {
        Some("已触发，等待开始学习"@)
    } else if status == "Generating"@ {
        Some("正在生成改进方案"@)
    } else if status == "Generated"@ {
        Some("改进方案已生成，等待审计"@)
    } else if status == "Auditing"@ {
        Some("正在审计改进方案"@)
    } else if status == "AuditPassed"@ {
        Some("审计通过，准备编译检查"@)
    } else if status == "CompilePassed"@ || status == "DryRunPassed"@ || status == "TestPassed"@ {
        Some("编译检查通过，准备部署"@)
    } else if status == "Testing"@ {
        Some("正在编译检查"@)
    } else if status == "Observing"@ || status == "RollingOut"@ {
        Some("已部署，观察窗口中"@)
    } else {
        None
    }
}

/// Whether a record with this status is a skill being learned, and what its
/// status means then.
pub fn learning_status(status: &str) -> (r: Option<&'static str>)
    ensures
        match r {
            Some(d) => learning_description(status@) == Some(d@),
            None => learning_description(status@) is None,
        },
{
    let v = chars_of(status);
    let s = v.as_slice();
    if str_is(s, "Triggered") {
        Some("已触发，等待开始学习")
    } else if str_is(s, "Generating") {
        Some("正在生成改进方案")
    } else if str_is(s, "Generated") {
        Some("改进方案已生成，等待审计")
    } else if str_is(s, "Auditing") {
        Some("正在审计改进方案")
    } else if str_is(s, "AuditPassed") {
        Some("审计通过，准备编译检查")
    } else if str_is(s, "CompilePassed") || str_is(s, "DryRunPassed") || str_is(s, "TestPassed") {
        Some("编译检查通过，准备部署")
    } else if str_is(s, "Testing") {
        Some("正在编译检查")
    } else if str_is(s, "Observing") || str_is(s, "RollingOut") {
        Some("已部署，观察窗口中")
    } else {
        None
    }
}

/// A record of a completed evolution is a learned skill.
pub fn is_learned_status(status: &str) -> (r: bool)
    ensures
        r == (status@ == "Completed"@),
{
    let v = chars_of(status);
    str_is(v.as_slice(), "Completed")
}

/// The note that goes with the list of skills being learned.
pub fn learning_note(empty: bool) -> (r: &'static str)
    ensures
        empty ==> r@ == "目前没有正在学习的技能。当工具执行失败时，系统会自动触发学习。"@,
        !empty ==> r@ == "以下技能正在学习改进中。"@,
{
    if empty {
        "目前没有正在学习的技能。当工具执行失败时，系统会自动触发学习。"
    } else {
        "以下技能正在学习改进中。"
    }
}

/// The note that goes with the list of learned skills.
pub fn learned_note(empty: bool) -> (r: &'static str)
    ensures
        empty ==> r@ == "目前还没有通过自进化学会的技能。系统会在工具执行失败时自动触发学习。"@,
        !empty ==> r@ == "以下技能已通过自进化学会。"@,
{
    if empty {
        "目前还没有通过自进化学会的技能。系统会在工具执行失败时自动触发学习。"
    } else {
        "以下技能已通过自进化学会。"
    }
}

/// A skill directory found while scanning: its name and which script files
/// it holds.
#[derive(Debug, Clone)]
pub struct SkillDirEntry {
    pub name: String,
    pub has_rhai: bool,
    pub has_py: bool,
    pub has_md: bool,
}

/// Some earlier entry (before `k`) has this name.
pub open spec fn name_seen(entries: Seq<SkillDirEntry>, k: int, name: Seq<char>) -> bool {
    exists|j: int| 0 <= j < k && #[trigger] entries[j].name@ == name
}

/// The entries listed as available, in scan order: the first entry of each
/// name (workspace skills are scanned before built-in ones and so win),
/// when it holds a script file.
pub open spec fn available_spec(entries: Seq<SkillDirEntry>) -> Seq<int>
    decreases entries.len(),
{
    if entries.len() == 0 {
        seq![]
    } else {
        let k = entries.len() - 1;
        let rest = available_spec(entries.drop_last());
        let e = entries.last();
        if !name_seen(entries, k, e.name@) && (e.has_rhai || e.has_py || e.has_md) {
            rest.push(k)
        } else {
            rest
        }
    }
}

proof fn lemma_name_seen_prefix(entries: Seq<SkillDirEntry>, k: int, name: Seq<char>)
    requires
        0 <= k <= entries.len(),
    ensures
        name_seen(entries, k, name) == name_seen(entries.take(k), k, name),
{
    if name_seen(entries, k, name) {
        let j = choose|j: int| 0 <= j < k && #[trigger] entries[j].name@ == name;
        assert(entries.take(k)[j] == entries[j]);
    }
    if name_seen(entries.take(k), k, name) {
        let j = choose|j: int| 0 <= j < k && #[trigger] entries.take(k)[j].name@ == name;
        assert(entries.take(k)[j] == entries[j]);
    }
}

/// Positions of the entries listed as available.
pub fn select_available(entries: &[SkillDirEntry]) -> (r: Vec<usize>)
    ensures
        r@.map_values(|i: usize| i as int) == available_spec(entries@),
{
    let mut r: Vec<usize> = Vec::new();
    let mut i: usize = 0;
    assert(entries@.take(0) =~= Seq::<SkillDirEntry>::empty());
    while i < entries.len()
        invariant
            i <= entries.len(),
            r@.map_values(|i: usize| i as int) == available_spec(entries@.take(i as int)),
        decreases entries.len() - i,
    {
        let e = &entries[i];
        let name = chars_of(e.name.as_str());
        let mut seen = false;
        let mut j: usize = 0;
        while j < i
            invariant_except_break
                j <= i < entries.len(),
                name@ == entries@[i as int].name@,
                !seen,
                forall|q: int| 0 <= q < j ==> (#[trigger] entries@[q]).name@ != name@,
            ensures
                j <= i < entries.len(),
                name@ == entries@[i as int].name@,
                seen ==> j < i && entries@[j as int].name@ == name@,
                !seen ==> forall|q: int| 0 <= q < i ==> (#[trigger] entries@[q]).name@ != name@,
            decreases i - j,
        {
            let other = chars_of(entries[j].name.as_str());
            if chars_eq(other.as_slice(), name.as_slice()) {
                seen = true;
                assert(other@ == entries@[j as int].name@);
                break;
            }
            j = j + 1;
        }
        proof {
            let pre = entries@.take(i + 1);
            assert(pre.drop_last() =~= entries@.take(i as int));
            assert(pre.last() == entries@[i as int]);
            lemma_name_seen_prefix(entries@.take(i + 1), i as int, name@);
            assert(entries@.take(i + 1).take(i as int) =~= entries@.take(i as int));
            if seen {
                assert(entries@[j as int].name@ == name@);
                assert(pre[j as int] == entries@[j as int]);
            } else {
                assert forall|q: int| 0 <= q < i implies (#[trigger] pre[q]).name@ != name@ by {
                    assert(pre[q] == entries@[q]);
                }
            }
        }
        if !seen && (e.has_rhai || e.has_py || e.has_md) {
            let ghost before = r@.map_values(|i: usize| i as int);
            r.push(i);
            assert(r@.map_values(|i: usize| i as int) =~= before.push(i as int));
        }
        i = i + 1;
    }
    assert(entries@.take(entries.len() as int) =~= entries@);
    r
}

/// A value in `meta.yaml`: `true`, `false` or text.
#[derive(Debug, Clone)]
pub enum MetaValue {
    Bool(bool),
    Text(String),
}

/// The key and value a `meta.yaml` line gives: split at its first `:`, both
/// sides trimmed; lines without `:` give none.
pub open spec fn meta_line(line: Seq<char>) -> Option<(Seq<char>, Seq<char>)> {
    if exists|i: int| is_first_index(line, ':', i) {
        let i = choose|i: int| is_first_index(line, ':', i);
        Some((trim_spec(line.take(i)), trim_spec(line.skip(i + 1))))
    } else {
        None
    }
}

pub open spec fn meta_value_view(v: MetaValue) -> Seq<char> {
    match v {
        MetaValue::Bool(true) => "true"@,
        MetaValue::Bool(false) => "false"@,
        MetaValue::Text(s) => s@,
    }
}

/// The value of each key after all lines: the last line with the key wins.
pub open spec fn meta_lookup(lines: Seq<Seq<char>>, key: Seq<char>) -> Option<Seq<char>>
    decreases lines.len(),
{
    if lines.len() == 0 {
        None
    } else {
        match meta_line(lines.last()) {
            Some((k, v)) => if k == key {
                Some(v)
            } else {
                meta_lookup(lines.drop_last(), key)
            },
            None => meta_lookup(lines.drop_last(), key),
        }
    }
}

/// One `key: value` pair of a meta file.
#[derive(Debug, Clone)]
pub struct MetaEntry {
    pub key: String,
    pub value: MetaValue,
}

pub open spec fn entries_lookup(es: Seq<MetaEntry>, key: Seq<char>) -> Option<Seq<char>> {
    if exists|i: int| 0 <= i < es.len() && #[trigger] es[i].key@ == key {
        let i = choose|i: int| 0 <= i < es.len() && #[trigger] es[i].key@ == key;
        Some(meta_value_view(es[i].value))
    } else {
        None
    }
}

/// Keys occur once.
pub open spec fn keys_distinct(es: Seq<MetaEntry>) -> bool {
    forall|a: int, b: int| 0 <= a < b < es.len() ==> (#[trigger] es[a]).key@ != (#[trigger] es[b]).key@
}

fn meta_value_of(v: &[char]) -> (r: MetaValue)
    ensures
        meta_value_view(r) == v@,
        (v@ == "true"@) <==> r == MetaValue::Bool(true),
        (v@ == "false"@) <==> r == MetaValue::Bool(false),
{
    proof {
        reveal_strlit("true");
        reveal_strlit("false");
        assert("true"@.len() != "false"@.len());
    }
    if str_is(v, "true") {
        MetaValue::Bool(true)
    } else if str_is(v, "false") {
        MetaValue::Bool(false)
    } else {
        proof {
            reveal_strlit("true");
            reveal_strlit("false");
        }
        MetaValue::Text(string_from_chars(v))
    }
}

/// Reads `meta.yaml` line by line as `key: value` pairs: `true` and `false`
/// become booleans, other values text; a key given twice keeps its last value.
#[verifier::spinoff_prover]
pub fn parse_meta_yaml(content: &str) -> (r: Vec<MetaEntry>)
    ensures
        keys_distinct(r@),
        forall|key: Seq<char>| #[trigger] entries_lookup(r@, key) == meta_lookup(str_lines(content@), key),
{
    let lines = str_lines_exec(content);
    let ghost ls = str_lines(content@);
    let mut out: Vec<MetaEntry> = Vec::new();
    let mut i: usize = 0;
    assert(ls.take(0) =~= Seq::<Seq<char>>::empty());
    while i < lines.len()
        invariant
            i <= lines.len(),
            lines@.map_values(|l: Vec<char>| l@) == ls,
            keys_distinct(out@),
            forall|key: Seq<char>| #[trigger] entries_lookup(out@, key) == meta_lookup(ls.take(i as int), key),
        decreases lines.len() - i,
    {
        let line = &lines[i];
        proof {
            assert(line@ == ls[i as int]);
            assert(ls.take(i + 1).drop_last() =~= ls.take(i as int));
            assert(ls.take(i + 1).last() == ls[i as int]);
        }
        match find_char(line.as_slice(), ':') {
            Some(c) => {
                assert(is_first_index(line@, ':', c as int));
                assert(c < line.len());
                let kpart = slice_chars(line.as_slice(), 0, c);
                let vpart = slice_chars(line.as_slice(), c + 1, line.len());
                let key = trim_chars(kpart.as_slice());
                let val = trim_chars(vpart.as_slice());
                let value = meta_value_of(val.as_slice());
                let ghost kv = key@;
                let ghost vv = val@;
                proof {
                    assert(is_first_index(line@, ':', c as int));
                    let w = choose|w: int| is_first_index(line@, ':', w);
                    assert(w == c as int) by {
                        if w < c {
                            assert(line@[w] != ':');
                        } else if w > c {
                            assert(line@[c as int] != ':');
                        }
                    }
                    assert(kpart@ =~= line@.take(c as int));
                    assert(vpart@ =~= line@.skip(c + 1));
                    assert(meta_line(line@) == Some((kv, vv)));
                }
                let ghost old_out = out@;
                let mut w: usize = 0;
                let mut found = false;
                while w < out.len()
                    invariant_except_break
                        w <= out.len(),
                        key@ == kv,
                        !found,
                        forall|a: int| 0 <= a < w ==> (#[trigger] out@[a]).key@ != kv,
                    ensures
                        w <= out.len(),
                        found ==> w < out.len() && out@[w as int].key@ == kv,
                        !found ==> forall|a: int| 0 <= a < out@.len() ==> (#[trigger] out@[a]).key@ != kv,
                    decreases out.len() - w,
                {
                    let kc = chars_of(out[w].key.as_str());
                    if chars_eq(kc.as_slice(), key.as_slice()) {
                        found = true;
                        break;
                    }
                    w = w + 1;
                }
                let entry = MetaEntry { key: string_from_chars(key.as_slice()), value };
                let ghost ev = entry;
                if found {
                    out.set(w, entry);
                    proof {
                        assert(out@ == old_out.update(w as int, ev));
                        assert forall|a: int, b: int| 0 <= a < b < out@.len() implies (#[trigger] out@[a]).key@
                            != (#[trigger] out@[b]).key@ by {
                            if a != w && b != w {
                                assert(out@[a] == old_out[a] && out@[b] == old_out[b]);
                            } else if a == w {
                                assert(out@[b] == old_out[b]);
                                assert(old_out[w as int].key@ != old_out[b].key@);
                            } else {
                                assert(out@[a] == old_out[a]);
                                assert(old_out[a].key@ != old_out[w as int].key@);
                            }
                        }
                        assert forall|k2: Seq<char>| #[trigger] entries_lookup(out@, k2) == meta_lookup(
                            ls.take(i + 1),
                            k2,
                        ) by {
                            if k2 == kv {
                                lemma_lookup_at(out@, w as int);
                            } else {
                                lemma_lookup_same_outside(old_out, out@, w as int, k2);
                            }
                        }
                    }
                } else {
                    out.push(entry);
                    proof {
                        assert(out@ == old_out.push(ev));
                        assert forall|a: int, b: int| 0 <= a < b < out@.len() implies (#[trigger] out@[a]).key@
                            != (#[trigger] out@[b]).key@ by {
                            if b < old_out.len() {
                                assert(out@[a] == old_out[a] && out@[b] == old_out[b]);
                            } else {
                                assert(out@[a] == old_out[a]);
                            }
                        }
                        assert forall|k2: Seq<char>| #[trigger] entries_lookup(out@, k2) == meta_lookup(
                            ls.take(i + 1),
                            k2,
                        ) by {
                            if k2 == kv {
                                lemma_lookup_at(out@, old_out.len() as int);
                            } else {
                                lemma_lookup_same_outside(old_out, out@, old_out.len() as int, k2);
                            }
                        }
                    }
                }
            },
            None => {
                proof {
                    assert(!exists|w: int| is_first_index(line@, ':', w));
                    assert(meta_line(line@) is None);
                }
            },
        }
        i = i + 1;
    }
    assert(ls.take(lines.len() as int) =~= ls);
    out
}

proof fn lemma_lookup_at(es: Seq<MetaEntry>, w: int)
    requires
        keys_distinct(es),
        0 <= w < es.len(),
    ensures
        entries_lookup(es, es[w].key@) == Some(meta_value_view(es[w].value)),
{
    let key = es[w].key@;
    assert(es[w].key@ == key);
    let i = choose|i: int| 0 <= i < es.len() && #[trigger] es[i].key@ == key;
    if i != w {
        if i < w {
            assert(es[i].key@ != es[w].key@);
        } else {
            assert(es[w].key@ != es[i].key@);
        }
    }
}

/// Changing or adding the entry at `w` leaves the lookup of other keys alone.
proof fn lemma_lookup_same_outside(a: Seq<MetaEntry>, b: Seq<MetaEntry>, w: int, key: Seq<char>)
    requires
        0 <= w <= a.len(),
        b.len() == (if w == a.len() { a.len() + 1 } else { a.len() }),
        forall|i: int| 0 <= i < a.len() && i != w ==> b[i] == a[i],
        w < a.len() ==> a[w].key@ == b[w].key@,
        b[w].key@ != key,
        w < a.len() ==> a[w].key@ != key,
        keys_distinct(b),
    ensures
        entries_lookup(b, key) == entries_lookup(a, key),
{
    if exists|i: int| 0 <= i < a.len() && #[trigger] a[i].key@ == key {
        let i = choose|i: int| 0 <= i < a.len() && #[trigger] a[i].key@ == key;
        assert(i != w);
        assert(b[i].key@ == key);
    }
    if exists|i: int| 0 <= i < b.len() && #[trigger] b[i].key@ == key {
        let i = choose|i: int| 0 <= i < b.len() && #[trigger] b[i].key@ == key;
        assert(i != w);
        assert(a[i].key@ == key);
    }
    if exists|i: int| 0 <= i < a.len() && #[trigger] a[i].key@ == key {
        let i = choose|i: int| 0 <= i < a.len() && #[trigger] a[i].key@ == key;
        assert(b[i].key@ == key);
        let j = choose|j: int| 0 <= j < b.len() && #[trigger] b[j].key@ == key;
        if i < j {
            assert(b[i].key@ != b[j].key@);
        } else if j < i {
            assert(b[j].key@ != b[i].key@);
        }
        assert(b[j] == a[i]);
    }
}

} // verus!
