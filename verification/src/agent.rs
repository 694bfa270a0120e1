//! Agent helpers: the tools a prompt skill may call, and the prompt that asks
//! for a summary of a skill's run.

use vstd::prelude::*;

use std::collections::HashSet;

use crate::text::{chars_eq, chars_of, copy_string, slice_chars, str_concat, string_from_chars, trim_spec, trim_str};

verus! {

/// The names a set of tool names holds.
pub uninterp spec fn tool_set_contents(s: HashSet<String>) -> Set<Seq<char>>;

/// `HashSet::contains` with a `&str` key: whether the set holds a `String`
/// equal to `name` (`String`'s `Hash` and `Eq` agree with `str`'s).
#[verifier::external_body]
fn set_has(set: &HashSet<String>, name: &str) -> (r: bool)
    ensures
        r == tool_set_contents(*set).contains(name@),
{
    set.contains(name)
}

/// Strict lexicographic order of character sequences (`String`'s order: its
/// UTF-8 bytes compare as its characters do).
pub open spec fn lex_lt(a: Seq<char>, b: Seq<char>) -> bool
    decreases a.len(),
{
    if a.len() == 0 {
        b.len() > 0
    } else if b.len() == 0 {
        false
    } else if a[0] != b[0] {
        (a[0] as u32) < (b[0] as u32)
    } else {
        lex_lt(a.drop_first(), b.drop_first())
    }
}

pub proof fn lemma_lex_lt_transitive(a: Seq<char>, b: Seq<char>, c: Seq<char>)
    requires
        lex_lt(a, b),
        lex_lt(b, c),
    ensures
        lex_lt(a, c),
    decreases a.len(),
{
    if a.len() > 0 && b.len() > 0 && c.len() > 0 && a[0] == b[0] && b[0] == c[0] {
        lemma_lex_lt_transitive(a.drop_first(), b.drop_first(), c.drop_first());
    }
}

pub proof fn lemma_lex_lt_total(a: Seq<char>, b: Seq<char>)
    ensures
        a != b ==> lex_lt(a, b) || lex_lt(b, a),
        !(lex_lt(a, b) && lex_lt(b, a)),
        !lex_lt(a, a),
    decreases a.len(),
{
    if a.len() == 0 || b.len() == 0 {
        if a.len() == 0 && b.len() == 0 {
            assert(a =~= b);
        }
    } else if a[0] != b[0] {
        let ua = a[0] as u32;
        let ub = b[0] as u32;
        vstd::utf8::char_u32_cast(a[0], ua);
        vstd::utf8::char_u32_cast(b[0], ub);
    } else {
        lemma_lex_lt_total(a.drop_first(), b.drop_first());
        if a != b {
            assert(a =~= seq![a[0]] + a.drop_first());
            assert(b =~= seq![b[0]] + b.drop_first());
        }
    }
    if a.len() > 0 {
        lemma_lex_lt_total(a.drop_first(), a.drop_first());
    }
}

fn lex_lt_exec(a: &[char], b: &[char]) -> (r: bool)
    ensures
        r == lex_lt(a@, b@),
{
    let mut i: usize = 0;
    assert(a@.skip(0) =~= a@);
    assert(b@.skip(0) =~= b@);
    while i < a.len() && i < b.len() && a[i] == b[i]
        invariant
            i <= a.len(),
            i <= b.len(),
            lex_lt(a@, b@) == lex_lt(a@.skip(i as int), b@.skip(i as int)),
        decreases a.len() - i,
    {
        proof {
            assert(a@.skip(i as int).drop_first() =~= a@.skip(i + 1));
            assert(b@.skip(i as int).drop_first() =~= b@.skip(i + 1));
        }
        i = i + 1;
    }
    if i == a.len() {
        i < b.len()
    } else if i == b.len() {
        false
    } else {
        assert(a@.skip(i as int)[0] == a@[i as int]);
        assert(b@.skip(i as int)[0] == b@[i as int]);
        (a[i] as u32) < (b[i] as u32)
    }
}

/// Some of the first `k` tools is named `n`.
pub open spec fn listed_before(tools: Seq<String>, k: int, n: Seq<char>) -> bool {
    exists|j: int| 0 <= j < k && #[trigger] tools[j]@ == n
}

proof fn lemma_listed_step(tools: Seq<String>, i: int, n: Seq<char>)
    requires
        0 <= i < tools.len(),
    ensures
        listed_before(tools, i + 1, n) == (listed_before(tools, i, n) || tools[i]@ == n),
{
    if listed_before(tools, i + 1, n) && !(tools[i]@ == n) {
        let j = choose|j: int| 0 <= j < i + 1 && #[trigger] tools[j]@ == n;
        assert(j < i);
    }
}

proof fn lemma_insert_contains(s: Seq<Seq<char>>, p: int, x: Seq<char>, n: Seq<char>)
    requires
        0 <= p <= s.len(),
    ensures
        s.insert(p, x).contains(n) == (s.contains(n) || n == x),
{
    let t = s.insert(p, x);
    if t.contains(n) {
        let w = choose|w: int| 0 <= w < t.len() && t[w] == n;
        if w < p {
            assert(s[w] == n);
        } else if w > p {
            assert(s[w - 1] == n);
        }
    }
    if s.contains(n) {
        let w = choose|w: int| 0 <= w < s.len() && s[w] == n;
        if w < p {
            assert(t[w] == n);
        } else {
            assert(t[w + 1] == n);
        }
    }
    if n == x {
        assert(t[p] == n);
    }
}

/// A tool a prompt skill may never call.
pub open spec fn is_blocked_spec(name: Seq<char>) -> bool {
    name == "spawn"@
}

/// Strictly increasing in lexicographic order (so without repeats).
pub open spec fn strictly_sorted(s: Seq<Seq<char>>) -> bool {
    forall|i: int, j: int| 0 <= i < j < s.len() ==> lex_lt(#[trigger] s[i], #[trigger] s[j])
}

/// The characters of each name.
pub open spec fn names_view(v: Seq<String>) -> Seq<Seq<char>> {
    v.map_values(|s: String| s@)
}

/// Runs skills whose method is a prompt.
pub struct PromptSkillExecutor;

impl PromptSkillExecutor {
    pub fn is_blocked_tool(tool_name: &str) -> (r: bool)
        ensures
            r == is_blocked_spec(tool_name@),
    {
        let v = chars_of(tool_name);
        let s = chars_of("spawn");
        chars_eq(v.as_slice(), s.as_slice())
    }

    /// A tool is allowed when it is available and not blocked.
    pub fn is_tool_allowed(tool_name: &str, available_tool_names: &HashSet<String>) -> (r: bool)
        ensures
            r == (tool_set_contents(*available_tool_names).contains(tool_name@) && !is_blocked_spec(tool_name@)),
    {
        set_has(available_tool_names, tool_name) && !Self::is_blocked_tool(tool_name)
    }


    /// The tools of a skill that it may call: those listed that are available
    /// and not blocked, sorted, each once.
    pub fn resolve_allowed_tool_names(skill_tools: &[String], available_tool_names: &HashSet<String>) -> (r: Vec<String>)
        ensures
            strictly_sorted(names_view(r@)),
            forall|n: Seq<char>|
                names_view(r@).contains(n) <==> listed_before(skill_tools@, skill_tools@.len() as int, n)
                    && tool_set_contents(*available_tool_names).contains(n) && !is_blocked_spec(n),
    {
        let ghost avail = tool_set_contents(*available_tool_names);
        let mut out: Vec<String> = Vec::new();
        let mut i: usize = 0;
        while i < skill_tools.len()
            invariant
                i <= skill_tools.len(),
                avail == tool_set_contents(*available_tool_names),
                strictly_sorted(names_view(out@)),
                forall|n: Seq<char>|
                    #![trigger names_view(out@).contains(n)]
                    names_view(out@).contains(n) <==> listed_before(skill_tools@, i as int, n)
                        && avail.contains(n) && !is_blocked_spec(n),
            decreases skill_tools.len() - i,
        {
            let name = &skill_tools[i];
            let ghost nv = name@;
            let ghost before = names_view(out@);
            proof {
                assert forall|n: Seq<char>| before.contains(n) <==> listed_before(skill_tools@, i as int, n)
                    && avail.contains(n) && !is_blocked_spec(n) by {
                    assert(names_view(out@).contains(n) == before.contains(n));
                }
                assert forall|n: Seq<char>| listed_before(skill_tools@, i + 1, n) == (listed_before(
                    skill_tools@,
                    i as int,
                    n,
                ) || skill_tools@[i as int]@ == n) by {
                    lemma_listed_step(skill_tools@, i as int, n);
                }
            }
            if set_has(available_tool_names, name.as_str()) && Self::is_tool_allowed(name.as_str(), available_tool_names) {
                let nc = chars_of(name.as_str());
                let mut p: usize = 0;
                let mut dup = false;
                while p < out.len()
                    invariant_except_break
                        p <= out.len(),
                        names_view(out@) == before,
                        nc@ == nv,
                        !dup,
                        forall|q: int| 0 <= q < p ==> lex_lt(#[trigger] before[q], nv),
                    ensures
                        p <= out.len(),
                        names_view(out@) == before,
                        dup ==> p < out.len() && before[p as int] == nv,
                        !dup ==> (p == out.len() || (!lex_lt(before[p as int], nv) && before[p as int] != nv)),
                        forall|q: int| 0 <= q < p ==> lex_lt(#[trigger] before[q], nv),
                    decreases out.len() - p,
                {
                    let oc = chars_of(out[p].as_str());
                    assert(oc@ == before[p as int]);
                    if chars_eq(oc.as_slice(), nc.as_slice()) {
                        dup = true;
                        break;
                    }
                    if !lex_lt_exec(oc.as_slice(), nc.as_slice()) {
                        break;
                    }
                    p = p + 1;
                }
                if !dup {
                    proof {
                        if p < out.len() {
                            lemma_lex_lt_total(before[p as int], nv);
                        }
                    }
                    out.insert(p, copy_string(name));
                    proof {
                        let after = names_view(out@);
                        assert(after =~= before.insert(p as int, nv));
                        assert forall|a: int, b: int| 0 <= a < b < after.len() implies lex_lt(
                            #[trigger] after[a],
                            #[trigger] after[b],
                        ) by {
                            if b < p {
                                assert(after[a] == before[a] && after[b] == before[b]);
                            } else if a < p && b == p {
                                assert(after[a] == before[a]);
                            } else if a < p {
                                assert(after[a] == before[a] && after[b] == before[b - 1]);
                                lemma_lex_lt_transitive(before[a], nv, before[p as int]);
                                if b - 1 > p {
                                    lemma_lex_lt_transitive(before[a], before[p as int], before[b - 1]);
                                }
                            } else if a == p {
                                assert(after[b] == before[b - 1]);
                                if b - 1 > p {
                                    lemma_lex_lt_transitive(nv, before[p as int], before[b - 1]);
                                }
                            } else {
                                assert(after[a] == before[a - 1] && after[b] == before[b - 1]);
                            }
                        }
                        assert(skill_tools@[i as int]@ == nv);
                        assert(avail.contains(nv) && !is_blocked_spec(nv));
                        assert forall|n: Seq<char>| #![trigger names_view(out@).contains(n)] names_view(out@).contains(n) <==> listed_before(skill_tools@, i + 1, n)
                            && avail.contains(n) && !is_blocked_spec(n) by {
                            lemma_insert_contains(before, p as int, nv, n);
                            lemma_listed_step(skill_tools@, i as int, n);
                            assert(before.contains(n) == (listed_before(skill_tools@, i as int, n) && avail.contains(n)
                                && !is_blocked_spec(n)));
                        }
                    }
                } else {
                    proof {
                        assert(before.contains(nv));
                        assert(skill_tools@[i as int]@ == nv);
                        assert forall|n: Seq<char>| #![trigger names_view(out@).contains(n)] names_view(out@).contains(n) <==> listed_before(skill_tools@, i + 1, n)
                            && avail.contains(n) && !is_blocked_spec(n) by {
                            assert(names_view(out@) == before);
                            lemma_listed_step(skill_tools@, i as int, n);
                            assert(before.contains(n) == (listed_before(skill_tools@, i as int, n) && avail.contains(n)
                                && !is_blocked_spec(n)));
                        }
                    }
                }
            } else {
                proof {
                    assert(skill_tools@[i as int]@ == nv);
                    assert(!(avail.contains(nv) && !is_blocked_spec(nv)));
                    assert forall|n: Seq<char>| #![trigger names_view(out@).contains(n)] names_view(out@).contains(n) <==> listed_before(skill_tools@, i + 1, n)
                        && avail.contains(n) && !is_blocked_spec(n) by {
                        assert(names_view(out@) == before);
                        lemma_listed_step(skill_tools@, i as int, n);
                        assert(before.contains(n) == (listed_before(skill_tools@, i as int, n) && avail.contains(n)
                            && !is_blocked_spec(n)));
                    }
                }
            }
            i = i + 1;
        }
        proof {
            assert forall|n: Seq<char>| names_view(out@).contains(n) <==> listed_before(
                skill_tools@,
                skill_tools@.len() as int,
                n,
            ) && tool_set_contents(*available_tool_names).contains(n) && !is_blocked_spec(n) by {
                assert(i as int == skill_tools@.len() as int);
            }
        }
        out
    }
}

} // verus!

verus! {

/// The first `max_chars` characters of a text.
pub open spec fn truncate_chars_spec(s: Seq<char>, max_chars: nat) -> Seq<char> {
    if s.len() <= max_chars {
        s
    } else {
        s.take(max_chars as int)
    }
}

pub fn truncate_chars(input: &str, max_chars: usize) -> (r: String)
    ensures
        r@ == truncate_chars_spec(input@, max_chars as nat),
{
    let v = chars_of(input);
    if v.len() <= max_chars {
        return string_from_chars(v.as_slice());
    }
    let p = slice_chars(v.as_slice(), 0, max_chars);
    assert(p@ =~= input@.take(max_chars as int));
    string_from_chars(p.as_slice())
}

/// The prompt asking for a summary of a skill's run: the question, the
/// skill, the method when one is named, the first 1200 characters of the
/// skill's description and the first 4000 of the result.
pub open spec fn summary_prompt_spec(
    question: Seq<char>,
    skill: Seq<char>,
    method: Option<Seq<char>>,
    skill_md: Seq<char>,
    result: Seq<char>,
) -> Seq<char> {
    let method_line = match method {
        Some(m) => if trim_spec(m).len() > 0 {
            "方法："@ + m + "\n"@
        } else {
            seq![]
        },
        None => seq![],
    };
    "用户问题："@ + question + "\n技能："@ + skill + "\n"@ + method_line + "\n技能说明摘要：\n"@
        + truncate_chars_spec(skill_md, 1200) + "\n\n执行结果：\n"@ + truncate_chars_spec(result, 4000)
}

/// Builds the prompt that asks for a summary of a skill's run.
pub struct SkillSummaryFormatter;

impl SkillSummaryFormatter {
    pub fn build_prompt(
        user_question: &str,
        skill_name: &str,
        method_name: Option<&str>,
        skill_md: &str,
        execution_result: &str,
    ) -> (r: String)
        ensures
            r@ == summary_prompt_spec(
                user_question@,
                skill_name@,
                match method_name {
                    Some(m) => Some(m@),
                    None => None,
                },
                skill_md@,
                execution_result@,
            ),
    {
        let md = truncate_chars(skill_md, 1200);
        let res = truncate_chars(execution_result, 4000);
        let method_line = match method_name {
            Some(m) => {
                let t = trim_str(m);
                if t.len() > 0 {
                    let a = str_concat("方法：", m);
                    str_concat(a.as_str(), "\n")
                } else {
                    String::new()
                }
            },
            None => String::new(),
        };
        let a = str_concat("用户问题：", user_question);
        let b = str_concat(a.as_str(), "\n技能：");
        let c = str_concat(b.as_str(), skill_name);
        let d = str_concat(c.as_str(), "\n");
        let e = str_concat(d.as_str(), method_line.as_str());
        let f = str_concat(e.as_str(), "\n技能说明摘要：\n");
        let g = str_concat(f.as_str(), md.as_str());
        let h = str_concat(g.as_str(), "\n\n执行结果：\n");
        str_concat(h.as_str(), res.as_str())
    }
}

} // verus!
