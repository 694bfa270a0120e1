//! The heartbeat: a periodic prompt sent to the agent when `HEARTBEAT.md`
//! holds something to act on.

use vstd::prelude::*;

use crate::text::{
    chars_eq, chars_of, ends_with, has_prefix, has_suffix, lemma_lines_prefix, lines_of, starts_with,
    trim_chars, trim_spec,
};

verus! {

/// The prompt sent to the agent on each heartbeat.
pub const HEARTBEAT_PROMPT: &'static str = "Read HEARTBEAT.md in your workspace (if it exists).\nFollow any instructions or tasks listed there.\nIf nothing needs attention, reply with just: HEARTBEAT_OK";

/// Seconds between heartbeats unless configured otherwise.
pub const DEFAULT_INTERVAL_SECS: u64 = 1800;

/// A trimmed line that carries nothing to do: blank, a heading, an HTML
/// comment, or an empty checkbox.
pub open spec fn is_filler_line(t: Seq<char>) -> bool {
    ||| t.len() == 0
    ||| has_prefix(t, "#"@)
    ||| (has_prefix(t, "<!--"@) && has_suffix(t, "-->"@))
    ||| t == "- [ ]"@
    ||| t == "- [x]"@
}

/// Heartbeat file content with nothing to act on: every line, trimmed, is filler.
pub open spec fn heartbeat_empty_spec(content: Seq<char>) -> bool {
    forall|i: int| 0 <= i < lines_of(content).len() ==> is_filler_line(#[trigger] trim_spec(lines_of(content)[i]))
}

fn is_filler_line_exec(line: &[char]) -> (r: bool)
    ensures
        r == is_filler_line(trim_spec(line@)),
{
    let t = trim_chars(line);
    if t.len() == 0 {
        return true;
    }
    let hash = chars_of("#");
    let open = chars_of("<!--");
    let close = chars_of("-->");
    let unchecked = chars_of("- [ ]");
    let checked = chars_of("- [x]");
    starts_with(t.as_slice(), hash.as_slice()) || (starts_with(t.as_slice(), open.as_slice())
        && ends_with(t.as_slice(), close.as_slice())) || chars_eq(t.as_slice(), unchecked.as_slice())
        || chars_eq(t.as_slice(), checked.as_slice())
}

/// Whether heartbeat file content has nothing to act on.
pub fn is_heartbeat_content_empty(content: &str) -> (r: bool)
    ensures
        r == heartbeat_empty_spec(content@),
{
    let v = chars_of(content);
    let ghost s = content@;
    let mut cur: Vec<char> = Vec::new();
    let mut i: usize = 0;
    assert(s.take(0) =~= Seq::<char>::empty());
    while i < v.len()
        invariant
            v@ == s,
            s == content@,
            i <= v.len(),
            lines_of(s.take(i as int)).len() >= 1,
            lines_of(s.take(i as int)).last() == cur@,
            forall|k: int|
                0 <= k < lines_of(s.take(i as int)).len() - 1 ==> is_filler_line(
                    #[trigger] trim_spec(lines_of(s.take(i as int))[k]),
                ),
        decreases v.len() - i,
    {
        let c = v[i];
        let ghost prev = lines_of(s.take(i as int));
        proof {
            assert(s.take(i + 1).drop_last() =~= s.take(i as int));
            assert(s.take(i + 1).last() == c);
        }
        if c == '\n' {
            if !is_filler_line_exec(cur.as_slice()) {
                proof {
                    assert(lines_of(s.take(i + 1)) == prev.push(seq![]));
                    assert(lines_of(s.take(i + 1))[prev.len() - 1] == cur@);
                    lemma_lines_prefix(s, i as int + 1);
                    let k = prev.len() - 1;
                    assert(lines_of(s.take(i + 1))[k] == lines_of(s)[k]);
                    assert(0 <= k < lines_of(s).len());
                    assert(!is_filler_line(trim_spec(lines_of(s)[k])));
                    assert(!heartbeat_empty_spec(s));
                }
                return false;
            }
            cur = Vec::new();
            proof {
                let now = lines_of(s.take(i + 1));
                assert(now == prev.push(seq![]));
                assert forall|k: int| 0 <= k < now.len() - 1 implies is_filler_line(
                    #[trigger] trim_spec(now[k]),
                ) by {
                    assert(now[k] == prev[k]);
                }
                assert(cur@ =~= Seq::<char>::empty());
            }
        } else {
            cur.push(c);
            proof {
                let now = lines_of(s.take(i + 1));
                assert forall|k: int| 0 <= k < now.len() - 1 implies is_filler_line(
                    #[trigger] trim_spec(now[k]),
                ) by {
                    assert(now[k] == prev[k]);
                }
            }
        }
        i = i + 1;
    }
    assert(s.take(v.len() as int) =~= s);
    let last_ok = is_filler_line_exec(cur.as_slice());
    proof {
        let ls = lines_of(s);
        if last_ok {
            assert forall|k: int| 0 <= k < ls.len() implies is_filler_line(#[trigger] trim_spec(ls[k])) by {
                if k == ls.len() - 1 {
                    assert(ls[k] == cur@);
                }
            }
        } else {
            assert(!is_filler_line(trim_spec(ls[ls.len() - 1])));
        }
    }
    last_ok
}

} // verus!
