//! The logging proxy's view of a body: each line pretty-printed when it is
//! JSON, shown as it is otherwise.

use vstd::prelude::*;

use crate::html_to_md::{pretty_json_line, pretty_json_of};
use crate::text::{str_concat, str_lines, str_lines_exec, string_from_chars};

verus! {

/// The log line for one body line.
pub open spec fn tap_line(tag: Seq<char>, line: Seq<char>) -> Seq<char> {
    tag + ": "@ + match pretty_json_of(line) {
        Some(p) => p,
        None => line,
    }
}

/// The log lines for a body: one per line of its text.
pub fn log_json_lines(tag: &str, text: &str) -> (r: Vec<String>)
    ensures
        r@.len() == str_lines(text@).len(),
        forall|i: int| 0 <= i < r@.len() ==> #[trigger] r@[i]@ == tap_line(tag@, str_lines(text@)[i]),
{
    let lines = str_lines_exec(text);
    let ghost ls = str_lines(text@);
    let mut out: Vec<String> = Vec::new();
    let mut i: usize = 0;
    while i < lines.len()
        invariant
            i <= lines.len(),
            lines@.map_values(|l: Vec<char>| l@) == ls,
            out@.len() == i,
            forall|k: int| 0 <= k < i ==> #[trigger] out@[k]@ == tap_line(tag@, ls[k]),
        decreases lines.len() - i,
    {
        let line = string_from_chars(lines[i].as_slice());
        assert(line@ == ls[i as int]);
        let shown = match pretty_json_line(line.as_str()) {
            Some(p) => p,
            None => line,
        };
        let a = str_concat(tag, ": ");
        out.push(str_concat(a.as_str(), shown.as_str()));
        i = i + 1;
    }
    out
}

} // verus!
