//! The `exec_local` tool: which scripts may run (relative paths inside the
//! active skill directory, whitelisted runners), how its parameters are
//! checked, and how its output and command line are shaped.

use vstd::prelude::*;

use crate::text::{
    chars_eq, chars_of, join_spec, join_strings, lemma_split_on_nonempty, slice_chars, split_on,
    split_on_exec, str_concat, string_from_chars, trim_spec, trim_str,
};

verus! {

/// The kinds of refusal a tool reports.
#[derive(Debug, Clone, Copy, PartialEq, Eq, Structural)]
pub enum ToolErrorKind {
    Validation,
    PermissionDenied,
    NotFound,
    Timeout,
    Tool,
}

/// Why a tool refuses a call: a kind and a message.
#[derive(Debug, Clone)]
pub struct ToolError {
    pub kind: ToolErrorKind,
    pub message: String,
}

/// A tool error as a kind and the message's characters.
pub open spec fn err_view(e: ToolError) -> (ToolErrorKind, Seq<char>) {
    (e.kind, e.message@)
}

pub fn tool_error(kind: ToolErrorKind, message: &str) -> (e: ToolError)
    ensures
        err_view(e) == (kind, message@),
{
    ToolError { kind, message: message.to_owned() }
}

/// The interpreters `exec_local` may run a script with.
pub open spec fn allowed_runner(r: Seq<char>) -> bool {
    r == "python3"@ || r == "bash"@ || r == "sh"@ || r == "node"@ || r == "php"@
}

/// A path component `..` occurs in `s` (between slashes or at either end).
pub open spec fn has_parent_component(s: Seq<char>) -> bool {
    exists|i: int|
        0 <= i && i + 2 <= s.len() && #[trigger] s[i] == '.' && s[i + 1] == '.' && (i == 0 || s[i
            - 1] == '/') && (i + 2 == s.len() || s[i + 2] == '/')
}

/// Why a script path is refused: missing, absolute, or climbing out with `..`.
pub open spec fn path_error_spec(path: Seq<char>) -> Option<(ToolErrorKind, Seq<char>)> {
    let t = trim_spec(path);
    if t.len() == 0 {
        Some((ToolErrorKind::Validation, "Missing required parameter: path"@))
    } else if t[0] == '/' {
        Some((ToolErrorKind::Validation, "`path` must be relative to the active skill directory"@))
    } else if has_parent_component(t) {
        Some((ToolErrorKind::PermissionDenied, "`path` cannot escape the active skill directory"@))
    } else {
        None
    }
}

fn parent_component_at(s: &[char], i: usize) -> (r: bool)
    requires
        i + 2 <= s.len(),
    ensures
        r == (s@[i as int] == '.' && s@[i + 1] == '.' && (i == 0 || s@[i - 1] == '/') && (i + 2
            == s.len() || s@[i + 2] == '/')),
{
    s[i] == '.' && s[i + 1] == '.' && (i == 0 || s[i - 1] == '/') && (i + 2 == s.len() || s[i + 2]
        == '/')
}

fn find_parent_component(s: &[char]) -> (r: bool)
    ensures
        r == has_parent_component(s@),
{
    let mut i: usize = 0;
    while i < s.len() && s.len() - i >= 2
        invariant
            i <= s.len(),
            forall|j: int|
                0 <= j < i && j + 2 <= s.len() ==> !(#[trigger] s@[j] == '.' && s@[j + 1] == '.' && (
                j == 0 || s@[j - 1] == '/') && (j + 2 == s.len() || s@[j + 2] == '/')),
        decreases s.len() - i,
    {
        if parent_component_at(s, i) {
            return true;
        }
        i = i + 1;
    }
    false
}

/// Checks that a script path is relative and stays inside the skill directory.
pub fn validate_relative_skill_path(path: &str) -> (r: Result<(), ToolError>)
    ensures
        r is Err <==> path_error_spec(path@) is Some,
        r matches Err(e) ==> path_error_spec(path@) == Some(err_view(e)),
{
    let t = trim_str(path);
    if t.len() == 0 {
        return Err(tool_error(ToolErrorKind::Validation, "Missing required parameter: path"));
    }
    if t[0] == '/' {
        return Err(
            tool_error(ToolErrorKind::Validation, "`path` must be relative to the active skill directory"),
        );
    }
    if find_parent_component(t.as_slice()) {
        return Err(
            tool_error(ToolErrorKind::PermissionDenied, "`path` cannot escape the active skill directory"),
        );
    }
    Ok(())
}

fn str_is(a: &[char], b: &str) -> (r: bool)
    ensures
        r == (a@ == b@),
{
    let w = chars_of(b);
    chars_eq(a, w.as_slice())
}

/// Checks that a runner is one of the whitelisted interpreters.
pub fn validate_runner(runner: &str) -> (r: Result<(), ToolError>)
    ensures
        r is Ok <==> allowed_runner(runner@),
        r matches Err(e) ==> err_view(e) == (
            ToolErrorKind::PermissionDenied,
            "Runner '"@ + runner@ + "' is not allowed for exec_local"@,
        ),
{
    let v = chars_of(runner);
    let x = v.as_slice();
    if str_is(x, "python3") || str_is(x, "bash") || str_is(x, "sh") || str_is(x, "node") || str_is(x, "php") {
        return Ok(());
    }
    let a = str_concat("Runner '", runner);
    let m = str_concat(a.as_str(), "' is not allowed for exec_local");
    Err(ToolError { kind: ToolErrorKind::PermissionDenied, message: m })
}

/// Output cut to `max_chars` characters, with a line naming the cut.
pub open spec fn truncate_output_spec(text: Seq<char>, max_chars: nat, suffix: Seq<char>) -> Seq<char> {
    if text.len() <= max_chars {
        text
    } else {
        text.take(max_chars as int) + "\n"@ + suffix
    }
}

pub fn truncate_output(text: String, max_chars: usize, suffix: &str) -> (r: String)
    ensures
        r@ == truncate_output_spec(text@, max_chars as nat, suffix@),
{
    let v = chars_of(text.as_str());
    if v.len() <= max_chars {
        return text;
    }
    let head = slice_chars(v.as_slice(), 0, max_chars);
    let h = string_from_chars(head.as_slice());
    let a = str_concat(h.as_str(), "\n");
    str_concat(a.as_str(), suffix)
}

/// The parameters of an `exec_local` call, as read from its JSON: each is
/// `None` when absent or not of the expected JSON type; an `args` entry is
/// `None` when it is not a string.
#[derive(Debug, Clone)]
pub struct ExecLocalParams {
    pub path: Option<String>,
    pub runner: Option<String>,
    pub args: Option<Vec<Option<String>>>,
    pub cwd_mode: Option<String>,
}

/// Some `args` entry is not a string.
pub open spec fn has_bad_arg(args: Option<Vec<Option<String>>>) -> bool {
    match args {
        Some(a) => exists|i: int| 0 <= i < a@.len() && (#[trigger] a@[i]) is None,
        None => false,
    }
}

/// Why parameters are refused, in the order they are checked.
pub open spec fn params_error_spec(p: ExecLocalParams) -> Option<(ToolErrorKind, Seq<char>)> {
    match p.path {
        None => Some((ToolErrorKind::Validation, "Missing required parameter: path"@)),
        Some(path) => if path_error_spec(path@) is Some {
            path_error_spec(path@)
        } else if p.runner is Some && !allowed_runner(p.runner->0@) {
            Some(
                (
                    ToolErrorKind::PermissionDenied,
                    "Runner '"@ + p.runner->0@ + "' is not allowed for exec_local"@,
                ),
            )
        } else if has_bad_arg(p.args) {
            Some((ToolErrorKind::Validation, "`args` must be an array of strings"@))
        } else if p.cwd_mode is Some && p.cwd_mode->0@ != "skill"@ {
            Some((ToolErrorKind::Validation, "`cwd_mode` only supports `skill`"@))
        } else {
            None
        },
    }
}

fn any_bad_arg(args: &Option<Vec<Option<String>>>) -> (r: bool)
    ensures
        r == has_bad_arg(*args),
{
    match args {
        Some(a) => {
            let mut i: usize = 0;
            while i < a.len()
                invariant
                    i <= a.len(),
                    *args == Some(*a),
                    forall|j: int| 0 <= j < i ==> (#[trigger] a@[j]) is Some,
                decreases a.len() - i,
            {
                if a[i].is_none() {
                    assert(a@[i as int] is None);
                    return true;
                }
                i = i + 1;
            }
            false
        },
        None => false,
    }
}

/// The checks `exec_local` runs on its parameters before anything else.
pub fn validate_params(p: &ExecLocalParams) -> (r: Result<(), ToolError>)
    ensures
        r is Err <==> params_error_spec(*p) is Some,
        r matches Err(e) ==> params_error_spec(*p) == Some(err_view(e)),
{
    let path = match &p.path {
        Some(x) => x,
        None => {
            return Err(tool_error(ToolErrorKind::Validation, "Missing required parameter: path"));
        },
    };
    match validate_relative_skill_path(path.as_str()) {
        Ok(()) => {},
        Err(e) => {
            return Err(e);
        },
    }
    match &p.runner {
        Some(r) => match validate_runner(r.as_str()) {
            Ok(()) => {},
            Err(e) => {
                return Err(e);
            },
        },
        None => {},
    }
    if any_bad_arg(&p.args) {
        return Err(tool_error(ToolErrorKind::Validation, "`args` must be an array of strings"));
    }
    match &p.cwd_mode {
        Some(c) => {
            let cv = chars_of(c.as_str());
            if !str_is(cv.as_slice(), "skill") {
                return Err(tool_error(ToolErrorKind::Validation, "`cwd_mode` only supports `skill`"));
            }
        },
        None => {},
    }
    Ok(())
}

/// The command line reported for a run: the runner (when given) and the
/// script, then the arguments, separated by spaces.
pub open spec fn command_line_spec(runner: Option<Seq<char>>, script: Seq<char>, args: Seq<Seq<char>>) -> Seq<char> {
    let head = match runner {
        Some(r) => seq![r, script],
        None => seq![script],
    };
    join_spec(head + args, " "@)
}

pub fn command_line(runner: Option<&str>, script: &str, args: &[String]) -> (r: String)
    ensures
        r@ == command_line_spec(
            match runner {
                Some(x) => Some(x@),
                None => None,
            },
            script@,
            args@.map_values(|s: String| s@),
        ),
{
    let mut parts: Vec<String> = Vec::new();
    match runner {
        Some(x) => {
            parts.push(x.to_owned());
        },
        None => {},
    }
    parts.push(script.to_owned());
    let ghost head = parts@.map_values(|s: String| s@);
    let mut i: usize = 0;
    while i < args.len()
        invariant
            i <= args.len(),
            parts@.map_values(|s: String| s@) == head + args@.map_values(|s: String| s@).take(i as int),
        decreases args.len() - i,
    {
        let ghost before = parts@.map_values(|s: String| s@);
        parts.push(crate::text::copy_string(&args[i]));
        proof {
            assert(parts@.map_values(|s: String| s@) =~= before.push(args@[i as int]@));
            assert(args@.map_values(|s: String| s@).take(i + 1) =~= args@.map_values(|s: String| s@).take(
                i as int,
            ).push(args@[i as int]@));
        }
        i = i + 1;
    }
    assert(args@.map_values(|s: String| s@).take(args.len() as int) =~= args@.map_values(|s: String| s@));
    let ghost h2 = match runner {
        Some(x) => seq![x@, script@],
        None => seq![script@],
    };
    assert(head =~= h2);
    let sp = chars_of(" ");
    let joined = join_strings(parts.as_slice(), sp.as_slice());
    string_from_chars(joined.as_slice())
}

/// The pieces of a path that are neither empty nor `.`.
pub open spec fn normal_parts(segs: Seq<Seq<char>>) -> Seq<Seq<char>>
    decreases segs.len(),
{
    if segs.len() == 0 {
        seq![]
    } else {
        let rest = normal_parts(segs.drop_last());
        if segs.last().len() == 0 || segs.last() == "."@ {
            rest
        } else {
            rest.push(segs.last())
        }
    }
}

/// `Path::components` on Unix: a root `/` or a leading `.`, then the pieces
/// between slashes other than empty ones and `.`.
pub open spec fn path_components(s: Seq<char>) -> Seq<Seq<char>> {
    let segs = split_on(s, '/');
    let lead: Seq<Seq<char>> = if s.len() > 0 && s[0] == '/' {
        seq!["/"@]
    } else if segs[0] == "."@ {
        seq!["."@]
    } else {
        seq![]
    };
    lead + normal_parts(segs)
}

/// `Path::starts_with`: the components of `base` begin those of `target`.
pub open spec fn path_starts_with_spec(target: Seq<char>, base: Seq<char>) -> bool {
    let t = path_components(target);
    let b = path_components(base);
    b.len() <= t.len() && t.take(b.len() as int) == b
}

fn path_components_exec(s: &str) -> (r: Vec<Vec<char>>)
    ensures
        r@.map_values(|l: Vec<char>| l@) == path_components(s@),
{
    let v = chars_of(s);
    let segs = split_on_exec(v.as_slice(), '/');
    let ghost sv = split_on(s@, '/');
    proof {
        lemma_split_on_nonempty(s@, '/');
    }
    assert(segs@.len() == sv.len());
    let dot = chars_of(".");
    let mut out: Vec<Vec<char>> = Vec::new();
    if v.len() > 0 && v[0] == '/' {
        out.push(chars_of("/"));
    } else if chars_eq(segs[0].as_slice(), dot.as_slice()) {
        assert(segs@[0]@ == sv[0]);
        out.push(chars_of("."));
    } else {
        assert(segs@[0]@ == sv[0]);
    }
    let ghost lead = out@.map_values(|l: Vec<char>| l@);
    let mut i: usize = 0;
    assert(sv.take(0) =~= Seq::<Seq<char>>::empty());
    assert(out@.map_values(|l: Vec<char>| l@) =~= lead + normal_parts(sv.take(0)));
    while i < segs.len()
        invariant
            i <= segs.len(),
            segs@.map_values(|l: Vec<char>| l@) == sv,
            dot@ == "."@,
            out@.map_values(|l: Vec<char>| l@) == lead + normal_parts(sv.take(i as int)),
        decreases segs.len() - i,
    {
        proof {
            assert(sv.take(i + 1).drop_last() =~= sv.take(i as int));
            assert(sv.take(i + 1).last() == sv[i as int]);
            assert(segs@[i as int]@ == sv[i as int]);
        }
        let ghost before = out@.map_values(|l: Vec<char>| l@);
        if segs[i].len() > 0 && !chars_eq(segs[i].as_slice(), dot.as_slice()) {
            let c = crate::text::copy_chars(segs[i].as_slice());
            let ghost cv = c@;
            out.push(c);
            assert(out@.map_values(|l: Vec<char>| l@) =~= before.push(cv));
        }
        i = i + 1;
    }
    assert(sv.take(segs.len() as int) =~= sv);
    out
}

/// `Path::starts_with`, component by component.
pub fn path_starts_with(target: &str, base: &str) -> (r: bool)
    ensures
        r == path_starts_with_spec(target@, base@),
{
    let t = path_components_exec(target);
    let b = path_components_exec(base);
    let ghost tv = path_components(target@);
    let ghost bv = path_components(base@);
    assert(t@.len() == tv.len() && b@.len() == bv.len());
    if b.len() > t.len() {
        return false;
    }
    let mut i: usize = 0;
    while i < b.len()
        invariant
            b.len() <= t.len(),
            i <= b.len(),
            t@.map_values(|l: Vec<char>| l@) == tv,
            b@.map_values(|l: Vec<char>| l@) == bv,
            tv == path_components(target@),
            bv == path_components(base@),
            forall|j: int| 0 <= j < i ==> tv[j] == bv[j],
        decreases b.len() - i,
    {
        assert(t@[i as int]@ == tv[i as int] && b@[i as int]@ == bv[i as int]);
        if !chars_eq(t[i].as_slice(), b[i].as_slice()) {
            assert(tv.take(bv.len() as int)[i as int] != bv[i as int]);
            return false;
        }
        i = i + 1;
    }
    assert(tv.take(bv.len() as int) =~= bv);
    true
}

/// The refusal when a resolved script lies outside the skill directory.
pub fn check_inside_skill_dir(canonical_target: &str, canonical_skill_dir: &str) -> (r: Result<(), ToolError>)
    ensures
        r is Ok <==> path_starts_with_spec(canonical_target@, canonical_skill_dir@),
        r matches Err(e) ==> err_view(e) == (
            ToolErrorKind::PermissionDenied,
            "Resolved script path is outside the active skill directory"@,
        ),
{
    if path_starts_with(canonical_target, canonical_skill_dir) {
        Ok(())
    } else {
        Err(tool_error(ToolErrorKind::PermissionDenied, "Resolved script path is outside the active skill directory"))
    }
}

/// Longest output kept from a run, in characters.
pub const MAX_OUTPUT_CHARS: usize = 10000;

/// The checks `exec_local` makes before resolving the script: a skill must
/// be active, and a path given and safe.
pub open spec fn scope_error_spec(has_skill_dir: bool, path: Option<Seq<char>>) -> Option<(ToolErrorKind, Seq<char>)> {
    if !has_skill_dir {
        Some((
            ToolErrorKind::PermissionDenied,
            "`exec_local` is only available inside an active skill execution scope"@,
        ))
    } else {
        match path {
            None => Some((ToolErrorKind::Validation, "Missing required parameter: path"@)),
            Some(p) => path_error_spec(p),
        }
    }
}

pub fn check_scope(has_skill_dir: bool, path: Option<&str>) -> (r: Result<(), ToolError>)
    ensures
        r is Err <==> scope_error_spec(
            has_skill_dir,
            match path {
                Some(p) => Some(p@),
                None => None,
            },
        ) is Some,
        r matches Err(e) ==> scope_error_spec(
            has_skill_dir,
            match path {
                Some(p) => Some(p@),
                None => None,
            },
        ) == Some(err_view(e)),
{
    if !has_skill_dir {
        return Err(tool_error(
            ToolErrorKind::PermissionDenied,
            "`exec_local` is only available inside an active skill execution scope",
        ));
    }
    match path {
        None => Err(tool_error(ToolErrorKind::Validation, "Missing required parameter: path")),
        Some(p) => validate_relative_skill_path(p),
    }
}

/// The error for a script that cannot be found.
pub fn script_not_found(path: &str) -> (e: ToolError)
    ensures
        err_view(e) == (ToolErrorKind::NotFound, "Local script '"@ + path@ + "' not found"@),
{
    let a = str_concat("Local script '", path);
    ToolError { kind: ToolErrorKind::NotFound, message: str_concat(a.as_str(), "' not found") }
}

/// The error for a run that outlived its time limit.
pub fn timed_out(secs: u64) -> (e: ToolError)
    ensures
        err_view(e) == (
            ToolErrorKind::Timeout,
            "Local script timed out after "@ + crate::numbers::decimal_spec(secs as nat) + " seconds"@,
        ),
{
    let d = string_from_chars(crate::numbers::decimal_chars(secs as u128).as_slice());
    let a = str_concat("Local script timed out after ", d.as_str());
    ToolError { kind: ToolErrorKind::Timeout, message: str_concat(a.as_str(), " seconds") }
}

/// After the script is resolved: the runner checked, the arguments taken
/// (each must be a string), and the working directory mode checked (only
/// `skill`, the default).
pub open spec fn run_args_spec(p: ExecLocalParams) -> Result<Seq<Seq<char>>, (ToolErrorKind, Seq<char>)> {
    if p.runner is Some && !allowed_runner(p.runner->0@) {
        Err((ToolErrorKind::PermissionDenied, "Runner '"@ + p.runner->0@ + "' is not allowed for exec_local"@))
    } else if has_bad_arg(p.args) {
        Err((ToolErrorKind::Validation, "`args` must be an array of strings"@))
    } else if p.cwd_mode is Some && p.cwd_mode->0@ != "skill"@ {
        Err((ToolErrorKind::Validation, "`cwd_mode` only supports `skill`"@))
    } else {
        Ok(match p.args {
            Some(a) => a@.map_values(|o: Option<String>| o->0@),
            None => Seq::<Seq<char>>::empty(),
        })
    }
}

pub fn run_args(p: &ExecLocalParams) -> (r: Result<Vec<String>, ToolError>)
    ensures
        match r {
            Ok(v) => run_args_spec(*p) == Ok::<Seq<Seq<char>>, (ToolErrorKind, Seq<char>)>(v@.map_values(|s: String| s@)),
            Err(e) => run_args_spec(*p) == Err::<Seq<Seq<char>>, (ToolErrorKind, Seq<char>)>(err_view(e)),
        },
{
    match &p.runner {
        Some(r) => match validate_runner(r.as_str()) {
            Ok(()) => {},
            Err(e) => {
                return Err(e);
            },
        },
        None => {},
    }
    if any_bad_arg(&p.args) {
        return Err(tool_error(ToolErrorKind::Validation, "`args` must be an array of strings"));
    }
    let mut out: Vec<String> = Vec::new();
    match &p.args {
        Some(a) => {
            let mut i: usize = 0;
            while i < a.len()
                invariant
                    i <= a.len(),
                    forall|j: int| 0 <= j < a@.len() ==> (#[trigger] a@[j]) is Some,
                    out@.map_values(|s: String| s@) == a@.take(i as int).map_values(|o: Option<String>| o->0@),
                decreases a.len() - i,
            {
                let ghost before = out@.map_values(|s: String| s@);
                match &a[i] {
                    Some(s) => {
                        out.push(crate::text::copy_string(s));
                        assert(a@[i as int]->0 == *s);
                        assert(out@.map_values(|s: String| s@) =~= before.push(s@));
                    },
                    None => {},
                }
                assert(a@[i as int] is Some);
                assert(a@.take(i + 1).map_values(|o: Option<String>| o->0@) =~= a@.take(i as int).map_values(
                    |o: Option<String>| o->0@,
                ).push(a@[i as int]->0@));
                assert(out@.map_values(|s: String| s@) =~= a@.take(i + 1).map_values(|o: Option<String>| o->0@));
                i = i + 1;
            }
            assert(a@.take(a.len() as int) =~= a@);
        },
        None => {
            assert(out@.map_values(|s: String| s@) =~= Seq::<Seq<char>>::empty());
        },
    }
    match &p.cwd_mode {
        Some(c) => {
            let cv = chars_of(c.as_str());
            if !str_is(cv.as_slice(), "skill") {
                return Err(tool_error(ToolErrorKind::Validation, "`cwd_mode` only supports `skill`"));
            }
        },
        None => {},
    }
    Ok(out)
}

/// What a tool tells the model about itself: its name, a description, and
/// the JSON schema of its parameters, as JSON text.
#[derive(Debug, Clone)]
pub struct ToolSchema {
    pub name: String,
    pub description: String,
    pub parameters: String,
}

pub const EXEC_LOCAL_DESCRIPTION: &'static str = "Execute a local script or executable inside the active skill directory only.";

pub const EXEC_LOCAL_PARAMETERS: &'static str = r#"{"type":"object","properties":{"path":{"type":"string","description":"Relative path to the script or executable inside the active skill directory."},"runner":{"type":"string","description":"Optional interpreter or runner. Allowed: python3, bash, sh, node, php."},"args":{"type":"array","description":"Arguments passed to the script or executable.","items":{"type":"string"}},"cwd_mode":{"type":"string","description":"Working directory mode. Only `skill` is supported.","enum":["skill"]}},"required":["path"]}"#;

/// The `exec_local` tool.
pub struct ExecLocalTool;

impl ExecLocalTool {
    pub fn schema(&self) -> (s: ToolSchema)
        ensures
            s.name@ == "exec_local"@,
            s.description@ == EXEC_LOCAL_DESCRIPTION@,
            s.parameters@ == EXEC_LOCAL_PARAMETERS@,
    {
        ToolSchema {
            name: "exec_local".to_owned(),
            description: EXEC_LOCAL_DESCRIPTION.to_owned(),
            parameters: EXEC_LOCAL_PARAMETERS.to_owned(),
        }
    }

    /// The checks run on the tool's parameters before it is executed.
    pub fn validate(&self, params: &ExecLocalParams) -> (r: Result<(), ToolError>)
        ensures
            r is Err <==> params_error_spec(*params) is Some,
            r matches Err(e) ==> params_error_spec(*params) == Some(err_view(e)),
    {
        validate_params(params)
    }
}

} // verus!
