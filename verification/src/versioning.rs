//! Skill versions: the history of a skill's versions and the rules that
//! create, switch, roll back, prune and import them; where version files lie;
//! the hash of a skill's script and the line diff of two scripts.

use vstd::prelude::*;

use crate::crypto::{hex_encode, md5_digest, md5_of};
use crate::numbers::{bytes_hex_spec, decimal_chars, decimal_spec};
use crate::text::{
    chars_eq, chars_of, copy_opt_string, copy_string, has_prefix, has_suffix, lemma_lines_of_nonempty,
    lines_of, str_concat, str_lines, str_lines_exec, string_from_chars,
};
use vstd::utf8::encode_utf8;

verus! {

#[derive(Debug, Clone, Copy, PartialEq, Eq, Structural)]
pub enum VersionSource {
    Manual,
    Evolution,
    Import,
}

#[derive(Debug, Clone)]
pub struct SkillVersion {
    pub version: String,
    pub hash: String,
    pub created_at: i64,
    pub created_by: VersionSource,
    pub changelog: Option<String>,
    pub parent_version: Option<String>,
}

#[derive(Debug, Clone)]
pub struct VersionHistory {
    pub skill_name: String,
    pub versions: Vec<SkillVersion>,
    pub current_version: String,
}

/// The label of the `n`-th version: `v` and the number.
pub open spec fn version_label(n: nat) -> Seq<char> {
    "v"@ + decimal_spec(n)
}

fn version_label_exec(n: usize) -> (r: String)
    ensures
        r@ == version_label(n as nat),
{
    let d = string_from_chars(decimal_chars(n as u128).as_slice());
    str_concat("v", d.as_str())
}

pub fn copy_version(v: &SkillVersion) -> (r: SkillVersion)
    ensures
        r == *v,
{
    SkillVersion {
        version: copy_string(&v.version),
        hash: copy_string(&v.hash),
        created_at: v.created_at,
        created_by: v.created_by,
        changelog: copy_opt_string(&v.changelog),
        parent_version: copy_opt_string(&v.parent_version),
    }
}

/// Position of the first version with this label.
pub open spec fn is_first_version(vs: Seq<SkillVersion>, label: Seq<char>, i: int) -> bool {
    &&& 0 <= i < vs.len()
    &&& vs[i].version@ == label
    &&& forall|j: int| 0 <= j < i ==> (#[trigger] vs[j]).version@ != label
}

impl VersionHistory {
    /// The history of a skill that has none yet: no versions, current `v1`.
    pub fn empty(skill_name: &str) -> (h: Self)
        ensures
            h.skill_name@ == skill_name@,
            h.versions@.len() == 0,
            h.current_version@ == "v1"@,
    {
        VersionHistory { skill_name: skill_name.to_owned(), versions: Vec::new(), current_version: "v1".to_owned() }
    }

    /// Records a new version of the current skill content, with the given
    /// hash and time: labelled after the count of versions, child of the
    /// current version, and made current. Returns it.
    pub fn add_version(
        &mut self,
        hash: String,
        created_at: i64,
        source: VersionSource,
        changelog: Option<String>,
    ) -> (v: SkillVersion)
        requires
            old(self).versions@.len() < usize::MAX,
        ensures
            v.version@ == version_label(old(self).versions@.len() + 1),
            v.hash == hash && v.created_at == created_at && v.created_by == source,
            v.changelog == changelog,
            v.parent_version == Some(old(self).current_version),
            final(self).versions@ == old(self).versions@.push(v),
            final(self).current_version@ == v.version@,
            final(self).skill_name == old(self).skill_name,
    {
        let label = version_label_exec(self.versions.len() + 1);
        let v = SkillVersion {
            version: copy_string(&label),
            hash,
            created_at,
            created_by: source,
            changelog,
            parent_version: Some(copy_string(&self.current_version)),
        };
        self.versions.push(copy_version(&v));
        self.current_version = label;
        v
    }

    /// Position of the version labelled `version`; the error `Version … not
    /// found` when there is none.
    pub fn find_version(&self, version: &str) -> (r: Result<usize, String>)
        ensures
            r matches Ok(i) ==> is_first_version(self.versions@, version@, i as int),
            r is Err <==> forall|j: int| 0 <= j < self.versions@.len() ==> (#[trigger] self.versions@[j]).version@ != version@,
            r matches Err(e) ==> e@ == "Version "@ + version@ + " not found"@,
    {
        let want = chars_of(version);
        let mut i: usize = 0;
        while i < self.versions.len()
            invariant
                i <= self.versions.len(),
                want@ == version@,
                forall|j: int| 0 <= j < i ==> (#[trigger] self.versions@[j]).version@ != version@,
            decreases self.versions.len() - i,
        {
            let have = chars_of(self.versions[i].version.as_str());
            if chars_eq(have.as_slice(), want.as_slice()) {
                return Ok(i);
            }
            i = i + 1;
        }
        let a = str_concat("Version ", version);
        Err(str_concat(a.as_str(), " not found"))
    }

    /// Makes `version` current (after its snapshot was restored).
    pub fn set_current(&mut self, version: &str)
        ensures
            final(self).current_version@ == version@,
            final(self).versions == old(self).versions,
            final(self).skill_name == old(self).skill_name,
    {
        self.current_version = version.to_owned();
    }

    /// The version a rollback returns to: the one before the last recorded;
    /// an error when there are fewer than two.
    pub fn rollback_target(&self) -> (r: Result<String, String>)
        ensures
            r is Err <==> self.versions@.len() < 2,
            r matches Ok(v) ==> v == self.versions@[self.versions@.len() - 2].version,
            r matches Err(e) ==> e@ == "No previous version to rollback to for skill '"@ + self.skill_name@ + "'"@,
    {
        if self.versions.len() < 2 {
            let a = str_concat("No previous version to rollback to for skill '", self.skill_name.as_str());
            return Err(str_concat(a.as_str(), "'"));
        }
        Ok(copy_string(&self.versions[self.versions.len() - 2].version))
    }

    /// Keeps the `keep_count` most recent versions; returns the removed ones,
    /// oldest first.
    pub fn prune(&mut self, keep_count: usize) -> (removed: Vec<SkillVersion>)
        ensures
            old(self).versions@.len() <= keep_count ==> removed@.len() == 0 && final(self).versions@
                == old(self).versions@,
            old(self).versions@.len() > keep_count ==> {
                &&& removed@ == old(self).versions@.take(old(self).versions@.len() - keep_count)
                &&& final(self).versions@ == old(self).versions@.skip(old(self).versions@.len() - keep_count)
            },
            removed@ + final(self).versions@ == old(self).versions@,
            final(self).current_version == old(self).current_version,
            final(self).skill_name == old(self).skill_name,
    {
        let ghost orig = self.versions@;
        if self.versions.len() <= keep_count {
            assert(Seq::<SkillVersion>::empty() + orig =~= orig);
            return Vec::new();
        }
        let cut = self.versions.len() - keep_count;
        let mut removed: Vec<SkillVersion> = Vec::new();
        let mut kept: Vec<SkillVersion> = Vec::new();
        let mut i: usize = 0;
        while i < self.versions.len()
            invariant
                self.versions@ == orig,
                cut <= orig.len(),
                i <= orig.len(),
                removed@ == orig.take(if i < cut { i as int } else { cut as int }),
                kept@ == (if i <= cut { Seq::<SkillVersion>::empty() } else { orig.subrange(cut as int, i as int) }),
            decreases orig.len() - i,
        {
            let v = copy_version(&self.versions[i]);
            if i < cut {
                removed.push(v);
                assert(removed@ =~= orig.take(i + 1));
            } else {
                kept.push(v);
                assert(kept@ =~= orig.subrange(cut as int, i + 1));
            }
            i = i + 1;
        }
        assert(kept@ =~= orig.skip(cut as int));
        assert(removed@ + kept@ =~= orig);
        self.versions = kept;
        removed
    }

    /// Records an imported version: relabelled after the count of versions,
    /// marked as imported at `now`, and appended; the current version stays.
    pub fn add_imported(&mut self, version: SkillVersion, now: i64) -> (v: SkillVersion)
        requires
            old(self).versions@.len() < usize::MAX,
        ensures
            v == (SkillVersion {
                version: v.version,
                created_by: VersionSource::Import,
                created_at: now,
                ..version
            }),
            v.version@ == version_label(old(self).versions@.len() + 1),
            final(self).versions@ == old(self).versions@.push(v),
            final(self).current_version == old(self).current_version,
            final(self).skill_name == old(self).skill_name,
    {
        let mut version = version;
        version.version = version_label_exec(self.versions.len() + 1);
        version.created_by = VersionSource::Import;
        version.created_at = now;
        self.versions.push(copy_version(&version));
        version
    }
}

/// Rolling back after creating a version returns to the version that was
/// last before it, whenever there was one.
pub proof fn lemma_rollback_after_create(before: Seq<SkillVersion>, created: SkillVersion)
    requires
        before.len() >= 1,
    ensures
        before.push(created).len() >= 2,
        before.push(created)[before.push(created).len() - 2] == before.last(),
{
}

} // verus!

verus! {

/// Where skills live, and where each skill keeps its versions.
pub struct VersionManager {
    pub skills_dir: String,
}

/// `Path::join` on Unix: a part that starts with `/` replaces the base;
/// otherwise it is appended after a `/`, unless the base is empty or already
/// ends with one.
pub open spec fn path_join_spec(base: Seq<char>, part: Seq<char>) -> Seq<char> {
    if has_prefix(part, "/"@) || base.len() == 0 {
        part
    } else if has_suffix(base, "/"@) {
        base + part
    } else {
        base + "/"@ + part
    }
}

pub fn path_join(base: &str, part: &str) -> (r: String)
    ensures
        r@ == path_join_spec(base@, part@),
{
    let b = chars_of(base);
    let p = chars_of(part);
    let slash = chars_of("/");
    if crate::text::starts_with(p.as_slice(), slash.as_slice()) || b.len() == 0 {
        return string_from_chars(p.as_slice());
    }
    if crate::text::ends_with(b.as_slice(), slash.as_slice()) {
        return str_concat(base, part);
    }
    let a = str_concat(base, "/");
    str_concat(a.as_str(), part)
}

/// The script files a skill may have, in the order they are looked for.
pub open spec fn skill_file_name(k: int) -> Seq<char> {
    if k == 0 {
        "SKILL.rhai"@
    } else if k == 1 {
        "SKILL.py"@
    } else {
        "SKILL.md"@
    }
}

/// Whether a path names something on disk (`Path::exists`). Nothing is
/// stated of it: it depends on the disk.
#[verifier::external_body]
fn path_exists(p: &str) -> bool {
    std::path::Path::new(p).exists()
}

impl VersionManager {
    pub fn new(skills_dir: String) -> (m: Self)
        ensures
            m.skills_dir == skills_dir,
    {
        VersionManager { skills_dir }
    }

    /// `<skills_dir>/<skill>/version_history.json`.
    pub fn get_history_file_path(&self, skill_name: &str) -> (r: String)
        ensures
            r@ == path_join_spec(path_join_spec(self.skills_dir@, skill_name@), "version_history.json"@),
    {
        let d = path_join(self.skills_dir.as_str(), skill_name);
        path_join(d.as_str(), "version_history.json")
    }

    /// `<skills_dir>/<skill>/versions/<version>`.
    pub fn get_version_snapshot_dir(&self, skill_name: &str, version: &str) -> (r: String)
        ensures
            r@ == path_join_spec(
                path_join_spec(path_join_spec(self.skills_dir@, skill_name@), "versions"@),
                version@,
            ),
    {
        let d = path_join(self.skills_dir.as_str(), skill_name);
        let v = path_join(d.as_str(), "versions");
        path_join(v.as_str(), version)
    }

    /// `<skills_dir>/<skill>`.
    pub fn skill_dir(&self, skill_name: &str) -> (r: String)
        ensures
            r@ == path_join_spec(self.skills_dir@, skill_name@),
    {
        path_join(self.skills_dir.as_str(), skill_name)
    }

    /// The first of `SKILL.rhai`, `SKILL.py`, `SKILL.md` present in a
    /// directory, as `primary_of` chooses it from what the disk answers.
    pub fn primary_skill_file(skill_dir: &str) -> (r: Option<String>)
        ensures
            r matches Some(p) ==> exists|k: int| 0 <= k < 3 && p@ == path_join_spec(skill_dir@, #[trigger] skill_file_name(k)),
            exists|has_rhai: bool, has_py: bool, has_md: bool|
                #[trigger] primary_of_spec(skill_dir@, has_rhai, has_py, has_md) == opt_path(r),
    {
        let rhai = path_join(skill_dir, "SKILL.rhai");
        let py = path_join(skill_dir, "SKILL.py");
        let md = path_join(skill_dir, "SKILL.md");
        let has_rhai = path_exists(rhai.as_str());
        let has_py = path_exists(py.as_str());
        let has_md = path_exists(md.as_str());
        let r = primary_of(skill_dir, has_rhai, has_py, has_md);
        proof {
            if r is Some {
                if has_rhai {
                    assert(r->0@ == path_join_spec(skill_dir@, skill_file_name(0)));
                } else if has_py {
                    assert(r->0@ == path_join_spec(skill_dir@, skill_file_name(1)));
                } else {
                    assert(r->0@ == path_join_spec(skill_dir@, skill_file_name(2)));
                }
            }
        }
        r
    }
}

pub open spec fn opt_path(o: Option<String>) -> Option<Seq<char>> {
    match o {
        Some(p) => Some(p@),
        None => None,
    }
}

/// The skill's primary script, given which of its files exist: `SKILL.rhai`
/// first, then `SKILL.py`, then `SKILL.md`, joined to the directory.
pub open spec fn primary_of_spec(skill_dir: Seq<char>, has_rhai: bool, has_py: bool, has_md: bool) -> Option<Seq<char>> {
    if has_rhai {
        Some(path_join_spec(skill_dir, "SKILL.rhai"@))
    } else if has_py {
        Some(path_join_spec(skill_dir, "SKILL.py"@))
    } else if has_md {
        Some(path_join_spec(skill_dir, "SKILL.md"@))
    } else {
        None
    }
}

/// The skill's primary script from which of its three files exist: the
/// first present of `SKILL.rhai`, `SKILL.py`, `SKILL.md`, joined to the directory.
pub fn primary_of(skill_dir: &str, has_rhai: bool, has_py: bool, has_md: bool) -> (r: Option<String>)
    ensures
        opt_path(r) == primary_of_spec(skill_dir@, has_rhai, has_py, has_md),
{
    if has_rhai {
        Some(path_join(skill_dir, "SKILL.rhai"))
    } else if has_py {
        Some(path_join(skill_dir, "SKILL.py"))
    } else if has_md {
        Some(path_join(skill_dir, "SKILL.md"))
    } else {
        None
    }
}

/// The hash recorded for a skill: the lowercase hex MD5 of its primary
/// script, or `empty` when it has none.
pub open spec fn skill_hash_spec(content: Option<Seq<char>>) -> Seq<char> {
    match content {
        Some(c) => bytes_hex_spec(md5_of(encode_utf8(c))),
        None => "empty"@,
    }
}

pub fn skill_hash(content: Option<&str>) -> (r: String)
    ensures
        r@ == skill_hash_spec(
            match content {
                Some(c) => Some(c@),
                None => None,
            },
        ),
{
    match content {
        Some(c) => {
            let d = md5_digest(c.as_bytes());
            hex_encode(d.as_slice())
        },
        None => "empty".to_owned(),
    }
}

/// The diff text for line `i` of two line lists.
pub open spec fn diff_line(a: Seq<Seq<char>>, b: Seq<Seq<char>>, i: int) -> Seq<char> {
    if i < a.len() && i < b.len() {
        if a[i] == b[i] {
            "  "@ + a[i] + "\n"@
        } else {
            "- "@ + a[i] + "\n"@ + "+ "@ + b[i] + "\n"@
        }
    } else if i < a.len() {
        "- "@ + a[i] + "\n"@
    } else if i < b.len() {
        "+ "@ + b[i] + "\n"@
    } else {
        seq![]
    }
}

/// The diff text for the first `n` lines.
pub open spec fn diff_body(a: Seq<Seq<char>>, b: Seq<Seq<char>>, n: nat) -> Seq<char>
    decreases n,
{
    if n == 0 {
        seq![]
    } else {
        diff_body(a, b, (n - 1) as nat) + diff_line(a, b, n - 1)
    }
}

/// A line-by-line comparison of two scripts: a header, then each line kept
/// (`  `), changed (`- ` then `+ `), removed (`- `) or added (`+ `).
pub open spec fn diff_spec(c1: Seq<char>, c2: Seq<char>) -> Seq<char> {
    let a = str_lines(c1);
    let b = str_lines(c2);
    "--- version 1\n+++ version 2\n"@ + diff_body(a, b, if a.len() >= b.len() { a.len() } else { b.len() })
}

proof fn lemma_diff_body_prefix(a: Seq<Seq<char>>, b: Seq<Seq<char>>, i: nat, n: nat)
    requires
        i <= n,
    ensures
        diff_body(a, b, i).len() <= diff_body(a, b, n).len(),
        diff_body(a, b, n).subrange(0, diff_body(a, b, i).len() as int) == diff_body(a, b, i),
    decreases n,
{
    if i < n {
        lemma_diff_body_prefix(a, b, i, (n - 1) as nat);
        let p = diff_body(a, b, (n - 1) as nat);
        let q = diff_body(a, b, n);
        assert(q.subrange(0, diff_body(a, b, i).len() as int) =~= p.subrange(0, diff_body(a, b, i).len() as int));
    } else {
        assert(diff_body(a, b, n).subrange(0, diff_body(a, b, n).len() as int) =~= diff_body(a, b, n));
    }
}

/// `d` holds, from position `k`, the two-character mark `mark`, then `line`
/// and a newline.
pub open spec fn shows_line_at(d: Seq<char>, k: int, mark: Seq<char>, line: Seq<char>) -> bool {
    &&& 0 <= k
    &&& k + 2 + line.len() + 1 <= d.len()
    &&& d.subrange(k, k + 2) == mark
    &&& d.subrange(k + 2, k + 2 + line.len()) == line
    &&& d[k + 2 + line.len()] == '\n'
}

/// Where `piece` stands in `d` from `k`, a marked line inside `piece` stands
/// in `d` too.
proof fn lemma_shows_inside(d: Seq<char>, k: int, piece: Seq<char>, off: int, mark: Seq<char>, line: Seq<char>)
    requires
        0 <= k,
        k + piece.len() <= d.len(),
        forall|j: int| 0 <= j < piece.len() ==> #[trigger] d[k + j] == piece[j],
        shows_line_at(piece, off, mark, line),
    ensures
        shows_line_at(d, k + off, mark, line),
{
    let ll = line.len() as int;
    assert(d[k + (off + 2 + ll)] == piece[off + 2 + ll]);
    assert(d.subrange(k + off, k + off + 2) =~= piece.subrange(off, off + 2)) by {
        assert forall|j: int| 0 <= j < 2 implies #[trigger] d.subrange(k + off, k + off + 2)[j] == piece.subrange(
            off,
            off + 2,
        )[j] by {
            assert(d[k + (off + j)] == piece[off + j]);
        }
    }
    assert(d.subrange(k + off + 2, k + off + 2 + ll) =~= piece.subrange(off + 2, off + 2 + ll)) by {
        assert forall|j: int| 0 <= j < ll implies #[trigger] d.subrange(k + off + 2, k + off + 2 + ll)[j]
            == piece.subrange(off + 2, off + 2 + ll)[j] by {
            assert(d[k + (off + 2 + j)] == piece[off + 2 + j]);
        }
    }
}

/// Line `i` of the comparison stands in the diff after the lines before it.
proof fn lemma_diff_line_in_diff(c1: Seq<char>, c2: Seq<char>, i: int) -> (k: int)
    requires
        0 <= i,
        i < str_lines(c1).len() || i < str_lines(c2).len(),
    ensures
        0 <= k,
        k + diff_line(str_lines(c1), str_lines(c2), i).len() <= diff_spec(c1, c2).len(),
        forall|j: int|
            0 <= j < diff_line(str_lines(c1), str_lines(c2), i).len() ==> #[trigger] diff_spec(c1, c2)[k + j]
                == diff_line(str_lines(c1), str_lines(c2), i)[j],
{
    let a = str_lines(c1);
    let b = str_lines(c2);
    let n: nat = if a.len() >= b.len() { a.len() } else { b.len() };
    let head = "--- version 1\n+++ version 2\n"@;
    let d = diff_spec(c1, c2);
    lemma_diff_body_prefix(a, b, (i + 1) as nat, n);
    let pre = diff_body(a, b, i as nat);
    let line = diff_line(a, b, i);
    assert(diff_body(a, b, (i + 1) as nat) == pre + line);
    let body = diff_body(a, b, n);
    let k: int = head.len() as int + pre.len() as int;
    assert forall|j: int| 0 <= j < line.len() implies #[trigger] d[k + j] == line[j] by {
        assert(body.subrange(0, (pre + line).len() as int)[pre.len() + j] == (pre + line)[pre.len() + j]);
        assert(d[k + j] == body[pre.len() + j]);
    }
    k
}

proof fn lemma_diff_shows_old_line(c1: Seq<char>, c2: Seq<char>, i: int) -> (w: int)
    requires
        0 <= i < str_lines(c1).len(),
    ensures
        shows_line_at(diff_spec(c1, c2), w, "  "@, str_lines(c1)[i]) || shows_line_at(
            diff_spec(c1, c2),
            w,
            "- "@,
            str_lines(c1)[i],
        ),
{
    let a = str_lines(c1);
    let b = str_lines(c2);
    let d = diff_spec(c1, c2);
    reveal_strlit("  ");
    reveal_strlit("- ");
    reveal_strlit("\n");
    let k = lemma_diff_line_in_diff(c1, c2, i);
    let line = diff_line(a, b, i);
    let l = a[i];
    let ll: int = l.len() as int;
    if i < b.len() && a[i] == b[i] {
        assert(line.subrange(0, 2) =~= "  "@);
        assert(line.subrange(2, 2 + ll) =~= l);
        assert(line[2 + ll] == '\n');
        lemma_shows_inside(d, k, line, 0, "  "@, l);
    } else {
        assert(line.subrange(0, 2) =~= "- "@);
        assert(line.subrange(2, 2 + ll) =~= l);
        assert(line[2 + ll] == '\n');
        lemma_shows_inside(d, k, line, 0, "- "@, l);
    }
    k
}

proof fn lemma_diff_shows_new_line(c1: Seq<char>, c2: Seq<char>, i: int) -> (w: int)
    requires
        0 <= i < str_lines(c2).len(),
    ensures
        shows_line_at(diff_spec(c1, c2), w, "  "@, str_lines(c2)[i]) || shows_line_at(
            diff_spec(c1, c2),
            w,
            "+ "@,
            str_lines(c2)[i],
        ),
{
    let a = str_lines(c1);
    let b = str_lines(c2);
    let d = diff_spec(c1, c2);
    reveal_strlit("  ");
    reveal_strlit("- ");
    reveal_strlit("+ ");
    reveal_strlit("\n");
    let k = lemma_diff_line_in_diff(c1, c2, i);
    let line = diff_line(a, b, i);
    let l = b[i];
    let ll: int = l.len() as int;
    if i < a.len() && a[i] == b[i] {
        assert(line.subrange(0, 2) =~= "  "@);
        assert(line.subrange(2, 2 + ll) =~= l);
        assert(line[2 + ll] == '\n');
        lemma_shows_inside(d, k, line, 0, "  "@, l);
        k
    } else if i < a.len() {
        let off: int = 2 + a[i].len() as int + 1;
        assert(line.subrange(off, off + 2) =~= "+ "@);
        assert(line.subrange(off + 2, off + 2 + ll) =~= l);
        assert(line[off + 2 + ll] == '\n');
        lemma_shows_inside(d, k, line, off, "+ "@, l);
        k + off
    } else {
        assert(line.subrange(0, 2) =~= "+ "@);
        assert(line.subrange(2, 2 + ll) =~= l);
        assert(line[2 + ll] == '\n');
        lemma_shows_inside(d, k, line, 0, "+ "@, l);
        k
    }
}

/// Every line of the first version shows in the diff, kept (`  `) or
/// removed (`- `); every line of the second shows, kept (`  `) or added
/// (`+ `).
pub proof fn lemma_diff_shows_every_line(c1: Seq<char>, c2: Seq<char>, i: int)
    ensures
        0 <= i < str_lines(c1).len() ==> exists|k: int|
            (#[trigger] shows_line_at(diff_spec(c1, c2), k, "  "@, str_lines(c1)[i]) || shows_line_at(
                diff_spec(c1, c2),
                k,
                "- "@,
                str_lines(c1)[i],
            )),
        0 <= i < str_lines(c2).len() ==> exists|k: int|
            (#[trigger] shows_line_at(diff_spec(c1, c2), k, "  "@, str_lines(c2)[i]) || shows_line_at(
                diff_spec(c1, c2),
                k,
                "+ "@,
                str_lines(c2)[i],
            )),
{
    if 0 <= i < str_lines(c1).len() {
        let w = lemma_diff_shows_old_line(c1, c2, i);
        assert(shows_line_at(diff_spec(c1, c2), w, "  "@, str_lines(c1)[i]) || shows_line_at(
            diff_spec(c1, c2),
            w,
            "- "@,
            str_lines(c1)[i],
        ));
    }
    if 0 <= i < str_lines(c2).len() {
        let w = lemma_diff_shows_new_line(c1, c2, i);
        assert(shows_line_at(diff_spec(c1, c2), w, "  "@, str_lines(c2)[i]) || shows_line_at(
            diff_spec(c1, c2),
            w,
            "+ "@,
            str_lines(c2)[i],
        ));
    }
}

fn concat_chars(a: &mut Vec<char>, s: &str)
    ensures
        final(a)@ == old(a)@ + s@,
{
    let mut w = chars_of(s);
    a.append(&mut w);
}

fn concat_vec(a: &mut Vec<char>, s: &Vec<char>)
    ensures
        final(a)@ == old(a)@ + s@,
{
    let mut i: usize = 0;
    let ghost start = a@;
    while i < s.len()
        invariant
            i <= s.len(),
            a@ == start + s@.take(i as int),
        decreases s.len() - i,
    {
        a.push(s[i]);
        i = i + 1;
        assert(a@ =~= start + s@.take(i as int));
    }
    assert(s@.take(s.len() as int) =~= s@);
}

impl VersionManager {
    /// The line diff of two script contents.
    pub fn compute_diff(&self, content1: &str, content2: &str) -> (r: String)
        ensures
            r@ == diff_spec(content1@, content2@),
    {
        let l1 = str_lines_exec(content1);
        let l2 = str_lines_exec(content2);
        let ghost a = str_lines(content1@);
        let ghost b = str_lines(content2@);
        assert(l1@.len() == a.len());
        assert(l2@.len() == b.len());
        let mut out: Vec<char> = Vec::new();
        concat_chars(&mut out, "--- version 1\n");
        concat_chars(&mut out, "+++ version 2\n");
        let ghost head = out@;
        proof {
            reveal_strlit("--- version 1\n");
            reveal_strlit("+++ version 2\n");
            reveal_strlit("--- version 1\n+++ version 2\n");
            assert(head =~= "--- version 1\n+++ version 2\n"@);
        }
        let n = if l1.len() >= l2.len() { l1.len() } else { l2.len() };
        let mut i: usize = 0;
        while i < n
            invariant
                i <= n,
                n == (if a.len() >= b.len() { a.len() } else { b.len() }),
                l1@.map_values(|l: Vec<char>| l@) == a,
                l2@.map_values(|l: Vec<char>| l@) == b,
                out@ == head + diff_body(a, b, i as nat),
            decreases n - i,
        {
            let ghost before = out@;
            if i < l1.len() && i < l2.len() {
                assert(l1@[i as int]@ == a[i as int]);
                assert(l2@[i as int]@ == b[i as int]);
                if crate::text::chars_eq(l1[i].as_slice(), l2[i].as_slice()) {
                    concat_chars(&mut out, "  ");
                    concat_vec(&mut out, &l1[i]);
                    concat_chars(&mut out, "\n");
                } else {
                    concat_chars(&mut out, "- ");
                    concat_vec(&mut out, &l1[i]);
                    concat_chars(&mut out, "\n");
                    concat_chars(&mut out, "+ ");
                    concat_vec(&mut out, &l2[i]);
                    concat_chars(&mut out, "\n");
                }
            } else if i < l1.len() {
                assert(l1@[i as int]@ == a[i as int]);
                concat_chars(&mut out, "- ");
                concat_vec(&mut out, &l1[i]);
                concat_chars(&mut out, "\n");
            } else {
                assert(l2@[i as int]@ == b[i as int]);
                concat_chars(&mut out, "+ ");
                concat_vec(&mut out, &l2[i]);
                concat_chars(&mut out, "\n");
            }
            assert(out@ =~= before + diff_line(a, b, i as int));
            i = i + 1;
        }
        string_from_chars(out.as_slice())
    }
}

} // verus!
