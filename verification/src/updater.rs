//! Self-update support: picking the artifact for a platform, the maintenance
//! window, the checks on a downloaded binary, and which backups are kept.

use vstd::prelude::*;

use crate::numbers::{i64_decimal_chars, parse_uint, parse_uint_spec, signed_decimal_spec};
use crate::text::{
    chars_eq, chars_of, has_infix, has_prefix, split_on, split_on_exec, str_concat, string_from_chars,
    trim_chars, trim_spec, lemma_split_on_nonempty,
};
use crate::versioning::{path_join, path_join_spec};

verus! {

#[derive(Debug, Clone)]
pub struct Artifact {
    pub os: String,
    pub arch: String,
    pub url: String,
    pub sha256: String,
    pub sig: Option<String>,
}

#[derive(Debug, Clone)]
pub struct Manifest {
    pub channel: String,
    pub version: String,
    pub published_at: String,
    pub artifacts: Vec<Artifact>,
    pub min_host_version: Option<String>,
    pub notes: String,
}

impl Manifest {
    /// The first artifact built for this OS and architecture.
    pub fn get_artifact(&self, os: &str, arch: &str) -> (r: Option<&Artifact>)
        ensures
            match r {
                Some(a) => exists|i: int|
                    0 <= i < self.artifacts@.len() && self.artifacts@[i] == *a && a.os@ == os@ && a.arch@ == arch@
                        && forall|j: int| 0 <= j < i ==> !((#[trigger] self.artifacts@[j]).os@ == os@ && self.artifacts@[j].arch@ == arch@),
                None => forall|j: int| 0 <= j < self.artifacts@.len() ==> !((#[trigger] self.artifacts@[j]).os@ == os@ && self.artifacts@[j].arch@ == arch@),
            },
    {
        let o = chars_of(os);
        let a = chars_of(arch);
        let mut i: usize = 0;
        while i < self.artifacts.len()
            invariant
                i <= self.artifacts.len(),
                o@ == os@,
                a@ == arch@,
                forall|j: int| 0 <= j < i ==> !((#[trigger] self.artifacts@[j]).os@ == os@ && self.artifacts@[j].arch@ == arch@),
            decreases self.artifacts.len() - i,
        {
            let art = &self.artifacts[i];
            let ao = chars_of(art.os.as_str());
            let aa = chars_of(art.arch.as_str());
            if chars_eq(ao.as_slice(), o.as_slice()) && chars_eq(aa.as_slice(), a.as_slice()) {
                return Some(art);
            }
            i = i + 1;
        }
        None
    }
}

/// Why an update step fails.
#[derive(Debug, Clone, Copy, PartialEq, Eq, Structural)]
pub enum UpdateErrorKind {
    NotFound,
    Validation,
    Other,
}

#[derive(Debug, Clone)]
pub struct UpdateError {
    pub kind: UpdateErrorKind,
    pub message: String,
}

fn update_error(kind: UpdateErrorKind, message: &str) -> (e: UpdateError)
    ensures
        e.kind == kind && e.message@ == message@,
{
    UpdateError { kind, message: message.to_owned() }
}

/// The smallest size a real build of the program can have.
pub const MIN_BINARY_BYTES: u64 = 1048576;

/// The operating systems whose executable format a downloaded binary is
/// checked against; on any other system only its presence and size are.
#[derive(Debug, Clone, Copy, PartialEq, Eq, Structural)]
pub enum BinaryPlatform {
    Linux,
    MacOs,
    Windows,
    Other,
}

/// The four leading bytes of an ELF file.
pub open spec fn elf_magic() -> Seq<u8> {
    seq![0x7fu8, 0x45u8, 0x4cu8, 0x46u8]
}

/// The four leading bytes of a Mach-O file: 64-bit and 32-bit in either byte
/// order, and a universal (fat) binary.
pub open spec fn is_macho_magic(magic: Seq<u8>) -> bool {
    ||| magic == seq![0xcfu8, 0xfau8, 0xedu8, 0xfeu8]
    ||| magic == seq![0xceu8, 0xfau8, 0xedu8, 0xfeu8]
    ||| magic == seq![0xfeu8, 0xedu8, 0xfau8, 0xcfu8]
    ||| magic == seq![0xfeu8, 0xedu8, 0xfau8, 0xceu8]
    ||| magic == seq![0xcau8, 0xfeu8, 0xbau8, 0xbeu8]
}

/// A PE file starts with `MZ`.
pub open spec fn is_pe_magic(magic: Seq<u8>) -> bool {
    magic.len() >= 2 && magic[0] == 0x4du8 && magic[1] == 0x5au8
}

/// Why a file with these leading bytes is not an executable of the platform.
pub open spec fn magic_error_spec(platform: BinaryPlatform, magic: Seq<u8>) -> Option<Seq<char>> {
    match platform {
        BinaryPlatform::Linux => if magic == elf_magic() {
            None
        } else {
            Some("Not a valid ELF binary"@)
        },
        BinaryPlatform::MacOs => if is_macho_magic(magic) {
            None
        } else {
            Some("Not a valid Mach-O binary"@)
        },
        BinaryPlatform::Windows => if is_pe_magic(magic) {
            None
        } else {
            Some("Not a valid PE binary"@)
        },
        BinaryPlatform::Other => None,
    }
}

/// Why a downloaded binary is refused: missing, too small, or not an
/// executable of the platform it is to run on.
pub open spec fn binary_error_spec(platform: BinaryPlatform, exists: bool, size: u64, magic: Seq<u8>) -> Option<
    (UpdateErrorKind, Seq<char>),
> {
    if !exists {
        Some((UpdateErrorKind::NotFound, "Binary not found"@))
    } else if size < MIN_BINARY_BYTES {
        Some((UpdateErrorKind::Validation, "Binary too small"@))
    } else {
        match magic_error_spec(platform, magic) {
            Some(m) => Some((UpdateErrorKind::Validation, m)),
            None => None,
        }
    }
}

fn magic_is(magic: &[u8], a: u8, b: u8, c: u8, d: u8) -> (r: bool)
    ensures
        r == (magic@ == seq![a, b, c, d]),
{
    if magic.len() == 4 && magic[0] == a && magic[1] == b && magic[2] == c && magic[3] == d {
        assert(magic@ =~= seq![a, b, c, d]);
        true
    } else {
        proof {
            if magic@ == seq![a, b, c, d] {
                assert(magic@[0] == a && magic@[1] == b && magic@[2] == c && magic@[3] == d);
            }
        }
        false
    }
}

fn magic_error(platform: BinaryPlatform, magic: &[u8]) -> (r: Option<&'static str>)
    ensures
        match r {
            Some(m) => magic_error_spec(platform, magic@) == Some(m@),
            None => magic_error_spec(platform, magic@) is None,
        },
{
    match platform {
        BinaryPlatform::Linux => if magic_is(magic, 0x7f, 0x45, 0x4c, 0x46) {
            None
        } else {
            Some("Not a valid ELF binary")
        },
        BinaryPlatform::MacOs => {
            let ok = magic_is(magic, 0xcf, 0xfa, 0xed, 0xfe) || magic_is(magic, 0xce, 0xfa, 0xed, 0xfe)
                || magic_is(magic, 0xfe, 0xed, 0xfa, 0xcf) || magic_is(magic, 0xfe, 0xed, 0xfa, 0xce)
                || magic_is(magic, 0xca, 0xfe, 0xba, 0xbe);
            if ok {
                None
            } else {
                Some("Not a valid Mach-O binary")
            }
        },
        BinaryPlatform::Windows => if magic.len() >= 2 && magic[0] == 0x4d && magic[1] == 0x5a {
            None
        } else {
            Some("Not a valid PE binary")
        },
        BinaryPlatform::Other => None,
    }
}

/// Checks a downloaded binary from what is known of the file: whether it
/// exists, its size and its first four bytes, which must be those of an
/// executable of `platform`.
pub fn check_binary(platform: BinaryPlatform, exists: bool, size: u64, magic: &[u8]) -> (r: Result<(), UpdateError>)
    ensures
        r is Ok <==> binary_error_spec(platform, exists, size, magic@) is None,
        r matches Err(e) ==> binary_error_spec(platform, exists, size, magic@) == Some((e.kind, e.message@)),
{
    if !exists {
        return Err(update_error(UpdateErrorKind::NotFound, "Binary not found"));
    }
    if size < MIN_BINARY_BYTES {
        return Err(update_error(UpdateErrorKind::Validation, "Binary too small"));
    }
    match magic_error(platform, magic) {
        Some(m) => Err(update_error(UpdateErrorKind::Validation, m)),
        None => Ok(()),
    }
}

/// Replaces the running binary with a new one, keeping backups.
pub struct AtomicSwitcher {
    pub install_dir: String,
    pub backup_dir: String,
}

impl AtomicSwitcher {
    pub fn new(install_dir: String) -> (s: Self)
        ensures
            s.install_dir == install_dir,
            s.backup_dir@ == path_join_spec(install_dir@, "backups"@),
    {
        let backup_dir = path_join(install_dir.as_str(), "backups");
        AtomicSwitcher { install_dir, backup_dir }
    }
}

/// The name of the backup of the running version.
pub fn backup_name(version: &str, timestamp: i64) -> (r: String)
    ensures
        r@ == "blockcell-"@ + version@ + "-"@ + signed_decimal_spec(timestamp as int),
{
    let a = str_concat("blockcell-", version);
    let b = str_concat(a.as_str(), "-");
    let d = string_from_chars(i64_decimal_chars(timestamp).as_slice());
    str_concat(b.as_str(), d.as_str())
}

/// The name of the backup of a version that failed.
pub fn failed_backup_name(timestamp: i64) -> (r: String)
    ensures
        r@ == "blockcell-failed-"@ + signed_decimal_spec(timestamp as int),
{
    let d = string_from_chars(i64_decimal_chars(timestamp).as_slice());
    str_concat("blockcell-failed-", d.as_str())
}

/// A backup that rollback may restore: named `blockcell-…`, and not a
/// failed version's.
pub open spec fn is_restorable_backup(name: Seq<char>) -> bool {
    has_prefix(name, "blockcell-"@) && !has_infix(name, "-failed-"@)
}

pub fn is_restorable_backup_name(name: &str) -> (r: bool)
    ensures
        r == is_restorable_backup(name@),
{
    let v = chars_of(name);
    let p = chars_of("blockcell-");
    let f = chars_of("-failed-");
    crate::text::starts_with(v.as_slice(), p.as_slice()) && !crate::text::contains_chars(v.as_slice(), f.as_slice())
}

/// How many of the oldest backups cleanup removes to keep `keep_count`.
pub fn backups_to_remove(count: usize, keep_count: usize) -> (r: usize)
    ensures
        r == (if count <= keep_count { 0 } else { count - keep_count }),
{
    if count <= keep_count {
        0
    } else {
        count - keep_count
    }
}

/// The error when there is nothing to roll back to.
pub fn no_backup_error() -> (e: UpdateError)
    ensures
        e.kind == UpdateErrorKind::NotFound && e.message@ == "No backup found for rollback"@,
{
    update_error(UpdateErrorKind::NotFound, "No backup found for rollback")
}

} // verus!

verus! {

/// When updates may be applied: `HH:MM-HH:MM` in local time, or any time
/// when empty.
pub struct MaintenanceWindow {
    pub window: String,
}

/// An `H:M` time: exactly one `:`, each side a trimmed `u32` as `str::parse`
/// reads it, an hour below 24 and a minute below 60.
pub open spec fn parse_time_spec(s: Seq<char>) -> Option<(u32, u32)> {
    let parts = split_on(s, ':');
    if parts.len() != 2 {
        None
    } else {
        match (parse_uint_spec(trim_spec(parts[0]), 0xffff_ffff), parse_uint_spec(trim_spec(parts[1]), 0xffff_ffff)) {
            (Some(h), Some(m)) => if h < 24 && m < 60 {
                Some((h as u32, m as u32))
            } else {
                None
            },
            _ => None,
        }
    }
}

/// Whether a time lies in a window from `start` (included) to `end`
/// (excluded), the window running past midnight when it ends before it starts.
pub open spec fn in_window_spec(start: (u32, u32), end: (u32, u32), now: (u32, u32)) -> bool {
    let le = |a: (u32, u32), b: (u32, u32)| a.0 < b.0 || (a.0 == b.0 && a.1 <= b.1);
    let lt = |a: (u32, u32), b: (u32, u32)| a.0 < b.0 || (a.0 == b.0 && a.1 < b.1);
    if le(start, end) {
        le(start, now) && lt(now, end)
    } else {
        le(start, now) || lt(now, end)
    }
}

/// Whether the window admits the time `now`.
pub open spec fn window_admits_spec(window: Seq<char>, now: (u32, u32)) -> bool {
    if window.len() == 0 {
        true
    } else {
        let parts = split_on(window, '-');
        parts.len() == 2 && match (parse_time_spec(parts[0]), parse_time_spec(parts[1])) {
            (Some(s), Some(e)) => in_window_spec(s, e, now),
            _ => false,
        }
    }
}

fn tuple_le(a: (u32, u32), b: (u32, u32)) -> (r: bool)
    ensures
        r == (a.0 < b.0 || (a.0 == b.0 && a.1 <= b.1)),
{
    a.0 < b.0 || (a.0 == b.0 && a.1 <= b.1)
}

fn tuple_lt(a: (u32, u32), b: (u32, u32)) -> (r: bool)
    ensures
        r == (a.0 < b.0 || (a.0 == b.0 && a.1 < b.1)),
{
    a.0 < b.0 || (a.0 == b.0 && a.1 < b.1)
}

/// The local hour and minute (`chrono::Local::now()`, then `Timelike::hour`
/// and `minute`). Which time it is, is not stated: it is the clock; chrono
/// documents the hour as 0 to 23 and the minute as 0 to 59.
#[verifier::external_body]
fn local_hour_minute() -> (r: (u32, u32))
    ensures
        r.0 < 24,
        r.1 < 60,
{
    let now = chrono::Local::now();
    (chrono::Timelike::hour(&now), chrono::Timelike::minute(&now))
}

impl MaintenanceWindow {
    pub fn new(window: String) -> (w: Self)
        ensures
            w.window == window,
    {
        MaintenanceWindow { window }
    }

    /// Reads an `HH:MM` time.
    pub fn parse_time(&self, time_str: &str) -> (r: Option<(u32, u32)>)
        ensures
            r == parse_time_spec(time_str@),
    {
        let v = chars_of(time_str);
        let parts = split_on_exec(v.as_slice(), ':');
        proof {
            lemma_split_on_nonempty(time_str@, ':');
        }
        if parts.len() != 2 {
            return None;
        }
        let ghost ps = split_on(time_str@, ':');
        assert(parts@[0]@ == ps[0] && parts@[1]@ == ps[1]);
        let h = trim_chars(parts[0].as_slice());
        let m = trim_chars(parts[1].as_slice());
        let hv = parse_uint(h.as_slice(), 0xffff_ffff);
        let mv = parse_uint(m.as_slice(), 0xffff_ffff);
        let ghost hs = parse_uint_spec(trim_spec(ps[0]), 0xffff_ffff);
        let ghost ms = parse_uint_spec(trim_spec(ps[1]), 0xffff_ffff);
        match hv {
            Some(hh) => match mv {
                Some(mm) => {
                    assert(hs == Some(hh as int) && ms == Some(mm as int));
                    if hh < 24 && mm < 60 {
                        Some((hh as u32, mm as u32))
                    } else {
                        None
                    }
                },
                None => {
                    assert(ms is None);
                    None
                },
            },
            None => {
                assert(hs is None);
                None
            },
        }
    }

    /// Whether the window admits the local time `now` (hour, minute).
    pub fn is_in_window_at(&self, now: (u32, u32)) -> (r: bool)
        ensures
            r == window_admits_spec(self.window@, now),
    {
        let v = chars_of(self.window.as_str());
        if v.len() == 0 {
            return true;
        }
        let parts = split_on_exec(v.as_slice(), '-');
        let ghost ps = split_on(self.window@, '-');
        if parts.len() != 2 {
            return false;
        }
        assert(parts@[0]@ == ps[0] && parts@[1]@ == ps[1]);
        let a = string_from_chars(parts[0].as_slice());
        let b = string_from_chars(parts[1].as_slice());
        let start = match self.parse_time(a.as_str()) {
            Some(t) => t,
            None => {
                return false;
            },
        };
        let end = match self.parse_time(b.as_str()) {
            Some(t) => t,
            None => {
                return false;
            },
        };
        if tuple_le(start, end) {
            tuple_le(start, now) && tuple_lt(now, end)
        } else {
            tuple_le(start, now) || tuple_lt(now, end)
        }
    }

    /// Whether the window admits the current local time.
    pub fn is_in_window(&self) -> (r: bool)
        ensures
            self.window@.len() == 0 ==> r,
            exists|h: u32, m: u32| h < 24 && m < 60 && r == window_admits_spec(self.window@, (h, m)),
    {
        let now = local_hour_minute();
        self.is_in_window_at(now)
    }
}

} // verus!
