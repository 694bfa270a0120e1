//! Memory items: their canonical types, and the normalization applied to a
//! write before it reaches the store.

use vstd::prelude::*;

use crate::text::{chars_eq, chars_of, str_concat, trim_spec, trim_str};

verus! {

/// Canonical memory item types.
#[derive(Debug, Clone, Copy, PartialEq, Eq, Structural)]
pub enum MemoryType {
    Fact,
    Preference,
    Project,
    Task,
    Glossary,
    Contact,
    Snippet,
    Policy,
    Note,
    SessionSummary,
}

/// The snake_case name of a memory type.
pub open spec fn memory_type_name(t: MemoryType) -> Seq<char> {
    match t {
        MemoryType::Fact => "fact"@,
        MemoryType::Preference => "preference"@,
        MemoryType::Project => "project"@,
        MemoryType::Task => "task"@,
        MemoryType::Glossary => "glossary"@,
        MemoryType::Contact => "contact"@,
        MemoryType::Snippet => "snippet"@,
        MemoryType::Policy => "policy"@,
        MemoryType::Note => "note"@,
        MemoryType::SessionSummary => "session_summary"@,
    }
}

/// The memory type with this exact name.
pub open spec fn memory_type_of(s: Seq<char>) -> Option<MemoryType> {
    if s == "fact"@ {
        Some(MemoryType::Fact)
    } else if s == "preference"@ {
        Some(MemoryType::Preference)
    } else if s == "project"@ {
        Some(MemoryType::Project)
    } else if s == "task"@ {
        Some(MemoryType::Task)
    } else if s == "glossary"@ {
        Some(MemoryType::Glossary)
    } else if s == "contact"@ {
        Some(MemoryType::Contact)
    } else if s == "snippet"@ {
        Some(MemoryType::Snippet)
    } else if s == "policy"@ {
        Some(MemoryType::Policy)
    } else if s == "note"@ {
        Some(MemoryType::Note)
    } else if s == "session_summary"@ {
        Some(MemoryType::SessionSummary)
    } else {
        None
    }
}

fn str_is(a: &[char], b: &str) -> (r: bool)
    ensures
        r == (a@ == b@),
{
    let w = chars_of(b);
    chars_eq(a, w.as_slice())
}

impl MemoryType {
    pub fn as_str(&self) -> (r: &'static str)
        ensures
            r@ == memory_type_name(*self),
    {
        match self {
            MemoryType::Fact => "fact",
            MemoryType::Preference => "preference",
            MemoryType::Project => "project",
            MemoryType::Task => "task",
            MemoryType::Glossary => "glossary",
            MemoryType::Contact => "contact",
            MemoryType::Snippet => "snippet",
            MemoryType::Policy => "policy",
            MemoryType::Note => "note",
            MemoryType::SessionSummary => "session_summary",
        }
    }

    /// The memory type named `s`; `Invalid memory type: …` for any other text.
    pub fn parse(s: &str) -> (r: Result<MemoryType, String>)
        ensures
            r is Ok <==> memory_type_of(s@) is Some,
            r matches Ok(t) ==> memory_type_of(s@) == Some(t),
            r matches Err(e) ==> e@ == "Invalid memory type: "@ + s@,
    {
        let v = chars_of(s);
        let x = v.as_slice();
        if str_is(x, "fact") {
            Ok(MemoryType::Fact)
        } else if str_is(x, "preference") {
            Ok(MemoryType::Preference)
        } else if str_is(x, "project") {
            Ok(MemoryType::Project)
        } else if str_is(x, "task") {
            Ok(MemoryType::Task)
        } else if str_is(x, "glossary") {
            Ok(MemoryType::Glossary)
        } else if str_is(x, "contact") {
            Ok(MemoryType::Contact)
        } else if str_is(x, "snippet") {
            Ok(MemoryType::Snippet)
        } else if str_is(x, "policy") {
            Ok(MemoryType::Policy)
        } else if str_is(x, "note") {
            Ok(MemoryType::Note)
        } else if str_is(x, "session_summary") {
            Ok(MemoryType::SessionSummary)
        } else {
            Err(str_concat("Invalid memory type: ", s))
        }
    }
}

impl std::str::FromStr for MemoryType {
    type Err = String;

    fn from_str(s: &str) -> (r: Result<MemoryType, String>)
        ensures
            r is Ok <==> memory_type_of(s@) is Some,
            r matches Ok(t) ==> memory_type_of(s@) == Some(t),
            r matches Err(e) ==> e@ == "Invalid memory type: "@ + s@,
    {
        MemoryType::parse(s)
    }
}

/// Every memory type reads back from its name.
pub proof fn lemma_memory_type_roundtrip(t: MemoryType)
    ensures
        memory_type_of(memory_type_name(t)) == Some(t),
{
    reveal_strlit("fact");
    reveal_strlit("preference");
    reveal_strlit("project");
    reveal_strlit("task");
    reveal_strlit("glossary");
    reveal_strlit("contact");
    reveal_strlit("snippet");
    reveal_strlit("policy");
    reveal_strlit("note");
    reveal_strlit("session_summary");
    assert("fact"@.len() == 4 && "fact"@[0] == 'f');
    assert("preference"@.len() == 10 && "preference"@[0] == 'p');
    assert("project"@.len() == 7 && "project"@[0] == 'p');
    assert("task"@.len() == 4 && "task"@[0] == 't');
    assert("glossary"@.len() == 8 && "glossary"@[0] == 'g');
    assert("contact"@.len() == 7 && "contact"@[0] == 'c');
    assert("snippet"@.len() == 7 && "snippet"@[0] == 's');
    assert("policy"@.len() == 6 && "policy"@[0] == 'p');
    assert("note"@.len() == 4 && "note"@[0] == 'n');
    assert("session_summary"@.len() == 15 && "session_summary"@[0] == 's');
}

/// Days a short-term memory lives when no expiry is given.
pub const DEFAULT_SHORT_TERM_TTL_DAYS: i64 = 3;

/// A write after normalization: the scope, the canonical type name and the
/// expiry.
#[derive(Debug, Clone)]
pub struct NormalizedUpsert {
    pub scope: String,
    pub item_type: String,
    pub expires_at: Option<String>,
}

/// Why a write is refused, in the order the checks run: blank content, then
/// an unknown scope, then an unknown type.
pub open spec fn upsert_error_spec(scope: Seq<char>, item_type: Seq<char>, content: Seq<char>) -> Option<Seq<char>> {
    if trim_spec(content).len() == 0 {
        Some("content cannot be empty"@)
    } else if scope != "short_term"@ && scope != "long_term"@ {
        Some("Invalid memory scope: "@ + scope)
    } else if memory_type_of(item_type) is None {
        Some("Invalid memory type: "@ + item_type)
    } else {
        None
    }
}

/// Validates a write and fills in its defaults: a short-term memory without
/// an expiry gets `default_expires_at`.
pub fn normalize_upsert(
    scope: &str,
    item_type: &str,
    content: &str,
    expires_at: Option<String>,
    default_expires_at: String,
) -> (r: Result<NormalizedUpsert, String>)
    ensures
        r is Err <==> upsert_error_spec(scope@, item_type@, content@) is Some,
        r matches Err(e) ==> Some(e@) == upsert_error_spec(scope@, item_type@, content@),
        r matches Ok(n) ==> {
            &&& n.scope@ == scope@
            &&& Some(n.item_type@) == (match memory_type_of(item_type@) {
                Some(t) => Some(memory_type_name(t)),
                None => None,
            })
            &&& n.expires_at == (if scope@ == "short_term"@ && expires_at is None {
                Some(default_expires_at)
            } else {
                expires_at
            })
        },
{
    let c = trim_str(content);
    if c.len() == 0 {
        return Err("content cannot be empty".to_owned());
    }
    let sv = chars_of(scope);
    let short = str_is(sv.as_slice(), "short_term");
    if !short && !str_is(sv.as_slice(), "long_term") {
        return Err(str_concat("Invalid memory scope: ", scope));
    }
    let t = match MemoryType::parse(item_type) {
        Ok(t) => t,
        Err(e) => {
            return Err(e);
        },
    };
    let exp = if short && expires_at.is_none() {
        Some(default_expires_at)
    } else {
        expires_at
    };
    Ok(NormalizedUpsert { scope: scope.to_owned(), item_type: t.as_str().to_owned(), expires_at: exp })
}

/// The last second, since the Unix epoch, that chrono can represent
/// (`DateTime::<Utc>::MAX_UTC`, 262142-12-31T23:59:59Z).
pub const CHRONO_MAX_SECS: i64 = 8210266876799;

/// Seconds a short-term memory lives when no expiry is given.
pub const DEFAULT_SHORT_TERM_TTL_SECS: i64 = DEFAULT_SHORT_TERM_TTL_DAYS * 86400;

/// The RFC 3339 text of an instant given as seconds and nanoseconds since the
/// Unix epoch; `None` when chrono cannot represent it.
pub uninterp spec fn rfc3339_at_of(secs: i64, nanos: u32) -> Option<Seq<char>>;

/// `chrono::DateTime::from_timestamp` then `to_rfc3339`: named, the result
/// depends on the instant alone. chrono documents `None` only for seconds
/// out of its range or an invalid nanosecond count.
#[verifier::external_body]
fn rfc3339_at(secs: i64, nanos: u32) -> (r: Option<String>)
    ensures
        r matches Some(t) ==> rfc3339_at_of(secs, nanos) == Some(t@),
        r is None ==> rfc3339_at_of(secs, nanos) is None,
        (0 <= secs <= CHRONO_MAX_SECS && nanos < 1_000_000_000) ==> r is Some,
{
    chrono::DateTime::from_timestamp(secs, nanos).map(|d| d.to_rfc3339())
}

/// The current time as whole seconds since the Unix epoch and the
/// nanoseconds past them (`chrono::Utc::now()`, `timestamp`,
/// `timestamp_subsec_nanos`). Which time it is, is not stated: it is the
/// clock. `Utc::now` builds it from a `SystemTime` duration since the epoch,
/// so it is not negative, its nanoseconds are below a second, and it lies in
/// chrono's range.
#[verifier::external_body]
fn utc_now_parts() -> (r: (i64, u32))
    ensures
        0 <= r.0 <= CHRONO_MAX_SECS,
        r.1 < 1_000_000_000,
{
    let now = chrono::Utc::now();
    (now.timestamp(), now.timestamp_subsec_nanos())
}

/// `normalize_upsert` at a given clock reading: a short-term memory without
/// an expiry expires `DEFAULT_SHORT_TERM_TTL_DAYS` days after it, written in
/// RFC 3339.
pub fn normalize_upsert_at(
    scope: &str,
    item_type: &str,
    content: &str,
    expires_at: Option<String>,
    now_secs: i64,
    now_nanos: u32,
) -> (r: Result<NormalizedUpsert, String>)
    requires
        0 <= now_secs,
        now_secs + DEFAULT_SHORT_TERM_TTL_SECS <= CHRONO_MAX_SECS,
        now_nanos < 1_000_000_000,
    ensures
        r is Err <==> upsert_error_spec(scope@, item_type@, content@) is Some,
        r matches Err(e) ==> Some(e@) == upsert_error_spec(scope@, item_type@, content@),
        r matches Ok(n) ==> {
            &&& n.scope@ == scope@
            &&& Some(n.item_type@) == (match memory_type_of(item_type@) {
                Some(t) => Some(memory_type_name(t)),
                None => None,
            })
            &&& (if scope@ == "short_term"@ && expires_at is None {
                n.expires_at matches Some(x) && rfc3339_at_of((now_secs + DEFAULT_SHORT_TERM_TTL_SECS) as i64, now_nanos)
                    == Some(x@)
            } else {
                n.expires_at == expires_at
            })
        },
{
    let sv = chars_of(scope);
    let default = if str_is(sv.as_slice(), "short_term") && expires_at.is_none() {
        match rfc3339_at(now_secs + DEFAULT_SHORT_TERM_TTL_SECS, now_nanos) {
            Some(t) => t,
            None => String::new(),
        }
    } else {
        String::new()
    };
    normalize_upsert(scope, item_type, content, expires_at, default)
}

/// `normalize_upsert_at` with the time read from the clock. Within three
/// days of the last instant chrono represents, where adding the lifetime
/// overflows chrono, a short-term write without an expiry is refused with
/// `clock out of range`.
pub fn normalize_upsert_now(scope: &str, item_type: &str, content: &str, expires_at: Option<String>) -> (r: Result<NormalizedUpsert, String>)
    ensures
        r matches Ok(n) ==> {
            &&& upsert_error_spec(scope@, item_type@, content@) is None
            &&& n.scope@ == scope@
            &&& Some(n.item_type@) == (match memory_type_of(item_type@) {
                Some(t) => Some(memory_type_name(t)),
                None => None,
            })
            &&& (if scope@ == "short_term"@ && expires_at is None {
                exists|at: i64, nanos: u32|
                    DEFAULT_SHORT_TERM_TTL_SECS <= at && (n.expires_at matches Some(x) && #[trigger] rfc3339_at_of(
                        at,
                        nanos,
                    ) == Some(x@))
            } else {
                n.expires_at == expires_at
            })
        },
        upsert_error_spec(scope@, item_type@, content@) matches Some(m) ==> (r matches Err(e) && e@ == m),
        r matches Err(e) ==> (upsert_error_spec(scope@, item_type@, content@) == Some(e@) || e@
            == "clock out of range"@),
        (r is Err && upsert_error_spec(scope@, item_type@, content@) is None) ==> scope@ == "short_term"@
            && expires_at is None,
{
    let (secs, nanos) = utc_now_parts();
    if secs <= CHRONO_MAX_SECS - DEFAULT_SHORT_TERM_TTL_SECS {
        normalize_upsert_at(scope, item_type, content, expires_at, secs, nanos)
    } else {
        let sv = chars_of(scope);
        let needs_default = str_is(sv.as_slice(), "short_term") && expires_at.is_none();
        match normalize_upsert(scope, item_type, content, expires_at, String::new()) {
            Err(m) => Err(m),
            Ok(n) => if needs_default {
                Err("clock out of range".to_owned())
            } else {
                Ok(n)
            },
        }
    }
}

/// The canonical memory service: a store behind the normalization above.
pub struct MemoryService<S> {
    store: S,
}

impl<S> MemoryService<S> {
    pub fn new(store: S) -> (s: Self)
        ensures
            s.store() == store,
    {
        MemoryService { store }
    }

    pub closed spec fn store(&self) -> S {
        self.store
    }

    /// The store writes go to.
    pub fn store_ref(&self) -> (r: &S)
        ensures
            *r == self.store(),
    {
        &self.store
    }
}

} // verus!
