//! System events raised by background work and the summary items built from them.

use vstd::prelude::*;

use crate::text::{chars_of, string_from_chars};

verus! {

/// A JSON value (`serde_json::Value`), carried through as event details.
#[verifier::external_type_specification]
#[verifier::external_body]
pub struct ExJsonValue(serde_json::Value);

/// `Clone` of `serde_json::Value`, which serde_json derives: the clone is the
/// same value. The derived `Clone` of `SystemEvent` clones its details.
pub assume_specification[ <serde_json::Value as Clone>::clone ](v: &serde_json::Value) -> (r:
    serde_json::Value)
    ensures
        r == *v,
;

#[derive(Debug, Clone, Copy, PartialEq, Eq, Structural, PartialOrd, Ord, Hash)]
pub enum EventPriority {
    Low,
    Normal,
    High,
    Critical,
}

#[derive(Debug, Clone, PartialEq, Eq)]
pub enum EventScope {
    Global,
    MainSession,
    Channel { channel: String, chat_id: String },
    Session { channel: String, chat_id: String, session_key: String },
}

#[derive(Debug, Clone, PartialEq, Eq)]
pub struct DeliveryPolicy {
    pub immediate: bool,
    pub include_in_summary: bool,
    pub notify_user: bool,
    pub persist: bool,
    pub max_delay_seconds: Option<u64>,
}

/// The default policy: summarised, notified and persisted, not immediate.
pub open spec fn default_policy() -> DeliveryPolicy {
    DeliveryPolicy {
        immediate: false,
        include_in_summary: true,
        notify_user: true,
        persist: true,
        max_delay_seconds: None,
    }
}

impl Default for DeliveryPolicy {
    fn default() -> (p: Self)
        ensures
            p == default_policy(),
    {
        DeliveryPolicy {
            immediate: false,
            include_in_summary: true,
            notify_user: true,
            persist: true,
            max_delay_seconds: None,
        }
    }
}

impl DeliveryPolicy {
    /// The default policy, delivered immediately.
    pub fn critical() -> (p: Self)
        ensures
            p == (DeliveryPolicy { immediate: true, ..default_policy() }),
    {
        DeliveryPolicy {
            immediate: true,
            include_in_summary: true,
            notify_user: true,
            persist: true,
            max_delay_seconds: None,
        }
    }

    /// Persisted only: neither summarised nor notified.
    pub fn silent() -> (p: Self)
        ensures
            p == (DeliveryPolicy {
                immediate: false,
                include_in_summary: false,
                notify_user: false,
                persist: true,
                max_delay_seconds: None,
            }),
    {
        DeliveryPolicy {
            immediate: false,
            include_in_summary: false,
            notify_user: false,
            persist: true,
            max_delay_seconds: None,
        }
    }
}

#[derive(Debug, Clone)]
pub struct SystemEvent {
    pub id: String,
    pub kind: String,
    pub source: String,
    pub scope: EventScope,
    pub priority: EventPriority,
    pub title: String,
    pub summary: String,
    pub details: serde_json::Value,
    pub created_at_ms: i64,
    pub correlation_id: Option<String>,
    pub dedup_key: Option<String>,
    pub delivery: DeliveryPolicy,
    pub delivered: bool,
    pub acked: bool,
}

/// A lowercase hexadecimal digit.
pub open spec fn is_lower_hex(c: char) -> bool {
    ('0' <= c && c <= '9') || ('a' <= c && c <= 'f')
}

/// The hyphenated lowercase text of a version 4 UUID: 36 characters, `-` at
/// positions 8, 13, 18 and 23 and hexadecimal digits elsewhere, with the
/// version digit `4` at position 14 and the variant digit (`8`, `9`, `a` or
/// `b`) at position 19.
pub open spec fn is_uuid_v4_text(u: Seq<char>) -> bool {
    &&& u.len() == 36
    &&& forall|i: int|
        0 <= i < 36 ==> if i == 8 || i == 13 || i == 18 || i == 23 {
            #[trigger] u[i] == '-'
        } else {
            is_lower_hex(u[i])
        }
    &&& u[14] == '4'
    &&& (u[19] == '8' || u[19] == '9' || u[19] == 'a' || u[19] == 'b')
}

/// A fresh random UUID (`uuid::Uuid::new_v4`) in its `Display` text form,
/// which is the lowercase hyphenated one. Which UUID it is, is left unsaid:
/// it is random. `new_v4` fixes the version bits to 4 and the variant bits
/// to those of RFC 4122.
#[verifier::external_body]
fn new_uuid_text() -> (r: String)
    ensures
        is_uuid_v4_text(r@),
{
    uuid::Uuid::new_v4().to_string()
}

/// An event id: `evt_` followed by the text of a version 4 UUID.
pub open spec fn is_event_id(id: Seq<char>) -> bool {
    &&& id.len() == 40
    &&& id.take(4) == seq!['e', 'v', 't', '_']
    &&& is_uuid_v4_text(id.skip(4))
}

/// The current time in milliseconds since the Unix epoch
/// (`chrono::Utc::now().timestamp_millis()`). Nothing is stated of it: it is the clock.
#[verifier::external_body]
pub(crate) fn now_millis() -> i64 {
    chrono::Utc::now().timestamp_millis()
}

/// `serde_json::Value::Null`. Nothing is stated of it: the type is opaque here.
#[verifier::external_body]
pub(crate) fn json_null() -> serde_json::Value {
    serde_json::Value::Null
}

/// `evt_` followed by a UUID.
pub fn new_event_id() -> (id: String)
    ensures
        is_event_id(id@),
{
    let mut v: Vec<char> = Vec::new();
    v.push('e');
    v.push('v');
    v.push('t');
    v.push('_');
    let u = new_uuid_text();
    let mut w = chars_of(u.as_str());
    v.append(&mut w);
    assert(v@.take(4) =~= seq!['e', 'v', 't', '_']);
    assert(v@.skip(4) =~= u@);
    string_from_chars(v.as_slice())
}

impl SystemEvent {
    /// A pending main-session event with the default delivery policy.
    pub fn new_main_session(
        kind: &str,
        source: &str,
        priority: EventPriority,
        title: &str,
        summary: &str,
    ) -> (e: Self)
        ensures
            e.kind@ == kind@,
            e.source@ == source@,
            e.scope == EventScope::MainSession,
            e.priority == priority,
            e.title@ == title@,
            e.summary@ == summary@,
            e.correlation_id is None,
            e.dedup_key is None,
            e.delivery == default_policy(),
            !e.delivered,
            !e.acked,
            is_event_id(e.id@),
    {
        SystemEvent {
            id: new_event_id(),
            kind: kind.to_owned(),
            source: source.to_owned(),
            scope: EventScope::MainSession,
            priority,
            title: title.to_owned(),
            summary: summary.to_owned(),
            details: json_null(),
            created_at_ms: now_millis(),
            correlation_id: None,
            dedup_key: None,
            delivery: DeliveryPolicy::default(),
            delivered: false,
            acked: false,
        }
    }
}

#[derive(Debug, Clone, PartialEq, Eq)]
pub enum SummaryScope {
    MainSession,
    Channel { channel: String, chat_id: String },
    User { user_id: String },
}

#[derive(Debug, Clone, Copy, PartialEq, Eq)]
pub enum SummaryCategory {
    Task,
    Cron,
    GhostService,
    System,
}

#[derive(Debug, Clone, PartialEq)]
pub struct SummaryItem {
    pub id: String,
    pub scope: SummaryScope,
    pub category: SummaryCategory,
    pub title: String,
    pub body: String,
    pub source_event_ids: Vec<String>,
    pub created_at_ms: i64,
    pub priority: EventPriority,
    pub merge_key: Option<String>,
}

#[derive(Debug, Clone, PartialEq)]
pub struct SessionSummary {
    pub title: String,
    pub items: Vec<SummaryItem>,
    pub compact_text: String,
}

} // verus!
