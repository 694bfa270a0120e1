//! QQ bot channel: environments, access tokens, message payloads and webhooks.

use vstd::prelude::*;

use crate::numbers::{bytes_hex_spec, parse_uint, parse_uint_spec};
use crate::recent::RecentIds;
use crate::text::{
    chars_eq, chars_of, copy_chars, ends_with, has_prefix, has_suffix, join_spec, join_strings,
    lowercase_of, replace_all, replace_all_spec, slice_chars, starts_with, string_from_chars,
    to_lowercase, trim_spec, trim_str,
};

verus! {

pub const QQ_API_BASE: &'static str = "https://api.sgroup.qq.com";

pub const QQ_SANDBOX_API_BASE: &'static str = "https://sandbox.api.sgroup.qq.com";

pub const QQ_AUTH_URL: &'static str = "https://bots.qq.com/app/getAppAccessToken";

pub const QQ_WS_GATEWAY: &'static str = "wss://api.sgroup.qq.com/websocket/";

pub const QQ_SANDBOX_WS_GATEWAY: &'static str = "wss://sandbox.api.sgroup.qq.com/websocket/";

pub const OP_DISPATCH: u8 = 0;

pub const OP_HEARTBEAT: u8 = 1;

pub const OP_IDENTIFY: u8 = 2;

pub const OP_RECONNECT: u8 = 7;

pub const OP_INVALID_SESSION: u8 = 9;

pub const OP_HELLO: u8 = 10;

pub const OP_HEARTBEAT_ACK: u8 = 11;

pub const GROUP_AND_C2C_EVENT: u32 = 1u32 << 25u32;

pub const PUBLIC_GUILD_MESSAGES: u32 = 1u32 << 30u32;

/// Public guild messages together with group and C2C events.
pub const DEFAULT_INTENTS: u32 = PUBLIC_GUILD_MESSAGES | GROUP_AND_C2C_EVENT;

#[derive(Debug, Clone, Copy, PartialEq, Eq)]
pub enum QQEnvironment {
    Production,
    Sandbox,
}

impl QQEnvironment {
    /// `sandbox` in any letter case selects the sandbox; anything else production.
    pub fn from_str(s: &str) -> (e: Self)
        ensures
            e == (if lowercase_of(s@) == "sandbox"@ {
                QQEnvironment::Sandbox
            } else {
                QQEnvironment::Production
            }),
    {
        let lower = to_lowercase(s);
        let l = chars_of(lower.as_str());
        let sandbox = chars_of("sandbox");
        if chars_eq(l.as_slice(), sandbox.as_slice()) {
            QQEnvironment::Sandbox
        } else {
            QQEnvironment::Production
        }
    }

    pub fn api_base(&self) -> (r: &'static str)
        ensures
            r@ == (match self {
                QQEnvironment::Production => QQ_API_BASE@,
                QQEnvironment::Sandbox => QQ_SANDBOX_API_BASE@,
            }),
    {
        match self {
            QQEnvironment::Production => QQ_API_BASE,
            QQEnvironment::Sandbox => QQ_SANDBOX_API_BASE,
        }
    }

    pub fn ws_gateway(&self) -> (r: &'static str)
        ensures
            r@ == (match self {
                QQEnvironment::Production => QQ_WS_GATEWAY@,
                QQEnvironment::Sandbox => QQ_SANDBOX_WS_GATEWAY@,
            }),
    {
        match self {
            QQEnvironment::Production => QQ_WS_GATEWAY,
            QQEnvironment::Sandbox => QQ_SANDBOX_WS_GATEWAY,
        }
    }
}

/// Seconds since the Unix epoch, 0 if the clock is before it
/// (`SystemTime::now().duration_since(UNIX_EPOCH).unwrap_or_default().as_secs()`).
/// Nothing is stated of it: it is the clock.
#[verifier::external_body]
pub(crate) fn unix_now_secs() -> u64 {
    std::time::SystemTime::now().duration_since(std::time::UNIX_EPOCH).unwrap_or_default().as_secs()
}

/// An access token and the second it expires at.
#[derive(Debug, Clone)]
pub struct CachedToken {
    pub token: String,
    pub expires_at: u64,
}

/// A token is used until five minutes before it expires.
pub open spec fn token_valid_at(token: Seq<char>, expires_at: u64, now: u64) -> bool {
    token.len() > 0 && now < (if expires_at >= 300 {
        expires_at - 300
    } else {
        0
    })
}

impl Default for CachedToken {
    fn default() -> (t: Self)
        ensures
            t.token@.len() == 0,
            t.expires_at == 0,
    {
        CachedToken { token: String::new(), expires_at: 0 }
    }
}

impl CachedToken {
    pub fn is_valid_at(&self, now: u64) -> (r: bool)
        ensures
            r == token_valid_at(self.token@, self.expires_at, now),
    {
        if self.token.as_str().is_empty() {
            return false;
        }
        let limit = if self.expires_at >= 300 {
            self.expires_at - 300
        } else {
            0
        };
        now < limit
    }

    /// Valid at the current time of the clock: the answer is the token's
    /// validity at some second (which one is the clock's); an empty token, or
    /// one that expires within five minutes of the epoch, is never valid.
    pub fn is_valid(&self) -> (r: bool)
        ensures
            exists|now: u64| r == token_valid_at(self.token@, self.expires_at, now),
            self.token@.len() == 0 ==> !r,
            self.expires_at <= 300 ==> !r,
    {
        self.is_valid_at(unix_now_secs())
    }
}

/// The envelope of a QQ API reply.
#[derive(Debug)]
pub struct QQResponse<T> {
    pub code: i32,
    pub retcode: i32,
    pub msg: String,
    pub message: String,
    pub data: Option<T>,
}

impl<T> QQResponse<T> {
    pub fn is_success(&self) -> (r: bool)
        ensures
            r == (self.code == 0 || self.retcode == 0),
    {
        self.code == 0 || self.retcode == 0
    }

    /// `msg`, else `message`, else `unknown error`.
    pub fn error_message(&self) -> (r: &str)
        ensures
            r@ == (if self.msg@.len() > 0 {
                self.msg@
            } else if self.message@.len() > 0 {
                self.message@
            } else {
                "unknown error"@
            }),
    {
        if !self.msg.as_str().is_empty() {
            self.msg.as_str()
        } else if !self.message.as_str().is_empty() {
            self.message.as_str()
        } else {
            "unknown error"
        }
    }
}

#[derive(Debug, Clone)]
pub struct AccessTokenResponse {
    pub access_token: String,
    pub app_access_token: String,
    pub expires_in: String,
}

/// The token a reply carries: `app_access_token` when present.
pub open spec fn reply_token(r: AccessTokenResponse) -> Seq<char> {
    if r.app_access_token@.len() > 0 {
        r.app_access_token@
    } else {
        r.access_token@
    }
}

/// `expires_in` as a number of seconds, 7200 when it is not one.
pub open spec fn reply_expires_in(r: AccessTokenResponse) -> u64 {
    match parse_uint_spec(r.expires_in@, u64::MAX as int) {
        Some(n) => n as u64,
        None => 7200,
    }
}

impl AccessTokenResponse {
    pub fn token(&self) -> (r: &str)
        ensures
            r@ == reply_token(*self),
    {
        if !self.app_access_token.as_str().is_empty() {
            self.app_access_token.as_str()
        } else {
            self.access_token.as_str()
        }
    }

    pub fn is_valid(&self) -> (r: bool)
        ensures
            r == (reply_token(*self).len() > 0),
    {
        !self.token().is_empty()
    }

    pub fn expires_in_seconds(&self) -> (r: u64)
        ensures
            r == reply_expires_in(*self),
    {
        let v = chars_of(self.expires_in.as_str());
        match parse_uint(v.as_slice(), u64::MAX) {
            Some(n) => n,
            None => 7200,
        }
    }
}

/// Access tokens per app id; no app id occurs twice.
pub struct TokenCache {
    entries: Vec<(String, CachedToken)>,
}

impl View for TokenCache {
    type V = Seq<(Seq<char>, Seq<char>, u64)>;

    closed spec fn view(&self) -> Seq<(Seq<char>, Seq<char>, u64)> {
        self.entries@.map_values(|e: (String, CachedToken)| (e.0@, e.1.token@, e.1.expires_at))
    }
}

/// The token cached for an app id and its expiry, if any.
pub open spec fn cached_for(entries: Seq<(Seq<char>, Seq<char>, u64)>, app_id: Seq<char>) -> Option<
    (Seq<char>, u64),
> {
    if exists|i: int| 0 <= i < entries.len() && (#[trigger] entries[i]).0 == app_id {
        let i = choose|i: int| 0 <= i < entries.len() && (#[trigger] entries[i]).0 == app_id;
        Some((entries[i].1, entries[i].2))
    } else {
        None
    }
}

/// The token handed out for an app id at `now`: the cached one while valid.
pub open spec fn lookup_spec(entries: Seq<(Seq<char>, Seq<char>, u64)>, app_id: Seq<char>, now: u64) -> Option<Seq<char>> {
    match cached_for(entries, app_id) {
        Some((t, e)) => if token_valid_at(t, e, now) {
            Some(t)
        } else {
            None
        },
        None => None,
    }
}

pub open spec fn keys_unique(entries: Seq<(Seq<char>, Seq<char>, u64)>) -> bool {
    forall|i: int, j: int|
        0 <= i < entries.len() && 0 <= j < entries.len() && i != j ==> (#[trigger] entries[i]).0
            != (#[trigger] entries[j]).0
}

impl TokenCache {
    pub open spec fn wf(&self) -> bool {
        keys_unique(self@)
    }

    pub open spec fn get(&self, app_id: Seq<char>) -> Option<(Seq<char>, u64)> {
        cached_for(self@, app_id)
    }

    pub fn new() -> (c: Self)
        ensures
            c.wf(),
            forall|k: Seq<char>| c.get(k) is None,
    {
        let c = TokenCache { entries: Vec::new() };
        assert(c@ =~= Seq::<(Seq<char>, Seq<char>, u64)>::empty());
        c
    }

    fn position(&self, app_id: &str) -> (r: Option<usize>)
        requires
            self.wf(),
        ensures
            match r {
                Some(i) => i < self@.len() && self@[i as int].0 == app_id@,
                None => forall|i: int| 0 <= i < self@.len() ==> self@[i].0 != app_id@,
            },
    {
        let target = chars_of(app_id);
        let mut i: usize = 0;
        while i < self.entries.len()
            invariant
                i <= self.entries.len(),
                target@ == app_id@,
                forall|j: int| 0 <= j < i ==> self@[j].0 != app_id@,
            decreases self.entries.len() - i,
        {
            let k = chars_of(self.entries[i].0.as_str());
            if chars_eq(k.as_slice(), target.as_slice()) {
                return Some(i);
            }
            i = i + 1;
        }
        None
    }

    /// The cached token of an app id, while it is valid at `now`.
    pub fn valid_token(&self, app_id: &str, now: u64) -> (r: Option<String>)
        requires
            self.wf(),
        ensures
            match lookup_spec(self@, app_id@, now) {
                Some(t) => r matches Some(s) && s@ == t,
                None => r is None,
            },
    {
        match self.position(app_id) {
            Some(i) => {
                proof {
                    assert(self.get(app_id@) == Some((self@[i as int].1, self@[i as int].2)));
                }
                let entry = &self.entries[i];
                if entry.1.is_valid_at(now) {
                    Some(entry.1.token.clone())
                } else {
                    None
                }
            },
            None => None,
        }
    }

    /// Caches a token for an app id, replacing the one cached before.
    pub fn store(&mut self, app_id: &str, token: &str, expires_at: u64)
        requires
            old(self).wf(),
        ensures
            final(self).wf(),
            final(self).get(app_id@) == Some((token@, expires_at)),
            forall|k: Seq<char>| k != app_id@ ==> final(self).get(k) == old(self).get(k),
    {
        let entry = (app_id.to_owned(), CachedToken { token: token.to_owned(), expires_at });
        let ghost before = self@;
        match self.position(app_id) {
            Some(i) => {
                self.entries.set(i, entry);
                proof {
                    assert(self@ =~= before.update(i as int, (app_id@, token@, expires_at)));
                    assert(self@[i as int].0 == app_id@);
                    assert forall|k: Seq<char>| k != app_id@ implies self.get(k) == cached_for(
                        before,
                        k,
                    ) by {
                        if exists|j: int| 0 <= j < before.len() && (#[trigger] before[j]).0 == k {
                            let j = choose|j: int| 0 <= j < before.len() && (#[trigger] before[j]).0 == k;
                            assert(self@[j] == before[j]);
                        }
                        if exists|j: int| 0 <= j < self@.len() && (#[trigger] self@[j]).0 == k {
                            let j = choose|j: int| 0 <= j < self@.len() && (#[trigger] self@[j]).0 == k;
                            assert(before[j] == self@[j]);
                        }
                    }
                }
            },
            None => {
                self.entries.push(entry);
                proof {
                    assert(self@ =~= before.push((app_id@, token@, expires_at)));
                    assert(self@[before.len() as int].0 == app_id@);
                    assert forall|k: Seq<char>| k != app_id@ implies self.get(k) == cached_for(
                        before,
                        k,
                    ) by {
                        if exists|j: int| 0 <= j < before.len() && (#[trigger] before[j]).0 == k {
                            let j = choose|j: int| 0 <= j < before.len() && (#[trigger] before[j]).0 == k;
                            assert(self@[j] == before[j]);
                        }
                        if exists|j: int| 0 <= j < self@.len() && (#[trigger] self@[j]).0 == k {
                            let j = choose|j: int| 0 <= j < self@.len() && (#[trigger] self@[j]).0 == k;
                            assert(before[j] == self@[j]);
                        }
                    }
                }
            },
        }
    }
}

/// What is read back after a store: the stored token for that app id while it
/// is valid at `now` (nothing once it is not), and for every other app id what
/// was read before.
pub proof fn lemma_lookup_after_store(
    before: Seq<(Seq<char>, Seq<char>, u64)>,
    after: Seq<(Seq<char>, Seq<char>, u64)>,
    app_id: Seq<char>,
    token: Seq<char>,
    expires_at: u64,
    other: Seq<char>,
    now: u64,
)
    requires
        cached_for(after, app_id) == Some((token, expires_at)),
        forall|k: Seq<char>| k != app_id ==> cached_for(after, k) == cached_for(before, k),
    ensures
        lookup_spec(after, app_id, now) == (if token_valid_at(token, expires_at, now) {
            Some(token)
        } else {
            None
        }),
        other != app_id ==> lookup_spec(after, other, now) == lookup_spec(before, other, now),
{
}

/// Message ids already delivered, at most ten thousand.
pub struct QQDedupCache {
    seen: RecentIds,
}

/// How many message ids are remembered before half of them are forgotten.
pub const QQ_DEDUP_CAPACITY: usize = 10000;

impl QQDedupCache {
    pub closed spec fn ids(&self) -> Seq<Seq<char>> {
        self.seen@
    }

    pub closed spec fn wf(&self) -> bool {
        self.seen.wf() && self.seen@.len() <= QQ_DEDUP_CAPACITY
    }

    pub fn new() -> (c: Self)
        ensures
            c.wf(),
            c.ids().len() == 0,
    {
        QQDedupCache { seen: RecentIds::new() }
    }

    /// Whether a message id was seen before; an unseen id is remembered, the
    /// older half of the ids being forgotten first when ten thousand are held.
    pub fn is_duplicate(&mut self, msg_id: &str) -> (dup: bool)
        requires
            old(self).wf(),
        ensures
            final(self).wf(),
            dup == old(self).ids().contains(msg_id@),
            dup ==> final(self).ids() == old(self).ids(),
            !dup ==> final(self).ids() == (if old(self).ids().len() >= QQ_DEDUP_CAPACITY {
                old(self).ids().skip((old(self).ids().len() / 2) as int)
            } else {
                old(self).ids()
            }).push(msg_id@),
    {
        if self.seen.contains(msg_id) {
            return true;
        }
        let n = self.seen.len();
        if n >= QQ_DEDUP_CAPACITY {
            self.seen.remove_oldest(n / 2);
        }
        proof {
            assert forall|i: int| 0 <= i < self.seen@.len() implies self.seen@[i] != msg_id@ by {
                if n >= QQ_DEDUP_CAPACITY {
                    assert(self.seen@[i] == old(self).seen@[i + n / 2]);
                }
            }
        }
        self.seen.push_new(msg_id);
        false
    }
}

/// After a message id is checked, it is known: a second check reports it.
pub proof fn lemma_checked_id_is_remembered(
    before: QQDedupCache,
    after: QQDedupCache,
    msg_id: Seq<char>,
    dup: bool,
)
    requires
        before.wf(),
        dup == before.ids().contains(msg_id),
        dup ==> after.ids() == before.ids(),
        !dup ==> after.ids() == (if before.ids().len() >= QQ_DEDUP_CAPACITY {
            before.ids().skip((before.ids().len() / 2) as int)
        } else {
            before.ids()
        }).push(msg_id),
    ensures
        after.ids().contains(msg_id),
{
    if !dup {
        let s = after.ids();
        assert(s[s.len() - 1] == msg_id);
    }
}

/// `allow_from` empty admits everyone; otherwise `*` or the exact user id.
pub open spec fn allowed_spec(allow_from: Seq<Seq<char>>, user_id: Seq<char>) -> bool {
    allow_from.len() == 0 || exists|i: int|
        0 <= i < allow_from.len() && (#[trigger] allow_from[i] == "*"@ || allow_from[i] == user_id)
}

pub fn is_allowed(allow_from: &[String], user_id: &str) -> (r: bool)
    ensures
        r == allowed_spec(allow_from@.map_values(|s: String| s@), user_id@),
{
    let ghost list = allow_from@.map_values(|s: String| s@);
    if allow_from.len() == 0 {
        return true;
    }
    let star = chars_of("*");
    let uid = chars_of(user_id);
    let mut i: usize = 0;
    while i < allow_from.len()
        invariant
            i <= allow_from.len(),
            list == allow_from@.map_values(|s: String| s@),
            star@ == "*"@,
            uid@ == user_id@,
            forall|j: int| 0 <= j < i ==> !(list[j] == "*"@ || list[j] == user_id@),
        decreases allow_from.len() - i,
    {
        let a = chars_of(allow_from[i].as_str());
        if chars_eq(a.as_slice(), star.as_slice()) || chars_eq(a.as_slice(), uid.as_slice()) {
            assert(list[i as int] == a@);
            return true;
        }
        i = i + 1;
    }
    false
}

} // verus!

verus! {

/// An attachment of a QQ message; a field that is not a JSON string is `None`.
#[derive(Debug, Clone)]
pub struct QQAttachment {
    pub url: Option<String>,
    pub content_type: Option<String>,
    pub filename: Option<String>,
}

/// A JSON field that may be missing, present but not a string, or a string.
#[derive(Debug, Clone)]
pub enum JsonText {
    Missing,
    NotText,
    Text(String),
}

/// The fields of a QQ message event that the channel reads; a field that is not
/// a JSON string is `None`, `attachments` is `None` unless it is an array.
#[derive(Debug, Clone)]
pub struct QQMessagePayload {
    pub id: Option<String>,
    pub msg_id: Option<String>,
    pub content: Option<String>,
    pub attachments: Option<Vec<QQAttachment>>,
    pub author_id: Option<String>,
    pub author_user_openid: Option<String>,
    pub author_member_openid: Option<String>,
    pub group_openid: JsonText,
    pub group_id: Option<String>,
}

pub open spec fn opt_text(o: Option<String>) -> Seq<char> {
    match o {
        Some(s) => s@,
        None => seq![],
    }
}

/// `id`, else `msg_id`, else empty.
pub open spec fn message_id_spec(p: QQMessagePayload) -> Seq<char> {
    match p.id {
        Some(s) => s@,
        None => opt_text(p.msg_id),
    }
}

pub fn extract_message_id(payload: &QQMessagePayload) -> (r: String)
    ensures
        r@ == message_id_spec(*payload),
{
    match &payload.id {
        Some(s) => s.clone(),
        None => match &payload.msg_id {
            Some(s) => s.clone(),
            None => String::new(),
        },
    }
}

/// A file name whose lowercase form ends in an image extension.
pub open spec fn image_name_spec(name: Seq<char>) -> bool {
    let l = lowercase_of(name);
    has_suffix(l, ".png"@) || has_suffix(l, ".jpg"@) || has_suffix(l, ".jpeg"@) || has_suffix(
        l,
        ".gif"@,
    ) || has_suffix(l, ".webp"@)
}

pub fn is_image_filename(name: &str) -> (r: bool)
    ensures
        r == image_name_spec(name@),
{
    let lower = to_lowercase(name);
    let l = chars_of(lower.as_str());
    let png = chars_of(".png");
    let jpg = chars_of(".jpg");
    let jpeg = chars_of(".jpeg");
    let gif = chars_of(".gif");
    let webp = chars_of(".webp");
    ends_with(l.as_slice(), png.as_slice()) || ends_with(l.as_slice(), jpg.as_slice()) || ends_with(
        l.as_slice(),
        jpeg.as_slice(),
    ) || ends_with(l.as_slice(), gif.as_slice()) || ends_with(l.as_slice(), webp.as_slice())
}

/// The marker an attachment contributes, if it is an image with a URL.
pub open spec fn image_marker(a: QQAttachment) -> Option<Seq<char>> {
    match a.url {
        Some(url) => if has_prefix(opt_text(a.content_type), "image/"@) || image_name_spec(
            opt_text(a.filename),
        ) {
            Some("[IMAGE:"@ + url@ + "]"@)
        } else {
            None
        },
        None => None,
    }
}

pub open spec fn image_markers(atts: Seq<QQAttachment>) -> Seq<Seq<char>>
    decreases atts.len(),
{
    if atts.len() == 0 {
        seq![]
    } else {
        match image_marker(atts.last()) {
            Some(m) => image_markers(atts.drop_last()).push(m),
            None => image_markers(atts.drop_last()),
        }
    }
}

/// The markers of attachments that follow one another are the markers of
/// the first ones followed by those of the rest: each attachment contributes
/// its own marker, in order, whatever stands around it.
pub proof fn lemma_image_markers_concat(s: Seq<QQAttachment>, t: Seq<QQAttachment>)
    ensures
        image_markers(s + t) == image_markers(s) + image_markers(t),
    decreases t.len(),
{
    if t.len() == 0 {
        assert(s + t =~= s);
        assert(image_markers(s) + image_markers(t) =~= image_markers(s));
    } else {
        lemma_image_markers_concat(s, t.drop_last());
        assert((s + t).drop_last() =~= s + t.drop_last());
        assert((s + t).last() == t.last());
        match image_marker(t.last()) {
            Some(m) => {
                assert(image_markers(s) + image_markers(t.drop_last()).push(m) =~= (image_markers(s)
                    + image_markers(t.drop_last())).push(m));
            },
            None => {},
        }
    }
}

/// One attachment gives one marker when it is an image with a URL, and none
/// otherwise.
pub proof fn lemma_image_markers_single(a: QQAttachment)
    ensures
        image_markers(seq![a]) == (match image_marker(a) {
            Some(m) => seq![m],
            None => Seq::<Seq<char>>::empty(),
        }),
{
    assert(seq![a].drop_last() =~= Seq::<QQAttachment>::empty());
    assert(seq![a].last() == a);
    assert(image_markers(Seq::<QQAttachment>::empty()) =~= Seq::<Seq<char>>::empty());
    match image_marker(a) {
        Some(m) => {
            assert(Seq::<Seq<char>>::empty().push(m) =~= seq![m]);
        },
        None => {},
    }
}

/// There are as many markers as attachments that are images with a URL.
pub proof fn lemma_image_markers_count(atts: Seq<QQAttachment>)
    ensures
        image_markers(atts).len() == atts.filter(|a: QQAttachment| image_marker(a) is Some).len(),
    decreases atts.len(),
{
    if atts.len() > 0 {
        lemma_image_markers_count(atts.drop_last());
        assert(atts.drop_last().push(atts.last()) =~= atts);
        crate::text::lemma_filter_push(atts.drop_last(), |a: QQAttachment| image_marker(a) is Some, atts.last());
    } else {
        assert(atts.filter(|a: QQAttachment| image_marker(a) is Some) =~= Seq::<QQAttachment>::empty()) by {
            reveal(Seq::filter);
        }
    }
}

/// The text of a message: the trimmed content, then the image markers one per
/// line after a blank line; `None` when both are empty.
pub open spec fn message_content_spec(p: QQMessagePayload) -> Option<Seq<char>> {
    let text = trim_spec(opt_text(p.content));
    let marks = match p.attachments {
        Some(v) => image_markers(v@),
        None => seq![],
    };
    if text.len() == 0 && marks.len() == 0 {
        None
    } else if text.len() == 0 {
        Some(join_spec(marks, "\n"@))
    } else if marks.len() == 0 {
        Some(text)
    } else {
        Some(text + "\n\n"@ + join_spec(marks, "\n"@))
    }
}

fn image_marker_exec(a: &QQAttachment) -> (r: Option<String>)
    ensures
        match image_marker(*a) {
            Some(m) => r matches Some(s) && s@ == m,
            None => r is None,
        },
{
    match &a.url {
        Some(url) => {
            let ct = match &a.content_type {
                Some(s) => chars_of(s.as_str()),
                None => Vec::new(),
            };
            let fname: &str = match &a.filename {
                Some(s) => s.as_str(),
                None => "",
            };
            proof {
                reveal_strlit("");
                assert(fname@ =~= opt_text(a.filename));
                assert(ct@ =~= opt_text(a.content_type));
            }
            let image_prefix = chars_of("image/");
            if starts_with(ct.as_slice(), image_prefix.as_slice()) || is_image_filename(fname) {
                let mut v = chars_of("[IMAGE:");
                let mut u = chars_of(url.as_str());
                v.append(&mut u);
                let mut close = chars_of("]");
                v.append(&mut close);
                assert(v@ =~= "[IMAGE:"@ + url@ + "]"@);
                Some(string_from_chars(v.as_slice()))
            } else {
                None
            }
        },
        None => None,
    }
}

fn image_markers_exec(atts: &Vec<QQAttachment>) -> (r: Vec<String>)
    ensures
        r@.map_values(|s: String| s@) == image_markers(atts@),
{
    let mut r: Vec<String> = Vec::new();
    let mut i: usize = 0;
    while i < atts.len()
        invariant
            i <= atts.len(),
            r@.map_values(|s: String| s@) == image_markers(atts@.take(i as int)),
        decreases atts.len() - i,
    {
        let m = image_marker_exec(&atts[i]);
        proof {
            assert(atts@.take(i + 1).drop_last() =~= atts@.take(i as int));
            assert(atts@.take(i + 1).last() == atts@[i as int]);
        }
        match m {
            Some(s) => {
                let ghost before = r@;
                r.push(s);
                assert(r@.map_values(|s: String| s@) =~= before.map_values(|s: String| s@).push(
                    s@,
                ));
            },
            None => {},
        }
        i = i + 1;
    }
    assert(atts@.take(atts.len() as int) =~= atts@);
    r
}

pub fn compose_message_content(payload: &QQMessagePayload) -> (r: Option<String>)
    ensures
        match message_content_spec(*payload) {
            Some(t) => r matches Some(s) && s@ == t,
            None => r is None,
        },
{
    let content: &str = match &payload.content {
        Some(s) => s.as_str(),
        None => "",
    };
    proof {
        reveal_strlit("");
    }
    let text = trim_str(content);
    let marks: Vec<String> = match &payload.attachments {
        Some(v) => image_markers_exec(v),
        None => Vec::new(),
    };
    proof {
        if payload.attachments is None {
            assert(marks@.map_values(|s: String| s@) =~= Seq::<Seq<char>>::empty());
        }
    }
    let nl = chars_of("\n");
    if text.len() == 0 && marks.len() == 0 {
        return None;
    }
    let joined = join_strings(marks.as_slice(), nl.as_slice());
    if text.len() == 0 {
        return Some(string_from_chars(joined.as_slice()));
    }
    if marks.len() == 0 {
        return Some(string_from_chars(text.as_slice()));
    }
    let mut v = copy_chars(text.as_slice());
    let mut sep = chars_of("\n\n");
    v.append(&mut sep);
    let mut j = joined;
    v.append(&mut j);
    Some(string_from_chars(v.as_slice()))
}

/// A message the QQ channel hands to the agent.
#[derive(Debug, Clone)]
pub struct QQInbound {
    pub sender_id: String,
    pub chat_id: String,
    pub content: String,
    pub message_id: String,
    pub message_type: String,
    pub group_id: Option<String>,
}

/// The sender of a C2C message: `author.user_openid`, else `author.id`, else `unknown`.
pub open spec fn c2c_sender_spec(p: QQMessagePayload) -> Seq<char> {
    match p.author_user_openid {
        Some(s) => s@,
        None => match p.author_id {
            Some(s) => s@,
            None => "unknown"@,
        },
    }
}

/// The text of a message when it is not empty.
pub open spec fn nonempty_content(p: QQMessagePayload) -> Option<Seq<char>> {
    match message_content_spec(p) {
        Some(t) => if t.len() > 0 {
            Some(t)
        } else {
            None
        },
        None => None,
    }
}

/// A direct (C2C) message: dropped when its id was seen, when its sender is not
/// allowed or when it has no text; else addressed to `user:<sender>`.
pub fn c2c_inbound(dedup: &mut QQDedupCache, allow_from: &[String], payload: &QQMessagePayload) -> (r:
    Option<QQInbound>)
    requires
        old(dedup).wf(),
    ensures
        final(dedup).wf(),
        final(dedup).ids().contains(message_id_spec(*payload)),
        r is Some <==> (!old(dedup).ids().contains(message_id_spec(*payload)) && allowed_spec(
            allow_from@.map_values(|s: String| s@),
            c2c_sender_spec(*payload),
        ) && nonempty_content(*payload) is Some),
        r matches Some(m) ==> {
            &&& m.sender_id@ == c2c_sender_spec(*payload)
            &&& m.chat_id@ == "user:"@ + c2c_sender_spec(*payload)
            &&& Some(m.content@) == nonempty_content(*payload)
            &&& m.message_id@ == message_id_spec(*payload)
            &&& m.message_type@ == "C2C"@
            &&& m.group_id is None
        },
{
    let msg_id = extract_message_id(payload);
    let dup = dedup.is_duplicate(msg_id.as_str());
    proof {
        lemma_checked_id_is_remembered(*old(dedup), *dedup, msg_id@, dup);
    }
    if dup {
        return None;
    }
    let sender: String = match &payload.author_user_openid {
        Some(s) => s.clone(),
        None => match &payload.author_id {
            Some(s) => s.clone(),
            None => "unknown".to_owned(),
        },
    };
    if !is_allowed(allow_from, sender.as_str()) {
        return None;
    }
    let content = match compose_message_content(payload) {
        Some(c) => c,
        None => return None,
    };
    if content.as_str().is_empty() {
        return None;
    }
    let mut chat = chars_of("user:");
    let mut sv = chars_of(sender.as_str());
    chat.append(&mut sv);
    Some(
        QQInbound {
            sender_id: sender,
            chat_id: string_from_chars(chat.as_slice()),
            content,
            message_id: msg_id,
            message_type: "C2C".to_owned(),
            group_id: None,
        },
    )
}

/// The sender of a group message: `author.member_openid`, else `unknown`.
pub open spec fn group_sender_spec(p: QQMessagePayload) -> Seq<char> {
    match p.author_member_openid {
        Some(s) => s@,
        None => "unknown"@,
    }
}

/// The group of a message: `group_openid` when that field is present (`unknown`
/// when it is not a string), else `group_id`, else `unknown`.
pub open spec fn group_spec(p: QQMessagePayload) -> Seq<char> {
    match p.group_openid {
        JsonText::Text(s) => s@,
        JsonText::NotText => "unknown"@,
        JsonText::Missing => match p.group_id {
            Some(s) => s@,
            None => "unknown"@,
        },
    }
}

/// A group message that mentions the bot: dropped when its id was seen, when
/// its sender is not allowed or when it has no text; else addressed to
/// `group:<group>`.
pub fn group_at_inbound(
    dedup: &mut QQDedupCache,
    allow_from: &[String],
    payload: &QQMessagePayload,
) -> (r: Option<QQInbound>)
    requires
        old(dedup).wf(),
    ensures
        final(dedup).wf(),
        final(dedup).ids().contains(message_id_spec(*payload)),
        r is Some <==> (!old(dedup).ids().contains(message_id_spec(*payload)) && allowed_spec(
            allow_from@.map_values(|s: String| s@),
            group_sender_spec(*payload),
        ) && nonempty_content(*payload) is Some),
        r matches Some(m) ==> {
            &&& m.sender_id@ == group_sender_spec(*payload)
            &&& m.chat_id@ == "group:"@ + group_spec(*payload)
            &&& Some(m.content@) == nonempty_content(*payload)
            &&& m.message_id@ == message_id_spec(*payload)
            &&& m.message_type@ == "GROUP_AT"@
            &&& m.group_id matches Some(g) && g@ == group_spec(*payload)
        },
{
    let msg_id = extract_message_id(payload);
    let dup = dedup.is_duplicate(msg_id.as_str());
    proof {
        lemma_checked_id_is_remembered(*old(dedup), *dedup, msg_id@, dup);
    }
    if dup {
        return None;
    }
    let sender: String = match &payload.author_member_openid {
        Some(s) => s.clone(),
        None => "unknown".to_owned(),
    };
    if !is_allowed(allow_from, sender.as_str()) {
        return None;
    }
    let group: String = match &payload.group_openid {
        JsonText::Text(s) => s.clone(),
        JsonText::NotText => "unknown".to_owned(),
        JsonText::Missing => match &payload.group_id {
            Some(s) => s.clone(),
            None => "unknown".to_owned(),
        },
    };
    let content = match compose_message_content(payload) {
        Some(c) => c,
        None => return None,
    };
    if content.as_str().is_empty() {
        return None;
    }
    let mut chat = chars_of("group:");
    let mut gv = chars_of(group.as_str());
    chat.append(&mut gv);
    Some(
        QQInbound {
            sender_id: sender,
            chat_id: string_from_chars(chat.as_slice()),
            content,
            message_id: msg_id,
            message_type: "GROUP_AT".to_owned(),
            group_id: Some(group),
        },
    )
}

} // verus!

verus! {

/// The API path of a recipient: `group:<id>` is a group, `user:<id>` or a bare
/// id a user.
pub open spec fn recipient_url_spec(api_base: Seq<char>, chat_id: Seq<char>, tail: Seq<char>) -> Seq<
    char,
> {
    if has_prefix(chat_id, "group:"@) {
        api_base + "/v2/groups/"@ + chat_id.skip("group:"@.len() as int) + tail
    } else {
        let user = if has_prefix(chat_id, "user:"@) {
            chat_id.skip("user:"@.len() as int)
        } else {
            chat_id
        };
        api_base + "/v2/users/"@ + user + tail
    }
}

fn recipient_url(api_base: &str, chat_id: &str, tail: &str) -> (r: String)
    ensures
        r@ == recipient_url_spec(api_base@, chat_id@, tail@),
{
    let chat = chars_of(chat_id);
    let group = chars_of("group:");
    let user = chars_of("user:");
    let mut v = chars_of(api_base);
    if starts_with(chat.as_slice(), group.as_slice()) {
        let mut mid = chars_of("/v2/groups/");
        let mut id = slice_chars(chat.as_slice(), group.len(), chat.len());
        let mut t = chars_of(tail);
        v.append(&mut mid);
        v.append(&mut id);
        v.append(&mut t);
        assert(v@ =~= recipient_url_spec(api_base@, chat_id@, tail@));
    } else {
        let mut id = if starts_with(chat.as_slice(), user.as_slice()) {
            slice_chars(chat.as_slice(), user.len(), chat.len())
        } else {
            copy_chars(chat.as_slice())
        };
        let mut mid = chars_of("/v2/users/");
        let mut t = chars_of(tail);
        v.append(&mut mid);
        v.append(&mut id);
        v.append(&mut t);
        assert(v@ =~= recipient_url_spec(api_base@, chat_id@, tail@));
    }
    string_from_chars(v.as_slice())
}

/// Where a text message to `chat_id` is posted.
pub fn message_url(api_base: &str, chat_id: &str) -> (r: String)
    ensures
        r@ == recipient_url_spec(api_base@, chat_id@, "/messages"@),
{
    recipient_url(api_base, chat_id, "/messages")
}

/// Where a file for `chat_id` is uploaded.
pub fn upload_url(api_base: &str, chat_id: &str) -> (r: String)
    ensures
        r@ == recipient_url_spec(api_base@, chat_id@, "/files"@),
{
    recipient_url(api_base, chat_id, "/files")
}

/// Where the media message that follows an upload is posted: the upload URL
/// with every `/files` replaced by `/messages`.
pub fn media_message_url(upload: &str) -> (r: String)
    ensures
        r@ == replace_all_spec(upload@, "/files"@, "/messages"@),
{
    let u = chars_of(upload);
    let pat = chars_of("/files");
    let rep = chars_of("/messages");
    proof {
        reveal_strlit("/files");
    }
    let r = replace_all(u.as_slice(), pat.as_slice(), rep.as_slice());
    string_from_chars(r.as_slice())
}

/// The upload `file_type`: 1 for an image file name, 0 for any other file.
pub fn media_file_type(filename: &str) -> (t: u32)
    ensures
        t == (if image_name_spec(filename@) {
            1u32
        } else {
            0u32
        }),
{
    if is_image_filename(filename) {
        1
    } else {
        0
    }
}

/// The `Authorization` header value for a token.
pub fn auth_header(token: &str) -> (r: String)
    ensures
        r@ == "QQBot "@ + token@,
{
    let mut v = chars_of("QQBot ");
    let mut t = chars_of(token);
    v.append(&mut t);
    string_from_chars(v.as_slice())
}

/// What a gateway dispatch event is handled as.
#[derive(Debug, Clone, Copy, PartialEq, Eq, Structural)]
pub enum DispatchRoute {
    C2cMessage,
    GroupAtMessage,
    Ready,
    Unhandled,
}

pub open spec fn dispatch_route_spec(event_type: Seq<char>) -> DispatchRoute {
    if event_type == "C2C_MESSAGE_CREATE"@ {
        DispatchRoute::C2cMessage
    } else if event_type == "GROUP_AT_MESSAGE_CREATE"@ {
        DispatchRoute::GroupAtMessage
    } else if event_type == "READY"@ {
        DispatchRoute::Ready
    } else {
        DispatchRoute::Unhandled
    }
}

pub fn dispatch_route(event_type: &str) -> (r: DispatchRoute)
    ensures
        r == dispatch_route_spec(event_type@),
{
    let t = chars_of(event_type);
    let c2c = chars_of("C2C_MESSAGE_CREATE");
    let group = chars_of("GROUP_AT_MESSAGE_CREATE");
    let ready = chars_of("READY");
    if chars_eq(t.as_slice(), c2c.as_slice()) {
        DispatchRoute::C2cMessage
    } else if chars_eq(t.as_slice(), group.as_slice()) {
        DispatchRoute::GroupAtMessage
    } else if chars_eq(t.as_slice(), ready.as_slice()) {
        DispatchRoute::Ready
    } else {
        DispatchRoute::Unhandled
    }
}

/// What a webhook payload is handled as; every route but `Validate` is
/// answered with `{"retcode": 0}`.
#[derive(Debug, Clone, Copy, PartialEq, Eq)]
pub enum WebhookRoute {
    Validate,
    Ack,
    C2cMessage,
    GroupAtMessage,
    Unhandled,
}

/// Op 13 is a validation; ops other than 0 are acknowledged; an event of op 0
/// is handled by its type when it carries data.
pub open spec fn webhook_route_spec(op: u64, event_type: Seq<char>, has_data: bool) -> WebhookRoute {
    if op == 13 {
        WebhookRoute::Validate
    } else if op != 0 {
        WebhookRoute::Ack
    } else if event_type == "C2C_MESSAGE_CREATE"@ {
        if has_data {
            WebhookRoute::C2cMessage
        } else {
            WebhookRoute::Ack
        }
    } else if event_type == "GROUP_AT_MESSAGE_CREATE"@ {
        if has_data {
            WebhookRoute::GroupAtMessage
        } else {
            WebhookRoute::Ack
        }
    } else {
        WebhookRoute::Unhandled
    }
}

pub fn webhook_route(op: u64, event_type: &str, has_data: bool) -> (r: WebhookRoute)
    ensures
        r == webhook_route_spec(op, event_type@, has_data),
{
    if op == 13 {
        return WebhookRoute::Validate;
    }
    if op != 0 {
        return WebhookRoute::Ack;
    }
    let t = chars_of(event_type);
    let c2c = chars_of("C2C_MESSAGE_CREATE");
    let group = chars_of("GROUP_AT_MESSAGE_CREATE");
    if chars_eq(t.as_slice(), c2c.as_slice()) {
        if has_data {
            WebhookRoute::C2cMessage
        } else {
            WebhookRoute::Ack
        }
    } else if chars_eq(t.as_slice(), group.as_slice()) {
        if has_data {
            WebhookRoute::GroupAtMessage
        } else {
            WebhookRoute::Ack
        }
    } else {
        WebhookRoute::Unhandled
    }
}

/// The reply to a webhook validation request.
#[derive(Debug, Clone)]
pub struct WebhookValidation {
    pub plain_token: String,
    pub signature: String,
}

/// The bytes of a string, as `str::as_bytes` gives them.
pub open spec fn utf8_of(s: Seq<char>) -> Seq<u8> {
    vstd::utf8::encode_utf8(s)
}

/// The validation signature: the timestamp then the plain token, signed with
/// the Ed25519 key seeded by the SHA-256 of the app secret, in lowercase hex.
pub open spec fn validation_signature_spec(
    app_secret: Seq<char>,
    plain_token: Seq<char>,
    event_ts: Seq<char>,
) -> Seq<char> {
    bytes_hex_spec(
        crate::crypto::ed25519_signature_of(
            crate::crypto::sha256_of(utf8_of(app_secret)),
            utf8_of(event_ts) + utf8_of(plain_token),
        ),
    )
}

/// Answers a webhook validation request (op 13). `has_data` tells whether the
/// payload has `d`; the token and timestamp are its string fields.
pub fn webhook_validation(
    app_secret: &str,
    has_data: bool,
    plain_token: Option<&str>,
    event_ts: Option<&str>,
) -> (r: Result<WebhookValidation, String>)
    ensures
        !has_data ==> (r matches Err(e) && e@ == "Missing validation data"@),
        has_data && plain_token is None ==> (r matches Err(e) && e@ == "Missing plain_token"@),
        has_data && plain_token is Some && event_ts is None ==> (r matches Err(e) && e@
            == "Missing event_ts"@),
        has_data && plain_token is Some && event_ts is Some ==> (r matches Ok(v)
            && v.plain_token@ == plain_token->0@ && v.signature@ == validation_signature_spec(
            app_secret@,
            plain_token->0@,
            event_ts->0@,
        )),
{
    if !has_data {
        return Err("Missing validation data".to_owned());
    }
    let token = match plain_token {
        Some(t) => t,
        None => return Err("Missing plain_token".to_owned()),
    };
    let ts = match event_ts {
        Some(t) => t,
        None => return Err("Missing event_ts".to_owned()),
    };
    let seed = crate::crypto::sha256_digest(app_secret.as_bytes());
    let mut message: Vec<u8> = Vec::new();
    message.extend_from_slice(ts.as_bytes());
    message.extend_from_slice(token.as_bytes());
    proof {
        assert(message@ =~= utf8_of(ts@) + utf8_of(token@));
    }
    let signature = crate::crypto::ed25519_sign(seed.as_slice(), message.as_slice());
    let hex = crate::crypto::hex_encode(signature.as_slice());
    Ok(WebhookValidation { plain_token: token.to_owned(), signature: hex })
}

/// How the QQ channel runs.
#[derive(Debug, Clone, Copy, PartialEq, Eq)]
pub enum QQRunMode {
    Disabled,
    MissingCredentials,
    Webhook,
    WebSocket,
}

/// Disabled, or without app id or secret, it does not run; mode `webhook` in
/// any letter case waits for webhook calls; anything else connects to the gateway.
pub fn run_mode(enabled: bool, app_id: &str, app_secret: &str, mode: &str) -> (m: QQRunMode)
    ensures
        m == (if !enabled {
            QQRunMode::Disabled
        } else if app_id@.len() == 0 || app_secret@.len() == 0 {
            QQRunMode::MissingCredentials
        } else if lowercase_of(mode@) == "webhook"@ {
            QQRunMode::Webhook
        } else {
            QQRunMode::WebSocket
        }),
{
    if !enabled {
        return QQRunMode::Disabled;
    }
    if app_id.is_empty() || app_secret.is_empty() {
        return QQRunMode::MissingCredentials;
    }
    let lower = to_lowercase(mode);
    let l = chars_of(lower.as_str());
    let webhook = chars_of("webhook");
    if chars_eq(l.as_slice(), webhook.as_slice()) {
        QQRunMode::Webhook
    } else {
        QQRunMode::WebSocket
    }
}

} // verus!
