//! WhatsApp bridge channel: sender filtering, message handling and media files.

use vstd::prelude::*;

use crate::crypto::{b64_digit, base64_std};
use crate::numbers::{i64_decimal_chars, signed_decimal_spec};
use crate::recent::RecentIds;
use crate::text::{
    chars_eq, chars_of, copy_chars, find_char, find_last_char, slice_chars, split_last,
    string_from_chars, trim_spec, trim_str,
};

verus! {

/// The part of a JID before its first `@` (the whole JID without one).
pub open spec fn phone_of(sender: Seq<char>) -> Seq<char> {
    if exists|i: int| 0 <= i < sender.len() && sender[i] == '@' {
        let i = choose|i: int| crate::text::is_first_index(sender, '@', i);
        sender.take(i)
    } else {
        sender
    }
}

/// `allow_from` empty admits everyone; otherwise the JID or its phone number.
pub open spec fn whatsapp_allowed_spec(allow_from: Seq<Seq<char>>, sender: Seq<char>) -> bool {
    allow_from.len() == 0 || exists|i: int|
        0 <= i < allow_from.len() && (#[trigger] allow_from[i] == sender || allow_from[i]
            == phone_of(sender))
}

fn phone_chars(sender: &[char]) -> (r: Vec<char>)
    ensures
        r@ == phone_of(sender@),
{
    match find_char(sender, '@') {
        Some(i) => {
            proof {
                assert(crate::text::is_first_index(sender@, '@', i as int));
                let j = choose|j: int| crate::text::is_first_index(sender@, '@', j);
                assert(j == i as int) by {
                    if j < i as int {
                        assert(sender@[j] != '@');
                    } else if j > i as int {
                        assert(sender@[i as int] != '@');
                    }
                }
            }
            slice_chars(sender, 0, i)
        },
        None => copy_chars(sender),
    }
}

pub fn is_allowed(allow_from: &[String], sender: &str) -> (r: bool)
    ensures
        r == whatsapp_allowed_spec(allow_from@.map_values(|s: String| s@), sender@),
{
    let ghost list = allow_from@.map_values(|s: String| s@);
    if allow_from.len() == 0 {
        return true;
    }
    let s = chars_of(sender);
    let phone = phone_chars(s.as_slice());
    let mut i: usize = 0;
    while i < allow_from.len()
        invariant
            i <= allow_from.len(),
            list == allow_from@.map_values(|s: String| s@),
            s@ == sender@,
            phone@ == phone_of(sender@),
            forall|j: int| 0 <= j < i ==> !(list[j] == sender@ || list[j] == phone_of(sender@)),
        decreases allow_from.len() - i,
    {
        let a = chars_of(allow_from[i].as_str());
        if chars_eq(a.as_slice(), s.as_slice()) || chars_eq(a.as_slice(), phone.as_slice()) {
            assert(list[i as int] == a@);
            return true;
        }
        i = i + 1;
    }
    false
}

/// A message from the WhatsApp bridge, with the fields the channel reads.
#[derive(Debug, Clone)]
pub struct BridgeMessage {
    pub msg_type: String,
    pub id: Option<String>,
    pub sender: Option<String>,
    pub content: Option<String>,
    pub timestamp: Option<i64>,
    pub is_group: Option<bool>,
    pub status: Option<String>,
    pub qr: Option<String>,
    pub error: Option<String>,
    pub media_type: Option<String>,
    pub media_data: Option<String>,
    pub media_filename: Option<String>,
    pub mime_type: Option<String>,
}

/// Media to be written to disk before the message is delivered.
#[derive(Debug, Clone)]
pub struct MediaToSave {
    pub media_type: String,
    pub data: String,
    pub filename: Option<String>,
    pub mime: Option<String>,
}

/// A message the WhatsApp channel hands to the agent (its media paths are
/// added once the media is saved).
#[derive(Debug, Clone)]
pub struct WhatsAppInbound {
    pub sender_id: String,
    pub chat_id: String,
    pub content: String,
    pub message_id: Option<String>,
    pub is_group: bool,
    pub media_type: Option<String>,
    pub timestamp_ms: i64,
}

/// What the channel does with a bridge message.
#[derive(Debug, Clone)]
pub enum BridgeAction {
    /// Dropped: no sender, not allowed, empty, or already seen.
    Ignore,
    /// Handed to the agent, after saving its media if any.
    Deliver { inbound: WhatsAppInbound, media: Option<MediaToSave> },
    /// A bridge status to log.
    Status { status: Option<String> },
    /// A QR code for login arrived.
    Qr { qr: Option<String> },
    /// A bridge error to log.
    BridgeError { error: Option<String> },
    /// A message type the channel does not know.
    Unknown { msg_type: String },
}

pub open spec fn opt_chars(o: Option<String>) -> Seq<char> {
    match o {
        Some(s) => s@,
        None => seq![],
    }
}

/// The text standing for media that came without a caption.
pub open spec fn media_placeholder(media_type: Seq<char>, filename: Option<String>) -> Seq<char> {
    if media_type == "image"@ {
        "[图片，已下载到本地，可直接查看或用 read_file 读取]"@
    } else if media_type == "audio"@ || media_type == "ptt"@ {
        "[语音消息，已下载到本地，请用 audio_transcribe 工具转写后回复]"@
    } else if media_type == "video"@ {
        "[视频，已下载到本地]"@
    } else if media_type == "document"@ {
        "[文件: "@ + (match filename {
            Some(f) => f@,
            None => "unknown"@,
        }) + "，已下载到本地，可用 read_file 读取]"@
    } else {
        "["@ + media_type + "，已下载到本地]"@
    }
}

/// The key a message is deduplicated by: its id, or sender, time and text.
pub open spec fn dedup_key_spec(m: BridgeMessage, now_ms: i64) -> Seq<char> {
    match m.id {
        Some(id) => "id:"@ + id@,
        None => "fallback:"@ + opt_chars(m.sender) + ":"@ + signed_decimal_spec(
            (match m.timestamp {
                Some(t) => t,
                None => now_ms,
            }) as int,
        ) + ":"@ + opt_chars(m.content),
    }
}

fn media_placeholder_exec(media_type: &str, filename: &Option<String>) -> (r: String)
    ensures
        r@ == media_placeholder(media_type@, *filename),
{
    let t = chars_of(media_type);
    let image = chars_of("image");
    let audio = chars_of("audio");
    let ptt = chars_of("ptt");
    let video = chars_of("video");
    let document = chars_of("document");
    if chars_eq(t.as_slice(), image.as_slice()) {
        "[图片，已下载到本地，可直接查看或用 read_file 读取]".to_owned()
    } else if chars_eq(t.as_slice(), audio.as_slice()) || chars_eq(t.as_slice(), ptt.as_slice()) {
        "[语音消息，已下载到本地，请用 audio_transcribe 工具转写后回复]".to_owned()
    } else if chars_eq(t.as_slice(), video.as_slice()) {
        "[视频，已下载到本地]".to_owned()
    } else if chars_eq(t.as_slice(), document.as_slice()) {
        let mut v = chars_of("[文件: ");
        let mut f = match filename {
            Some(f) => chars_of(f.as_str()),
            None => chars_of("unknown"),
        };
        let mut tail = chars_of("，已下载到本地，可用 read_file 读取]");
        v.append(&mut f);
        v.append(&mut tail);
        string_from_chars(v.as_slice())
    } else {
        let mut v = chars_of("[");
        let mut m = copy_chars(t.as_slice());
        let mut tail = chars_of("，已下载到本地]");
        v.append(&mut m);
        v.append(&mut tail);
        string_from_chars(v.as_slice())
    }
}

fn dedup_key(m: &BridgeMessage, now_ms: i64) -> (r: String)
    ensures
        r@ == dedup_key_spec(*m, now_ms),
{
    match &m.id {
        Some(id) => {
            let mut v = chars_of("id:");
            let mut i = chars_of(id.as_str());
            v.append(&mut i);
            string_from_chars(v.as_slice())
        },
        None => {
            let mut v = chars_of("fallback:");
            let mut s = match &m.sender {
                Some(s) => chars_of(s.as_str()),
                None => Vec::new(),
            };
            let ts = match m.timestamp {
                Some(t) => t,
                None => now_ms,
            };
            let mut colon1 = chars_of(":");
            let mut t = i64_decimal_chars(ts);
            let mut colon2 = chars_of(":");
            let mut c = match &m.content {
                Some(c) => chars_of(c.as_str()),
                None => Vec::new(),
            };
            v.append(&mut s);
            v.append(&mut colon1);
            v.append(&mut t);
            v.append(&mut colon2);
            v.append(&mut c);
            assert(v@ =~= dedup_key_spec(*m, now_ms));
            string_from_chars(v.as_slice())
        },
    }
}

/// Keys of recently delivered messages; past a thousand, the oldest hundred
/// are forgotten.
pub struct SeenMessages {
    keys: RecentIds,
}

pub const SEEN_LIMIT: usize = 1000;

pub const SEEN_EVICT: usize = 100;

impl SeenMessages {
    pub closed spec fn keys(&self) -> Seq<Seq<char>> {
        self.keys@
    }

    pub closed spec fn wf(&self) -> bool {
        self.keys.wf() && self.keys@.len() <= SEEN_LIMIT
    }

    pub fn new() -> (s: Self)
        ensures
            s.wf(),
            s.keys().len() == 0,
    {
        SeenMessages { keys: RecentIds::new() }
    }

    /// Records a key; `false` if it was already recorded.
    pub fn insert(&mut self, key: &str) -> (fresh: bool)
        requires
            old(self).wf(),
        ensures
            final(self).wf(),
            fresh == !old(self).keys().contains(key@),
            !fresh ==> final(self).keys() == old(self).keys(),
            fresh ==> final(self).keys() == (if old(self).keys().len() + 1 > SEEN_LIMIT {
                old(self).keys().push(key@).skip(SEEN_EVICT as int)
            } else {
                old(self).keys().push(key@)
            }),
    {
        if self.keys.contains(key) {
            return false;
        }
        self.keys.push_new(key);
        if self.keys.len() > SEEN_LIMIT {
            self.keys.remove_oldest(SEEN_EVICT);
        }
        true
    }
}

/// What a bridge message of type `message` or `media` becomes.
pub open spec fn chat_message_outcome(
    seen: Seq<Seq<char>>,
    allow_from: Seq<Seq<char>>,
    m: BridgeMessage,
    now_ms: i64,
) -> bool {
    let sender = opt_chars(m.sender);
    let has_media = m.media_type is Some && m.media_data is Some;
    sender.len() > 0 && whatsapp_allowed_spec(allow_from, sender) && (opt_chars(m.content).len() > 0
        || has_media) && !seen.contains(dedup_key_spec(m, now_ms))
}

/// A message whose key is already remembered (as it is once the message was
/// delivered) is not delivered again.
pub proof fn lemma_repeat_is_ignored(
    seen: Seq<Seq<char>>,
    allow_from: Seq<Seq<char>>,
    m: BridgeMessage,
    now_ms: i64,
)
    requires
        seen.contains(dedup_key_spec(m, now_ms)),
    ensures
        !chat_message_outcome(seen, allow_from, m, now_ms),
{
}

/// Messages with different ids have different keys, whatever else they
/// carry.
pub proof fn lemma_distinct_ids_distinct_keys(m1: BridgeMessage, m2: BridgeMessage, now1: i64, now2: i64)
    requires
        m1.id matches Some(a) && m2.id matches Some(b) && a@ != b@,
    ensures
        dedup_key_spec(m1, now1) != dedup_key_spec(m2, now2),
{
    let k1 = dedup_key_spec(m1, now1);
    let k2 = dedup_key_spec(m2, now2);
    reveal_strlit("id:");
    if k1 == k2 {
        assert(k1.skip(3) =~= m1.id->0@);
        assert(k2.skip(3) =~= m2.id->0@);
    }
}

/// Remembering one message does not stop another message with a different
/// id: it is delivered after the first exactly as it would have been before.
pub proof fn lemma_other_id_still_delivered(
    seen: Seq<Seq<char>>,
    allow_from: Seq<Seq<char>>,
    m1: BridgeMessage,
    m2: BridgeMessage,
    now1: i64,
    now2: i64,
)
    requires
        m1.id matches Some(a) && m2.id matches Some(b) && a@ != b@,
    ensures
        chat_message_outcome(seen.push(dedup_key_spec(m1, now1)), allow_from, m2, now2)
            == chat_message_outcome(seen, allow_from, m2, now2),
{
    lemma_distinct_ids_distinct_keys(m1, m2, now1, now2);
    let k1 = dedup_key_spec(m1, now1);
    let k2 = dedup_key_spec(m2, now2);
    let s2 = seen.push(k1);
    if s2.contains(k2) {
        let j = choose|j: int| 0 <= j < s2.len() && s2[j] == k2;
        if j < seen.len() {
            assert(seen[j] == k2);
        }
    }
    if seen.contains(k2) {
        let j = choose|j: int| 0 <= j < seen.len() && seen[j] == k2;
        assert(s2[j] == k2);
    }
}

/// Handles one bridge message. `now_ms` stands in for a missing timestamp.
pub fn handle_bridge_message(
    seen: &mut SeenMessages,
    allow_from: &[String],
    m: &BridgeMessage,
    now_ms: i64,
) -> (a: BridgeAction)
    requires
        old(seen).wf(),
    ensures
        final(seen).wf(),
        (m.msg_type@ == "message"@ || m.msg_type@ == "media"@) ==> {
            &&& (a is Deliver <==> chat_message_outcome(
                old(seen).keys(),
                allow_from@.map_values(|s: String| s@),
                *m,
                now_ms,
            ))
            &&& (a is Deliver || a is Ignore)
            &&& a matches BridgeAction::Deliver { inbound, media } ==> {
                &&& inbound.sender_id@ == opt_chars(m.sender)
                &&& inbound.chat_id@ == opt_chars(m.sender)
                &&& inbound.content@ == (if opt_chars(m.content).len() > 0 {
                    opt_chars(m.content)
                } else {
                    media_placeholder(opt_chars(m.media_type), m.media_filename)
                })
                &&& inbound.message_id == m.id
                &&& inbound.is_group == (match m.is_group {
                    Some(g) => g,
                    None => false,
                })
                &&& inbound.media_type == m.media_type
                &&& inbound.timestamp_ms == (match m.timestamp {
                    Some(t) => t,
                    None => now_ms,
                })
                &&& (media is Some <==> (m.media_type is Some && m.media_data is Some))
                &&& media matches Some(md) ==> (Some(md.media_type) == m.media_type && Some(md.data)
                    == m.media_data && md.filename == m.media_filename && md.mime == m.mime_type)
                &&& final(seen).keys().contains(dedup_key_spec(*m, now_ms))
            }
        },
        !(m.msg_type@ == "message"@ || m.msg_type@ == "media"@) ==> {
            &&& final(seen).keys() == old(seen).keys()
            &&& (if m.msg_type@ == "status"@ {
                a == BridgeAction::Status { status: m.status }
            } else if m.msg_type@ == "qr"@ {
                a == BridgeAction::Qr { qr: m.qr }
            } else if m.msg_type@ == "error"@ {
                a == BridgeAction::BridgeError { error: m.error }
            } else {
                a matches BridgeAction::Unknown { msg_type } && msg_type@ == m.msg_type@
            })
        },
{
    let t = chars_of(m.msg_type.as_str());
    let message = chars_of("message");
    let media = chars_of("media");
    if chars_eq(t.as_slice(), message.as_slice()) || chars_eq(t.as_slice(), media.as_slice()) {
        let sender: String = match &m.sender {
            Some(s) => s.clone(),
            None => String::new(),
        };
        if sender.as_str().is_empty() {
            return BridgeAction::Ignore;
        }
        if !is_allowed(allow_from, sender.as_str()) {
            return BridgeAction::Ignore;
        }
        let content: String = match &m.content {
            Some(c) => c.clone(),
            None => String::new(),
        };
        let has_media = m.media_type.is_some() && m.media_data.is_some();
        if content.as_str().is_empty() && !has_media {
            return BridgeAction::Ignore;
        }
        let key = dedup_key(m, now_ms);
        if !seen.insert(key.as_str()) {
            return BridgeAction::Ignore;
        }
        proof {
            let k = old(seen).keys().push(key@);
            assert(k[k.len() - 1] == key@);
            if old(seen).keys().len() + 1 > SEEN_LIMIT {
                assert(k.skip(SEEN_EVICT as int)[k.len() - 1 - SEEN_EVICT] == key@);
            }
        }
        let media_to_save = match (&m.media_type, &m.media_data) {
            (Some(mt), Some(md)) => Some(
                MediaToSave {
                    media_type: mt.clone(),
                    data: md.clone(),
                    filename: m.media_filename.clone(),
                    mime: m.mime_type.clone(),
                },
            ),
            _ => None,
        };
        let text = if content.as_str().is_empty() {
            let mt: &str = match &m.media_type {
                Some(x) => x.as_str(),
                None => "media",
            };
            media_placeholder_exec(mt, &m.media_filename)
        } else {
            content
        };
        let inbound = WhatsAppInbound {
            sender_id: sender.clone(),
            chat_id: sender,
            content: text,
            message_id: m.id.clone(),
            is_group: match m.is_group {
                Some(g) => g,
                None => false,
            },
            media_type: m.media_type.clone(),
            timestamp_ms: match m.timestamp {
                Some(ts) => ts,
                None => now_ms,
            },
        };
        return BridgeAction::Deliver { inbound, media: media_to_save };
    }
    let status = chars_of("status");
    let qr = chars_of("qr");
    let error = chars_of("error");
    if chars_eq(t.as_slice(), status.as_slice()) {
        BridgeAction::Status { status: m.status.clone() }
    } else if chars_eq(t.as_slice(), qr.as_slice()) {
        BridgeAction::Qr { qr: m.qr.clone() }
    } else if chars_eq(t.as_slice(), error.as_slice()) {
        BridgeAction::BridgeError { error: m.error.clone() }
    } else {
        BridgeAction::Unknown { msg_type: m.msg_type.clone() }
    }
}

} // verus!

verus! {

/// The value of a standard base64 alphabet byte.
pub open spec fn b64_value(b: u8) -> Option<u8> {
    if 65 <= b <= 90 {
        Some((b - 65) as u8)
    } else if 97 <= b <= 122 {
        Some((b - 71) as u8)
    } else if 48 <= b <= 57 {
        Some((b + 4) as u8)
    } else if b == 43 {
        Some(62u8)
    } else if b == 47 {
        Some(63u8)
    } else {
        None
    }
}

/// The bytes one group of four characters decodes to; `=` in the third or
/// fourth place ends the group early.
pub open spec fn b64_group(g: Seq<u8>) -> Option<Seq<u8>> {
    let v2 = if g[2] == 61 {
        Some(0u8)
    } else {
        b64_value(g[2])
    };
    let v3 = if g[3] == 61 {
        Some(0u8)
    } else {
        b64_value(g[3])
    };
    if b64_value(g[0]) is Some && b64_value(g[1]) is Some && v2 is Some && v3 is Some {
        let b0 = b64_value(g[0])->0 as int;
        let b1 = b64_value(g[1])->0 as int;
        let b2 = v2->0 as int;
        let b3 = v3->0 as int;
        let first: Seq<u8> = seq![(b0 * 4 + b1 / 16) as u8];
        let second: Seq<u8> = if g[2] != 61 {
            seq![((b1 % 16) * 16 + b2 / 4) as u8]
        } else {
            seq![]
        };
        let third: Seq<u8> = if g[3] != 61 {
            seq![((b2 % 4) * 64 + b3) as u8]
        } else {
            seq![]
        };
        Some(first + second + third)
    } else {
        None
    }
}

/// Decodes whole groups of four; a shorter tail is ignored.
pub open spec fn b64_groups(b: Seq<u8>) -> Option<Seq<u8>>
    decreases b.len(),
{
    if b.len() < 4 {
        Some(seq![])
    } else {
        match b64_group(b.take(4)) {
            Some(head) => match b64_groups(b.skip(4)) {
                Some(tail) => Some(head + tail),
                None => None,
            },
            None => None,
        }
    }
}

/// The text decoded: trimmed, with line breaks removed.
pub open spec fn b64_input(data: Seq<char>) -> Seq<char> {
    trim_spec(data).filter(|c: char| c != '\n' && c != '\r')
}

/// What the channel's own base64 decoder gives for a text.
pub open spec fn base64_decode_spec(data: Seq<char>) -> Option<Seq<u8>> {
    b64_groups(vstd::utf8::encode_utf8(b64_input(data)))
}

fn b64_value_exec(b: u8) -> (r: Option<u8>)
    ensures
        r == b64_value(b),
{
    if 65 <= b && b <= 90 {
        Some(b - 65)
    } else if 97 <= b && b <= 122 {
        Some(b - 71)
    } else if 48 <= b && b <= 57 {
        Some(b + 4)
    } else if b == 43 {
        Some(62)
    } else if b == 47 {
        Some(63)
    } else {
        None
    }
}

fn decode_group(g0: u8, g1: u8, g2: u8, g3: u8) -> (r: Option<Vec<u8>>)
    ensures
        match b64_group(seq![g0, g1, g2, g3]) {
            Some(h) => r matches Some(v) && v@ == h,
            None => r is None,
        },
{
    let ghost g = seq![g0, g1, g2, g3];
    assert(g[0] == g0 && g[1] == g1 && g[2] == g2 && g[3] == g3);
    let b0 = match b64_value_exec(g0) {
        Some(v) => v,
        None => return None,
    };
    let b1 = match b64_value_exec(g1) {
        Some(v) => v,
        None => return None,
    };
    let b2 = if g2 == 61 {
        0u8
    } else {
        match b64_value_exec(g2) {
            Some(v) => v,
            None => return None,
        }
    };
    let b3 = if g3 == 61 {
        0u8
    } else {
        match b64_value_exec(g3) {
            Some(v) => v,
            None => return None,
        }
    };
    let mut out: Vec<u8> = Vec::new();
    out.push(b0 * 4 + b1 / 16);
    if g2 != 61 {
        out.push((b1 % 16) * 16 + b2 / 4);
    }
    if g3 != 61 {
        out.push((b2 % 4) * 64 + b3);
    }
    assert(out@ =~= b64_group(g)->0);
    Some(out)
}

proof fn lemma_b64_groups_step(b: Seq<u8>, i: int)
    requires
        0 <= i,
        i + 4 <= b.len(),
    ensures
        b64_groups(b.skip(i)) == (match b64_group(b.subrange(i, i + 4)) {
            Some(head) => match b64_groups(b.skip(i + 4)) {
                Some(tail) => Some(head + tail),
                None => None,
            },
            None => None,
        }),
{
    assert(b.skip(i).take(4) =~= b.subrange(i, i + 4));
    assert(b.skip(i).skip(4) =~= b.skip(i + 4));
}

/// The channel's base64 decoder: `Err` on a character outside the alphabet.
pub fn base64_decode(data: &str) -> (r: Result<Vec<u8>, String>)
    ensures
        match base64_decode_spec(data@) {
            Some(bytes) => r matches Ok(v) && v@ == bytes,
            None => r matches Err(e) && e@ == "invalid base64 char"@,
        },
{
    let trimmed = trim_str(data);
    let mut kept: Vec<char> = Vec::new();
    let mut k: usize = 0;
    while k < trimmed.len()
        invariant
            k <= trimmed.len(),
            kept@ == trimmed@.take(k as int).filter(|c: char| c != '\n' && c != '\r'),
        decreases trimmed.len() - k,
    {
        let c = trimmed[k];
        proof {
            assert(trimmed@.take(k + 1) =~= trimmed@.take(k as int).push(c));
            crate::text::lemma_filter_push(
                trimmed@.take(k as int),
                |c: char| c != '\n' && c != '\r',
                c,
            );
        }
        if c != '\n' && c != '\r' {
            kept.push(c);
        }
        k = k + 1;
    }
    assert(trimmed@.take(trimmed.len() as int) =~= trimmed@);
    let text = string_from_chars(kept.as_slice());
    let bytes = text.as_str().as_bytes();
    let ghost b = bytes@;
    assert(b == vstd::utf8::encode_utf8(b64_input(data@)));
    let mut out: Vec<u8> = Vec::new();
    let mut i: usize = 0;
    proof {
        assert(b.skip(0) =~= b);
        match b64_groups(b) {
            Some(tail) => {
                assert(out@ + tail =~= tail);
            },
            None => {},
        }
    }
    while i < bytes.len() && bytes.len() - i > 3
        invariant
            b == bytes@,
            i <= bytes.len(),
            base64_decode_spec(data@) == (match b64_groups(b.skip(i as int)) {
                Some(tail) => Some(out@ + tail),
                None => None,
            }),
        decreases bytes.len() - i,
    {
        proof {
            lemma_b64_groups_step(b, i as int);
        }
        let ghost g = b.subrange(i as int, i + 4);
        let head = match decode_group(bytes[i], bytes[i + 1], bytes[i + 2], bytes[i + 3]) {
            Some(h) => h,
            None => {
                proof {
                    assert(g =~= seq![b[i as int], b[i + 1], b[i + 2], b[i + 3]]);
                }
                return Err("invalid base64 char".to_owned());
            },
        };
        proof {
            assert(g =~= seq![b[i as int], b[i + 1], b[i + 2], b[i + 3]]);
        }
        let ghost before = out@;
        let mut h = head;
        out.append(&mut h);
        proof {
            match b64_groups(b.skip(i + 4)) {
                Some(tail) => {
                    assert(before + (b64_group(g)->0 + tail) =~= out@ + tail);
                },
                None => {},
            }
        }
        i = i + 4;
    }
    proof {
        assert(b.skip(i as int).len() < 4);
        assert(out@ + Seq::<u8>::empty() =~= out@);
    }
    Ok(out)
}

/// A character that standard base64 text is made of: the alphabet and `=`.
spec fn is_b64_text_char(c: char) -> bool {
    let u = c as u32;
    u == 43 || u == 47 || (48 <= u <= 57) || u == 61 || (65 <= u <= 90) || (97 <= u <= 122)
}

proof fn lemma_b64_digit(v: int)
    requires
        0 <= v < 64,
    ensures
        is_b64_text_char(b64_digit(v)),
        b64_digit(v) as u8 != 61,
        b64_value(b64_digit(v) as u8) == Some(v as u8),
{
}

proof fn lemma_base64_std_chars(b: Seq<u8>)
    ensures
        forall|i: int| 0 <= i < base64_std(b).len() ==> is_b64_text_char(#[trigger] base64_std(b)[i]),
        base64_std(b).len() % 4 == 0,
    decreases b.len(),
{
    if b.len() > 0 {
        let x0 = b[0] as int;
        let x1 = if b.len() > 1 { b[1] as int } else { 0 };
        let x2 = if b.len() > 2 { b[2] as int } else { 0 };
        lemma_b64_digit(x0 / 4);
        lemma_b64_digit((x0 % 4) * 16 + x1 / 16);
        lemma_b64_digit((x1 % 16) * 4 + x2 / 64);
        lemma_b64_digit(x2 % 64);
        if b.len() > 3 {
            lemma_base64_std_chars(b.skip(3));
        }
        let s = base64_std(b);
        assert forall|i: int| 0 <= i < s.len() implies is_b64_text_char(#[trigger] s[i]) by {
            if i >= 4 {
                assert(s[i] == base64_std(b.skip(3))[i - 4]);
            }
        }
    }
}

/// One group of four characters of the encoding decodes to the one to three
/// bytes it encodes.
proof fn lemma_b64_group_round_trip(b: Seq<u8>)
    requires
        b.len() > 0,
    ensures
        b64_group(base64_std(b).take(4).map_values(|c: char| c as u8)) == Some(
            b.take(if b.len() < 3 { b.len() as int } else { 3 }),
        ),
{
    let x0 = b[0] as int;
    let x1 = if b.len() > 1 { b[1] as int } else { 0 };
    let x2 = if b.len() > 2 { b[2] as int } else { 0 };
    let v0 = x0 / 4;
    let v1 = (x0 % 4) * 16 + x1 / 16;
    let v2 = (x1 % 16) * 4 + x2 / 64;
    let v3 = x2 % 64;
    lemma_b64_digit(v0);
    lemma_b64_digit(v1);
    lemma_b64_digit(v2);
    lemma_b64_digit(v3);
    let g = base64_std(b).take(4).map_values(|c: char| c as u8);
    assert(g[0] == b64_digit(v0) as u8);
    assert(g[1] == b64_digit(v1) as u8);
    assert(v0 * 4 + v1 / 16 == x0);
    assert(b64_group(g) matches Some(h) && h[0] == x0 as u8);
    if b.len() > 1 {
        assert(g[2] == b64_digit(v2) as u8);
        assert((v1 % 16) * 16 + v2 / 4 == x1);
    } else {
        assert(g[2] == 61);
    }
    if b.len() > 2 {
        assert(g[3] == b64_digit(v3) as u8);
        assert((v2 % 4) * 64 + v3 == x2);
    } else {
        assert(g[3] == 61);
    }
    assert(b64_group(g)->0 =~= b.take(if b.len() < 3 { b.len() as int } else { 3 }));
}

proof fn lemma_b64_groups_round_trip(b: Seq<u8>)
    ensures
        b64_groups(base64_std(b).map_values(|c: char| c as u8)) == Some(b),
    decreases b.len(),
{
    let s = base64_std(b);
    let e = s.map_values(|c: char| c as u8);
    if b.len() == 0 {
        assert(b =~= Seq::<u8>::empty());
    } else {
        lemma_b64_group_round_trip(b);
        let rest: Seq<char> = if b.len() > 3 { base64_std(b.skip(3)) } else { seq![] };
        assert(s.len() == 4 + rest.len());
        assert(e.take(4) =~= s.take(4).map_values(|c: char| c as u8));
        let head = b64_group(e.take(4))->0;
        let n: int = if b.len() < 3 { b.len() as int } else { 3 };
        if b.len() > 3 {
            lemma_b64_groups_round_trip(b.skip(3));
            assert(e.skip(4) =~= base64_std(b.skip(3)).map_values(|c: char| c as u8));
            assert(b.take(3) + b.skip(3) =~= b);
            assert(b64_groups(e) == Some(head + b.skip(3)));
        } else {
            assert(e.skip(4).len() == 0);
            assert(b.take(n) =~= b);
            assert(b.take(n) + Seq::<u8>::empty() =~= b);
            assert(b64_groups(e.skip(4)) == Some(Seq::<u8>::empty()));
            assert(b64_groups(e) == Some(head + Seq::<u8>::empty()));
        }
    }
}

proof fn lemma_filter_keeps_all(s: Seq<char>)
    requires
        forall|i: int| 0 <= i < s.len() ==> is_b64_text_char(#[trigger] s[i]),
    ensures
        s.filter(|c: char| c != '\n' && c != '\r') == s,
    decreases s.len(),
{
    if s.len() > 0 {
        let p = s.drop_last();
        lemma_filter_keeps_all(p);
        crate::text::lemma_filter_push(p, |c: char| c != '\n' && c != '\r', s.last());
        assert(is_b64_text_char(s[s.len() - 1]));
        assert(p.push(s.last()) =~= s);
    } else {
        assert(s.filter(|c: char| c != '\n' && c != '\r') =~= s) by {
            reveal(Seq::filter);
        }
    }
}

proof fn lemma_b64_text_char_ascii(c: char)
    requires
        is_b64_text_char(c),
    ensures
        '\0' <= c <= '\u{7f}',
        !crate::text::is_ws(c),
        c != '\n' && c != '\r',
{
}

/// Decoding the standard base64 encoding (with padding) of any bytes gives
/// those bytes back, also with whitespace before and after the text.
pub proof fn lemma_base64_round_trip_padded(b: Seq<u8>, pre: Seq<char>, post: Seq<char>)
    requires
        forall|i: int| 0 <= i < pre.len() ==> crate::text::is_ws(#[trigger] pre[i]),
        forall|i: int| 0 <= i < post.len() ==> crate::text::is_ws(#[trigger] post[i]),
    ensures
        base64_decode_spec(pre + base64_std(b) + post) == Some(b),
{
    let s = base64_std(b);
    let t = pre + s + post;
    lemma_base64_std_chars(b);
    assert(trim_spec(t) == s) by {
        if s.len() > 0 {
            lemma_b64_text_char_ascii(s[0]);
            lemma_b64_text_char_ascii(s.last());
            assert forall|j: int| 0 <= j < pre.len() implies crate::text::is_ws(#[trigger] t[j]) by {
                assert(t[j] == pre[j]);
            }
            assert(t[pre.len() as int] == s[0]);
            crate::text::lemma_lead_ws_exact(t, pre.len() as int);
            assert forall|j: int| t.len() - post.len() <= j < t.len() implies crate::text::is_ws(#[trigger] t[j]) by {
                assert(t[j] == post[j - pre.len() - s.len()]);
            }
            assert(t[t.len() - 1 - post.len()] == s.last());
            crate::text::lemma_trail_ws_exact(t, post.len() as int);
            assert(t.subrange(pre.len() as int, t.len() - post.len()) =~= s);
        } else {
            assert forall|j: int| 0 <= j < t.len() implies crate::text::is_ws(#[trigger] t[j]) by {
                if j < pre.len() {
                    assert(t[j] == pre[j]);
                } else {
                    assert(t[j] == post[j - pre.len()]);
                }
            }
            crate::text::lemma_lead_ws_exact(t, t.len() as int);
            assert(s =~= Seq::<char>::empty());
        }
    }
    lemma_filter_keeps_all(s);
    lemma_decode_std(b, t);
}

/// A text whose decoder input is the standard encoding of `b` decodes to `b`.
proof fn lemma_decode_std(b: Seq<u8>, data: Seq<char>)
    requires
        b64_input(data) == base64_std(b),
    ensures
        base64_decode_spec(data) == Some(b),
{
    let s = base64_std(b);
    lemma_base64_std_chars(b);
    assert forall|i: int| 0 <= i < s.len() implies '\0' <= #[trigger] s[i] <= '\u{7f}' by {
        lemma_b64_text_char_ascii(s[i]);
    }
    assert(vstd::utf8::is_ascii_chars(s));
    vstd::utf8::is_ascii_chars_encode_utf8(s);
    assert(vstd::utf8::encode_utf8(s) =~= s.map_values(|c: char| c as u8));
    lemma_b64_groups_round_trip(b);
}

proof fn lemma_filter_drops_all(x: Seq<char>)
    requires
        forall|i: int| 0 <= i < x.len() ==> (#[trigger] x[i] == '\n' || x[i] == '\r'),
    ensures
        x.filter(|c: char| c != '\n' && c != '\r') =~= Seq::<char>::empty(),
    decreases x.len(),
{
    if x.len() > 0 {
        let p = x.drop_last();
        lemma_filter_drops_all(p);
        crate::text::lemma_filter_push(p, |c: char| c != '\n' && c != '\r', x.last());
        assert(x[x.len() - 1] == '\n' || x[x.len() - 1] == '\r');
        assert(p.push(x.last()) =~= x);
    } else {
        assert(x.filter(|c: char| c != '\n' && c != '\r') =~= Seq::<char>::empty()) by {
            reveal(Seq::filter);
        }
    }
}

/// Decoding gives the bytes of the standard base64 encoding back whatever
/// whitespace stands around the text and wherever line breaks (`\n`, `\r`)
/// are inserted into it.
pub proof fn lemma_base64_round_trip_lines(b: Seq<u8>, pre: Seq<char>, mid: Seq<char>, post: Seq<char>)
    requires
        forall|i: int| 0 <= i < pre.len() ==> crate::text::is_ws(#[trigger] pre[i]),
        forall|i: int| 0 <= i < post.len() ==> crate::text::is_ws(#[trigger] post[i]),
        mid.filter(|c: char| c != '\n' && c != '\r') == base64_std(b),
    ensures
        base64_decode_spec(pre + mid + post) == Some(b),
{
    let s = base64_std(b);
    let t = pre + mid + post;
    let np = |c: char| c != '\n' && c != '\r';
    lemma_base64_std_chars(b);
    // every character of `mid` is one of the encoding's or a line break
    assert forall|i: int| 0 <= i < mid.len() implies is_b64_text_char(#[trigger] mid[i]) || mid[i] == '\n'
        || mid[i] == '\r' by {
        if np(mid[i]) {
            mid.lemma_filter_contains(np, i);
            let j = choose|j: int| 0 <= j < s.len() && s[j] == mid[i];
            assert(is_b64_text_char(s[j]));
        }
    }
    assert forall|i: int| 0 <= i < t.len() && !(pre.len() <= i < pre.len() + mid.len()) implies crate::text::is_ws(
        #[trigger] t[i],
    ) by {
        if i < pre.len() {
            assert(t[i] == pre[i]);
        } else {
            assert(t[i] == post[i - pre.len() - mid.len()]);
        }
    }
    crate::text::lemma_lead_ws_bound(t);
    crate::text::lemma_trail_ws_bound(t);
    crate::text::lemma_trim_is_subrange(t);
    let tr = trim_spec(t);
    let a = crate::text::lead_ws(t) as int;
    if s.len() == 0 {
        // only line breaks between the whitespace: the whole text is whitespace
        assert forall|j: int| 0 <= j < t.len() implies crate::text::is_ws(#[trigger] t[j]) by {
            if pre.len() <= j < pre.len() + mid.len() {
                assert(t[j] == mid[j - pre.len()]);
                if np(mid[j - pre.len()]) {
                    mid.lemma_filter_contains(np, j - pre.len());
                }
                lemma_line_break_ws(mid[j - pre.len()]);
            }
        }
        crate::text::lemma_lead_ws_exact(t, t.len() as int);
        assert(tr =~= Seq::<char>::empty());
        assert(tr.filter(np) =~= Seq::<char>::empty()) by {
            reveal(Seq::filter);
        }
    } else {
        // some character of `mid` is not whitespace
        assert(s[0] == mid.filter(np)[0]);
        lemma_filter_subset(mid, np, 0);
        let k = choose|k: int| 0 <= k < mid.len() && mid[k] == s[0];
        lemma_b64_text_char_ascii(s[0]);
        assert(t[pre.len() + k] == mid[k]);
        let e = t.len() - crate::text::trail_ws(t);
        // where the trimmed text starts and ends
        assert(pre.len() <= a <= pre.len() + k) by {
            if a < pre.len() {
                assert(t[a] == pre[a]);
            }
        }
        assert(pre.len() + k < e <= pre.len() + mid.len()) by {
            if e > pre.len() + mid.len() {
                assert(t[e - 1] == post[e - 1 - pre.len() - mid.len()]);
            }
        }
        let a2 = a - pre.len();
        let e2 = e - pre.len();
        assert(tr =~= mid.subrange(a2, e2));
        let head = mid.subrange(0, a2);
        let tail = mid.subrange(e2, mid.len() as int);
        assert forall|j: int| 0 <= j < head.len() implies (#[trigger] head[j] == '\n' || head[j] == '\r') by {
            assert(head[j] == mid[j] && t[pre.len() + j] == mid[j]);
            assert(crate::text::is_ws(t[pre.len() + j]));
            lemma_b64_text_char_or_break_ws(mid[j]);
        }
        assert forall|j: int| 0 <= j < tail.len() implies (#[trigger] tail[j] == '\n' || tail[j] == '\r') by {
            assert(tail[j] == mid[e2 + j] && t[e + j] == mid[e2 + j]);
            assert(crate::text::is_ws(t[e + j]));
            lemma_b64_text_char_or_break_ws(mid[e2 + j]);
        }
        lemma_filter_drops_all(head);
        lemma_filter_drops_all(tail);
        assert(mid =~= head + tr + tail);
        Seq::filter_distributes_over_add(head + tr, tail, np);
        Seq::filter_distributes_over_add(head, tr, np);
        assert(tr.filter(np) =~= s);
    }
    assert(b64_input(t) == s);
    lemma_decode_std(b, t);
}

proof fn lemma_line_break_ws(c: char)
    requires
        c == '\n' || c == '\r',
    ensures
        crate::text::is_ws(c),
{
}

proof fn lemma_b64_text_char_or_break_ws(c: char)
    requires
        is_b64_text_char(c) || c == '\n' || c == '\r',
        crate::text::is_ws(c),
    ensures
        c == '\n' || c == '\r',
{
}

/// Each kept character comes from the text.
proof fn lemma_filter_subset(x: Seq<char>, pred: spec_fn(char) -> bool, i: int)
    requires
        0 <= i < x.filter(pred).len(),
    ensures
        exists|k: int| 0 <= k < x.len() && x[k] == x.filter(pred)[i],
    decreases x.len(),
{
    reveal(Seq::filter);
    let p = x.drop_last();
    if pred(x.last()) && i == x.filter(pred).len() - 1 {
        assert(x[x.len() - 1] == x.filter(pred)[i]);
    } else {
        assert(x.filter(pred)[i] == p.filter(pred)[i]);
        lemma_filter_subset(p, pred, i);
        let k = choose|k: int| 0 <= k < p.len() && p[k] == p.filter(pred)[i];
        assert(x[k] == p[k]);
    }
}

/// Decoding the standard base64 encoding (with padding) of any bytes gives
/// those bytes back.
pub proof fn lemma_base64_round_trip(b: Seq<u8>)
    ensures
        base64_decode_spec(base64_std(b)) == Some(b),
{
    lemma_base64_round_trip_padded(b, seq![], seq![]);
    assert(Seq::<char>::empty() + base64_std(b) + Seq::<char>::empty() =~= base64_std(b));
}

/// The file extension a MIME type is saved with.
pub open spec fn mime_ext_spec(mime: Seq<char>) -> Option<Seq<char>> {
    if mime == "image/jpeg"@ || mime == "image/jpg"@ {
        Some("jpg"@)
    } else if mime == "image/png"@ {
        Some("png"@)
    } else if mime == "image/gif"@ {
        Some("gif"@)
    } else if mime == "image/webp"@ {
        Some("webp"@)
    } else if mime == "audio/ogg"@ || mime == "audio/ogg; codecs=opus"@ {
        Some("ogg"@)
    } else if mime == "audio/mpeg"@ || mime == "audio/mp3"@ {
        Some("mp3"@)
    } else if mime == "audio/mp4"@ {
        Some("m4a"@)
    } else if mime == "video/mp4"@ {
        Some("mp4"@)
    } else if mime == "video/webm"@ {
        Some("webm"@)
    } else if mime == "application/pdf"@ {
        Some("pdf"@)
    } else {
        None
    }
}

fn str_is(v: &[char], s: &str) -> (r: bool)
    ensures
        r == (v@ == s@),
{
    let w = chars_of(s);
    chars_eq(v, w.as_slice())
}

pub fn mime_to_ext(mime: &str) -> (r: Option<&'static str>)
    ensures
        match mime_ext_spec(mime@) {
            Some(e) => r matches Some(x) && x@ == e,
            None => r is None,
        },
{
    let m = chars_of(mime);
    let v = m.as_slice();
    if str_is(v, "image/jpeg") || str_is(v, "image/jpg") {
        Some("jpg")
    } else if str_is(v, "image/png") {
        Some("png")
    } else if str_is(v, "image/gif") {
        Some("gif")
    } else if str_is(v, "image/webp") {
        Some("webp")
    } else if str_is(v, "audio/ogg") || str_is(v, "audio/ogg; codecs=opus") {
        Some("ogg")
    } else if str_is(v, "audio/mpeg") || str_is(v, "audio/mp3") {
        Some("mp3")
    } else if str_is(v, "audio/mp4") {
        Some("m4a")
    } else if str_is(v, "video/mp4") {
        Some("mp4")
    } else if str_is(v, "video/webm") {
        Some("webm")
    } else if str_is(v, "application/pdf") {
        Some("pdf")
    } else {
        None
    }
}

} // verus!

verus! {

/// The last `.`-separated segment of a file name (`rsplit('.').next()`).
pub open spec fn last_segment(name: Seq<char>) -> Seq<char> {
    match split_last(name, '.') {
        Some((_, after)) => after,
        None => name,
    }
}

/// The segment before the last one (`rsplit('.').nth(1)`), if there is one.
pub open spec fn second_last_segment(name: Seq<char>) -> Option<Seq<char>> {
    match split_last(name, '.') {
        Some((before, _)) => Some(last_segment(before)),
        None => None,
    }
}

/// The extension used when neither the file name nor the MIME type gives one.
pub open spec fn default_ext(media_type: Seq<char>) -> Seq<char> {
    if media_type == "image"@ {
        "jpg"@
    } else if media_type == "audio"@ || media_type == "ptt"@ {
        "ogg"@
    } else if media_type == "video"@ {
        "mp4"@
    } else {
        "bin"@
    }
}

/// `<stem>_<time>.<ext>`: the stem and extension from the file name when there
/// is one, else `whatsapp_<type>` and the MIME type's or the type's extension.
pub open spec fn media_file_name_spec(
    media_type: Seq<char>,
    filename: Option<Seq<char>>,
    mime: Option<Seq<char>>,
    now_ms: i64,
) -> Seq<char> {
    let ext = match filename {
        Some(n) => last_segment(n),
        None => match mime_ext_spec(
            match mime {
                Some(m) => m,
                None => seq![],
            },
        ) {
            Some(e) => e,
            None => default_ext(media_type),
        },
    };
    let stem = match filename {
        Some(n) => match second_last_segment(n) {
            Some(s) => s,
            None => n,
        },
        None => "whatsapp_"@ + media_type,
    };
    stem + "_"@ + signed_decimal_spec(now_ms as int) + "."@ + ext
}

fn last_segment_chars(name: &[char]) -> (r: Vec<char>)
    ensures
        r@ == last_segment(name@),
{
    match find_last_char(name, '.') {
        Some(i) => {
            assert(i < name.len());
            slice_chars(name, i + 1, name.len())
        },
        None => copy_chars(name),
    }
}

/// The file name saved media gets; `now_ms` is the time it is saved at.
pub fn media_file_name(
    media_type: &str,
    filename: Option<&str>,
    mime: Option<&str>,
    now_ms: i64,
) -> (r: String)
    ensures
        r@ == media_file_name_spec(
            media_type@,
            match filename {
                Some(f) => Some(f@),
                None => None,
            },
            match mime {
                Some(m) => Some(m@),
                None => None,
            },
            now_ms,
        ),
{
    let mt = chars_of(media_type);
    let mut ext: Vec<char> = match filename {
        Some(n) => {
            let nv = chars_of(n);
            last_segment_chars(nv.as_slice())
        },
        None => {
            let m: &str = match mime {
                Some(m) => m,
                None => "",
            };
            proof {
                reveal_strlit("");
                assert(m@ =~= (match mime {
                    Some(x) => x@,
                    None => seq![],
                }));
            }
            match mime_to_ext(m) {
                Some(e) => chars_of(e),
                None => {
                    let v = mt.as_slice();
                    if str_is(v, "image") {
                        chars_of("jpg")
                    } else if str_is(v, "audio") || str_is(v, "ptt") {
                        chars_of("ogg")
                    } else if str_is(v, "video") {
                        chars_of("mp4")
                    } else {
                        chars_of("bin")
                    }
                },
            }
        },
    };
    let mut stem: Vec<char> = match filename {
        Some(n) => {
            let nv = chars_of(n);
            match find_last_char(nv.as_slice(), '.') {
                Some(i) => {
                    let before = slice_chars(nv.as_slice(), 0, i);
                    last_segment_chars(before.as_slice())
                },
                None => nv,
            }
        },
        None => {
            let mut v = chars_of("whatsapp_");
            let mut m = copy_chars(mt.as_slice());
            v.append(&mut m);
            v
        },
    };
    let mut underscore = chars_of("_");
    let mut ts = i64_decimal_chars(now_ms);
    let mut dot = chars_of(".");
    stem.append(&mut underscore);
    stem.append(&mut ts);
    stem.append(&mut dot);
    stem.append(&mut ext);
    string_from_chars(stem.as_slice())
}

} // verus!
