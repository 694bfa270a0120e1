//! The command-line front end's decisions: channel owners, the Weixin QR
//! login loop, and the doctor's report lines and verdict.

use vstd::prelude::*;

use crate::agent::{truncate_chars, truncate_chars_spec};
use crate::numbers::{decimal_chars, decimal_spec};
use crate::text::{
    chars_eq, chars_of, copy_string, str_concat, str_lines, str_lines_exec, string_from_chars, trim_chars,
    trim_spec, trim_str,
};

verus! {

/// The channels an owner agent can be set for.
pub open spec fn owner_channel(k: int) -> Seq<char> {
    if k == 0 {
        "telegram"@
    } else if k == 1 {
        "whatsapp"@
    } else if k == 2 {
        "feishu"@
    } else if k == 3 {
        "slack"@
    } else if k == 4 {
        "discord"@
    } else if k == 5 {
        "dingtalk"@
    } else if k == 6 {
        "wecom"@
    } else if k == 7 {
        "lark"@
    } else if k == 8 {
        "qq"@
    } else {
        "weixin"@
    }
}

fn owner_channel_exec(k: usize) -> (r: &'static str)
    requires
        k < 10,
    ensures
        r@ == owner_channel(k as int),
{
    if k == 0 {
        "telegram"
    } else if k == 1 {
        "whatsapp"
    } else if k == 2 {
        "feishu"
    } else if k == 3 {
        "slack"
    } else if k == 4 {
        "discord"
    } else if k == 5 {
        "dingtalk"
    } else if k == 6 {
        "wecom"
    } else if k == 7 {
        "lark"
    } else if k == 8 {
        "qq"
    } else {
        "weixin"
    }
}

/// Whether an owner can be set for a channel.
pub fn is_supported_owner_channel(channel: &str) -> (r: bool)
    ensures
        r == exists|k: int| 0 <= k < 10 && #[trigger] owner_channel(k) == channel@,
{
    let c = chars_of(channel);
    let mut k: usize = 0;
    while k < 10
        invariant
            k <= 10,
            c@ == channel@,
            forall|j: int| 0 <= j < k ==> #[trigger] owner_channel(j) != channel@,
        decreases 10 - k,
    {
        let name = chars_of(owner_channel_exec(k));
        if chars_eq(name.as_slice(), c.as_slice()) {
            return true;
        }
        k = k + 1;
    }
    false
}

/// The refusal for a channel no owner can be set for.
pub fn unsupported_channel_message(channel: &str) -> (r: String)
    ensures
        r@ == "Unsupported channel '"@ + channel@ + "'"@,
{
    let a = str_concat("Unsupported channel '", channel);
    str_concat(a.as_str(), "'")
}

/// The account an owner binding is for: the given account, trimmed, unless
/// it is blank (then the binding is for the whole channel).
pub fn owner_account(account: Option<&str>) -> (r: Option<String>)
    ensures
        match account {
            Some(a) => if trim_spec(a@).len() > 0 {
                r matches Some(s) && s@ == trim_spec(a@)
            } else {
                r is None
            },
            None => r is None,
        },
{
    match account {
        Some(a) => {
            let t = trim_str(a);
            if t.len() > 0 {
                Some(string_from_chars(t.as_slice()))
            } else {
                None
            }
        },
        None => None,
    }
}

} // verus!

verus! {

/// QR codes fetched before the Weixin login gives up.
pub const MAX_QR_REFRESHES: u32 = 3;

/// Seconds one QR code is polled for.
pub const QR_TIMEOUT_SECS: u64 = 300;

/// What the login loop learned on one poll.
#[derive(Debug, Clone)]
pub enum LoginEvent {
    /// The poll answered with this status and, maybe, a bot token.
    Status { status: String, bot_token: Option<String> },
    /// The QR code was polled for `QR_TIMEOUT_SECS` without an answer.
    TimedOut,
}

/// What the login loop does next.
#[derive(Debug, Clone)]
pub enum LoginAction {
    /// Show this line (if any), wait a second and poll again.
    Poll(Option<String>),
    /// Save this bot token: the login is done.
    Save(String),
    /// Show this line (if any) and fetch a new QR code.
    Refresh(Option<String>),
    /// Stop with this error.
    Fail(String),
}

pub open spec fn action_view(a: LoginAction) -> (int, Option<Seq<char>>) {
    match a {
        LoginAction::Poll(m) => (0, match m {
            Some(s) => Some(s@),
            None => None,
        }),
        LoginAction::Save(t) => (1, Some(t@)),
        LoginAction::Refresh(m) => (2, match m {
            Some(s) => Some(s@),
            None => None,
        }),
        LoginAction::Fail(e) => (3, Some(e@)),
    }
}

/// The step of the login loop after an event, with the refresh count before it.
pub open spec fn login_step_spec(refreshes: u32, e: LoginEvent) -> (u32, (int, Option<Seq<char>>)) {
    let refresh = |msg: Option<Seq<char>>| if refreshes + 1 >= MAX_QR_REFRESHES {
        ((refreshes + 1) as u32, (3int, Some("Weixin 二维码已过期次数过多，请稍后重试"@)))
    } else {
        ((refreshes + 1) as u32, (2int, msg))
    };
    match e {
        LoginEvent::TimedOut => refresh(Some("二维码已超时。\n"@)),
        LoginEvent::Status { status, bot_token } => if status@ == "wait"@ {
            (refreshes, (0, None))
        } else if status@ == "scaned"@ {
            (refreshes, (0, Some("已扫码，请在手机上确认登录..."@)))
        } else if status@ == "confirmed"@ {
            match bot_token {
                Some(t) => (refreshes, (1, Some(t@))),
                None => (refreshes, (3, Some("Weixin 登录成功，但响应里没有 bot_token"@))),
            }
        } else if status@ == "expired"@ {
            refresh(Some("二维码已过期，准备刷新..."@))
        } else {
            (refreshes, (0, Some("当前状态："@ + status@)))
        },
    }
}

fn is_str(a: &str, b: &str) -> (r: bool)
    ensures
        r == (a@ == b@),
{
    let x = chars_of(a);
    let y = chars_of(b);
    chars_eq(x.as_slice(), y.as_slice())
}

fn refresh_action(refreshes: u32, msg: Option<String>) -> (r: (u32, LoginAction))
    requires
        refreshes < MAX_QR_REFRESHES,
    ensures
        r.0 == refreshes + 1,
        action_view(r.1) == (if refreshes + 1 >= MAX_QR_REFRESHES {
            (3int, Some("Weixin 二维码已过期次数过多，请稍后重试"@))
        } else {
            (2int, match msg {
                Some(s) => Some(s@),
                None => None,
            })
        }),
{
    let n = refreshes + 1;
    if n >= MAX_QR_REFRESHES {
        (n, LoginAction::Fail("Weixin 二维码已过期次数过多，请稍后重试".to_owned()))
    } else {
        (n, LoginAction::Refresh(msg))
    }
}

/// One step of the Weixin QR login loop: the new refresh count and what to do.
pub fn login_step(refreshes: u32, e: LoginEvent) -> (r: (u32, LoginAction))
    requires
        refreshes < MAX_QR_REFRESHES,
    ensures
        (r.0, action_view(r.1)) == login_step_spec(refreshes, e),
        r.0 <= MAX_QR_REFRESHES,
        r.0 == MAX_QR_REFRESHES ==> action_view(r.1).0 == 3,
{
    match e {
        LoginEvent::TimedOut => refresh_action(refreshes, Some("二维码已超时。\n".to_owned())),
        LoginEvent::Status { status, bot_token } => {
            let s = status.as_str();
            if is_str(s, "wait") {
                (refreshes, LoginAction::Poll(None))
            } else if is_str(s, "scaned") {
                (refreshes, LoginAction::Poll(Some("已扫码，请在手机上确认登录...".to_owned())))
            } else if is_str(s, "confirmed") {
                match bot_token {
                    Some(t) => (refreshes, LoginAction::Save(t)),
                    None => (refreshes, LoginAction::Fail("Weixin 登录成功，但响应里没有 bot_token".to_owned())),
                }
            } else if is_str(s, "expired") {
                refresh_action(refreshes, Some("二维码已过期，准备刷新...".to_owned()))
            } else {
                (refreshes, LoginAction::Poll(Some(str_concat("当前状态：", s))))
            }
        },
    }
}

/// The login gives up on the third expired or timed-out QR code.
pub proof fn lemma_login_gives_up_on_third_refresh()
    ensures
        login_step_spec(0, LoginEvent::TimedOut).1.0 == 2,
        login_step_spec(1, LoginEvent::TimedOut).1.0 == 2,
        login_step_spec(2, LoginEvent::TimedOut).1.0 == 3,
{
}

} // verus!

verus! {

/// The doctor's counts of passed checks, warnings and errors.
pub struct DoctorTally {
    pub ok: u32,
    pub warn: u32,
    pub err: u32,
}

impl DoctorTally {
    pub fn new() -> (t: Self)
        ensures
            t.ok == 0 && t.warn == 0 && t.err == 0,
    {
        DoctorTally { ok: 0, warn: 0, err: 0 }
    }
}

/// A passed check: `  ✅ label`, with ` — detail` when there is one.
pub fn ok_line(label: &str, detail: &str) -> (r: String)
    ensures
        r@ == "  ✅ "@ + label@ + (if detail@.len() == 0 { Seq::<char>::empty() } else { " — "@ + detail@ }),
{
    report_line("  ✅ ", label, detail)
}

/// A warning: `  ⚠️  label`, with ` — hint` when there is one.
pub fn warn_line(label: &str, hint: &str) -> (r: String)
    ensures
        r@ == "  ⚠️  "@ + label@ + (if hint@.len() == 0 { Seq::<char>::empty() } else { " — "@ + hint@ }),
{
    report_line("  ⚠️  ", label, hint)
}

/// An error: `  ❌ label`, with ` — hint` when there is one.
pub fn err_line(label: &str, hint: &str) -> (r: String)
    ensures
        r@ == "  ❌ "@ + label@ + (if hint@.len() == 0 { Seq::<char>::empty() } else { " — "@ + hint@ }),
{
    report_line("  ❌ ", label, hint)
}

fn report_line(mark: &str, label: &str, extra: &str) -> (r: String)
    ensures
        r@ == mark@ + label@ + (if extra@.len() == 0 { Seq::<char>::empty() } else { " — "@ + extra@ }),
{
    let a = str_concat(mark, label);
    if extra.is_empty() {
        assert(a@ + Seq::<char>::empty() =~= a@);
        a
    } else {
        let b = str_concat(a.as_str(), " — ");
        str_concat(b.as_str(), extra)
    }
}

/// A text padded with spaces on the right to `width` characters (`{:<width}`).
pub open spec fn pad_right(s: Seq<char>, width: nat) -> Seq<char> {
    if s.len() >= width {
        s
    } else {
        s + Seq::new((width - s.len()) as nat, |i: int| ' ')
    }
}

fn pad_right_exec(s: &str, width: usize) -> (r: String)
    ensures
        r@ == pad_right(s@, width as nat),
{
    let mut v = chars_of(s);
    let ghost start = v@;
    let n = v.len();
    if n >= width {
        return string_from_chars(v.as_slice());
    }
    let mut k: usize = n;
    while k < width
        invariant
            n <= k <= width,
            n == start.len(),
            v@ == start + Seq::new((k - n) as nat, |i: int| ' '),
        decreases width - k,
    {
        v.push(' ');
        k = k + 1;
        assert(v@ =~= start + Seq::new((k - n) as nat, |i: int| ' '));
    }
    string_from_chars(v.as_slice())
}

/// The doctor's line for a channel: enabled, configured only, or neither.
pub fn channel_line(name: &str, enabled: bool, configured: bool) -> (r: String)
    ensures
        r@ == (if enabled && configured {
            "  ✅ "@ + pad_right(name@, 12) + " enabled"@
        } else if configured {
            "  ⚪ "@ + pad_right(name@, 12) + " configured (not enabled)"@
        } else {
            "  ⚪ "@ + pad_right(name@, 12) + " not configured"@
        }),
{
    let p = pad_right_exec(name, 12);
    if enabled && configured {
        let a = str_concat("  ✅ ", p.as_str());
        str_concat(a.as_str(), " enabled")
    } else if configured {
        let a = str_concat("  ⚪ ", p.as_str());
        str_concat(a.as_str(), " configured (not enabled)")
    } else {
        let a = str_concat("  ⚪ ", p.as_str());
        str_concat(a.as_str(), " not configured")
    }
}

/// The version a tool reports: the first line of its output, trimmed, cut
/// to 40 characters.
pub open spec fn version_summary_spec(stdout: Seq<char>) -> Seq<char> {
    let ls = str_lines(stdout);
    truncate_chars_spec(trim_spec(if ls.len() > 0 { ls[0] } else { Seq::<char>::empty() }), 40)
}

pub fn version_summary(stdout: &str) -> (r: String)
    ensures
        r@ == version_summary_spec(stdout@),
{
    let ls = str_lines_exec(stdout);
    let first: Vec<char> = if ls.len() > 0 {
        assert(ls@[0]@ == str_lines(stdout@)[0]);
        trim_chars(ls[0].as_slice())
    } else {
        let e: Vec<char> = Vec::new();
        assert(trim_spec(Seq::<char>::empty()) =~= Seq::<char>::empty());
        e
    };
    let s = string_from_chars(first.as_slice());
    truncate_chars(s.as_str(), 40)
}

/// The doctor's closing advice: errors to fix, optional features missing,
/// or all good.
pub fn doctor_verdict(err_count: u32, warn_count: u32) -> (r: String)
    ensures
        err_count > 0 ==> r@ == "  "@ + decimal_spec(err_count as nat) + " error(s) must be fixed before normal use."@,
        err_count == 0 && warn_count > 0 ==> r@ == "  Core features OK. Some optional features not ready."@,
        err_count == 0 && warn_count == 0 ==> r@ == "  🎉 All good!"@,
{
    if err_count > 0 {
        let d = string_from_chars(decimal_chars(err_count as u128).as_slice());
        let a = str_concat("  ", d.as_str());
        str_concat(a.as_str(), " error(s) must be fixed before normal use.")
    } else if warn_count > 0 {
        "  Core features OK. Some optional features not ready.".to_owned()
    } else {
        "  🎉 All good!".to_owned()
    }
}

/// The doctor's tally line.
pub fn tally_line(ok: u32, warn: u32, err: u32) -> (r: String)
    ensures
        r@ == "  ✅ "@ + decimal_spec(ok as nat) + " passed  ⚠️  "@ + decimal_spec(warn as nat) + " warnings  ❌ "@
            + decimal_spec(err as nat) + " errors"@,
{
    let o = string_from_chars(decimal_chars(ok as u128).as_slice());
    let w = string_from_chars(decimal_chars(warn as u128).as_slice());
    let e = string_from_chars(decimal_chars(err as u128).as_slice());
    let a = str_concat("  ✅ ", o.as_str());
    let b = str_concat(a.as_str(), " passed  ⚠️  ");
    let c = str_concat(b.as_str(), w.as_str());
    let d = str_concat(c.as_str(), " warnings  ❌ ");
    let f = str_concat(d.as_str(), e.as_str());
    str_concat(f.as_str(), " errors")
}

/// The doctor's detail for the memory database: its path and size in KB.
pub fn memory_db_detail(path: &str, size_bytes: u64) -> (r: String)
    ensures
        r@ == path@ + " ("@ + decimal_spec((size_bytes / 1024) as nat) + " KB)"@,
{
    let k = string_from_chars(decimal_chars((size_bytes / 1024) as u128).as_slice());
    let a = str_concat(path, " (");
    let b = str_concat(a.as_str(), k.as_str());
    str_concat(b.as_str(), " KB)")
}

/// A line of the cron job list: the id's first eight characters, the name
/// cut to twenty, whether it is enabled, its next run and its schedule, in
/// padded columns.
pub fn job_list_line(id: &str, name: &str, enabled: bool, next_run: &str, schedule: &str) -> (r: String)
    ensures
        r@ == pad_right(id@.take(if 8 < id@.len() { 8 } else { id@.len() as int }), 8) + " "@ + pad_right(
            crate::cron::truncate_spec(name@, 20),
            20,
        ) + " "@ + pad_right(if enabled { "yes"@ } else { "no"@ }, 10) + " "@ + pad_right(next_run@, 20) + " "@
            + schedule@,
{
    let short = crate::text::take_chars(id, 8);
    let c1 = pad_right_exec(short.as_str(), 8);
    let t = crate::cron::truncate(name, 20);
    let c2 = pad_right_exec(t.as_str(), 20);
    let c3 = pad_right_exec(if enabled { "yes" } else { "no" }, 10);
    let c4 = pad_right_exec(next_run, 20);
    let a = str_concat(c1.as_str(), " ");
    let b = str_concat(a.as_str(), c2.as_str());
    let c = str_concat(b.as_str(), " ");
    let d = str_concat(c.as_str(), c3.as_str());
    let e = str_concat(d.as_str(), " ");
    let f = str_concat(e.as_str(), c4.as_str());
    let g = str_concat(f.as_str(), " ");
    str_concat(g.as_str(), schedule)
}

/// The decimal digits of `n` with zeros in front up to `width` digits.
pub open spec fn zero_padded_spec(n: nat, width: nat) -> Seq<char> {
    let d = decimal_spec(n);
    if d.len() >= width {
        d
    } else {
        Seq::new((width - d.len()) as nat, |i: int| '0') + d
    }
}

fn zero_padded(n: u128, width: usize) -> (r: Vec<char>)
    ensures
        r@ == zero_padded_spec(n as nat, width as nat),
{
    let d = decimal_chars(n);
    if d.len() >= width {
        return d;
    }
    let mut out: Vec<char> = Vec::new();
    let pad = width - d.len();
    while out.len() < pad
        invariant
            out.len() <= pad,
            out@ == Seq::new(out.len() as nat, |i: int| '0'),
        decreases pad - out.len(),
    {
        out.push('0');
        assert(out@ =~= Seq::new(out.len() as nat, |i: int| '0'));
    }
    let mut dd = d;
    out.append(&mut dd);
    out
}

/// `%Y`: the year with at least four digits, zero-padded; a year before 0
/// or after 9999 carries its sign (`-0001`, `+10000`).
pub open spec fn year_text_spec(y: int) -> Seq<char> {
    if 0 <= y <= 9999 {
        zero_padded_spec(y as nat, 4)
    } else if y < 0 {
        seq!['-'] + zero_padded_spec((-y) as nat, 4)
    } else {
        seq!['+'] + zero_padded_spec(y as nat, 4)
    }
}

/// `%Y-%m-%d %H:%M` of a year, month, day, hour and minute.
pub open spec fn minute_text_spec(f: (i32, u32, u32, u32, u32)) -> Seq<char> {
    year_text_spec(f.0 as int) + seq!['-'] + zero_padded_spec(f.1 as nat, 2) + seq!['-'] + zero_padded_spec(
        f.2 as nat,
        2,
    ) + seq![' '] + zero_padded_spec(f.3 as nat, 2) + seq![':'] + zero_padded_spec(f.4 as nat, 2)
}

/// Writes a year, month, day, hour and minute as `%Y-%m-%d %H:%M`.
pub fn minute_text(f: (i32, u32, u32, u32, u32)) -> (r: String)
    ensures
        r@ == minute_text_spec(f),
{
    let (y, mo, d, h, mi) = f;
    let mut v: Vec<char> = Vec::new();
    if y < 0 {
        v.push('-');
    } else if y > 9999 {
        v.push('+');
    }
    let ay: u128 = if y < 0 {
        (0i128 - (y as i128)) as u128
    } else {
        y as u128
    };
    let mut t = zero_padded(ay, 4);
    v.append(&mut t);
    assert(v@ =~= year_text_spec(y as int));
    v.push('-');
    let mut t = zero_padded(mo as u128, 2);
    v.append(&mut t);
    v.push('-');
    let mut t = zero_padded(d as u128, 2);
    v.append(&mut t);
    v.push(' ');
    let mut t = zero_padded(h as u128, 2);
    v.append(&mut t);
    v.push(':');
    let mut t = zero_padded(mi as u128, 2);
    v.append(&mut t);
    assert(v@ =~= minute_text_spec(f));
    string_from_chars(v.as_slice())
}

/// The UTC year, month, day, hour and minute of an instant given in
/// milliseconds since the Unix epoch; `None` when chrono cannot represent it.
pub uninterp spec fn utc_fields_of(ms: i64) -> Option<(i32, u32, u32, u32, u32)>;

/// `Utc.timestamp_millis_opt(ms).single()`, then `Datelike::year`, `month`,
/// `day` and `Timelike::hour`, `minute`: named, the result depends on the
/// instant alone. chrono documents months from 1 to 12, days from 1 to 31,
/// hours below 24 and minutes below 60.
#[verifier::external_body]
fn utc_fields(ms: i64) -> (r: Option<(i32, u32, u32, u32, u32)>)
    ensures
        r == utc_fields_of(ms),
        r matches Some(f) ==> 1 <= f.1 <= 12 && 1 <= f.2 <= 31 && f.3 < 24 && f.4 < 60,
{
    let dt = chrono::TimeZone::timestamp_millis_opt(&chrono::Utc, ms).single()?;
    Some((
        chrono::Datelike::year(&dt),
        chrono::Datelike::month(&dt),
        chrono::Datelike::day(&dt),
        chrono::Timelike::hour(&dt),
        chrono::Timelike::minute(&dt),
    ))
}

/// The "next run" column of the job list: `-` without one, `invalid` when
/// out of range.
pub fn next_run_text(next: Option<i64>) -> (r: String)
    ensures
        r@ == (match next {
            None => "-"@,
            Some(ms) => match utc_fields_of(ms) {
                Some(f) => minute_text_spec(f),
                None => "invalid"@,
            },
        }),
{
    match next {
        None => "-".to_owned(),
        Some(ms) => match utc_fields(ms) {
            Some(f) => minute_text(f),
            None => "invalid".to_owned(),
        },
    }
}

} // verus!
