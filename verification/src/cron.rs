//! Scheduled jobs: the job store, what one scheduler tick does to the jobs,
//! the message a job sends when it runs, and job lookup by id prefix.

use vstd::prelude::*;

use crate::system_event::{default_policy, DeliveryPolicy, EventPriority};
use crate::text::{
    chars_eq, chars_of, copy_opt_string, copy_string, has_prefix, starts_with, str_concat,
    string_from_chars, take_chars, trim_spec, trim_str, join_spec, join_strings,
};
use crate::numbers::{decimal_chars, decimal_spec, i64_decimal_chars, signed_decimal_spec};

verus! {

#[derive(Debug, Clone, Copy, PartialEq, Eq, Structural)]
pub enum ScheduleKind {
    At,
    Every,
    Cron,
}

#[derive(Debug, Clone)]
pub struct JobSchedule {
    pub kind: ScheduleKind,
    pub at_ms: Option<i64>,
    pub every_ms: Option<i64>,
    pub expr: Option<String>,
    pub tz: Option<String>,
}

#[derive(Debug, Clone)]
pub struct JobPayload {
    pub kind: String,
    pub message: String,
    pub deliver: bool,
    pub channel: Option<String>,
    pub to: Option<String>,
    pub script_kind: Option<String>,
    pub skill_name: Option<String>,
}

#[derive(Debug, Clone)]
pub struct JobState {
    pub next_run_at_ms: Option<i64>,
    pub last_run_at_ms: Option<i64>,
}

impl Default for JobState {
    fn default() -> (s: Self)
        ensures
            s.next_run_at_ms is None,
            s.last_run_at_ms is None,
    {
        JobState { next_run_at_ms: None, last_run_at_ms: None }
    }
}

#[derive(Debug, Clone)]
pub struct CronJob {
    pub id: String,
    pub name: String,
    pub enabled: bool,
    pub schedule: JobSchedule,
    pub payload: JobPayload,
    pub state: JobState,
    pub created_at_ms: i64,
    pub updated_at_ms: i64,
    pub delete_after_run: bool,
}

/// The jobs file: a format version and the jobs.
#[derive(Debug)]
pub struct JobStore {
    pub version: u32,
    pub jobs: Vec<CronJob>,
}

impl Default for JobStore {
    fn default() -> (s: Self)
        ensures
            s.version == 1,
            s.jobs@.len() == 0,
    {
        JobStore { version: 1, jobs: Vec::new() }
    }
}

fn copy_schedule(s: &JobSchedule) -> (r: JobSchedule)
    ensures
        r == *s,
{
    JobSchedule {
        kind: s.kind,
        at_ms: s.at_ms,
        every_ms: s.every_ms,
        expr: copy_opt_string(&s.expr),
        tz: copy_opt_string(&s.tz),
    }
}

fn copy_payload(p: &JobPayload) -> (r: JobPayload)
    ensures
        r == *p,
{
    JobPayload {
        kind: copy_string(&p.kind),
        message: copy_string(&p.message),
        deliver: p.deliver,
        channel: copy_opt_string(&p.channel),
        to: copy_opt_string(&p.to),
        script_kind: copy_opt_string(&p.script_kind),
        skill_name: copy_opt_string(&p.skill_name),
    }
}

/// A copy of a job, equal to it field by field.
pub fn copy_job(j: &CronJob) -> (r: CronJob)
    ensures
        r == *j,
{
    CronJob {
        id: copy_string(&j.id),
        name: copy_string(&j.name),
        enabled: j.enabled,
        schedule: copy_schedule(&j.schedule),
        payload: copy_payload(&j.payload),
        state: JobState { next_run_at_ms: j.state.next_run_at_ms, last_run_at_ms: j.state.last_run_at_ms },
        created_at_ms: j.created_at_ms,
        updated_at_ms: j.updated_at_ms,
        delete_after_run: j.delete_after_run,
    }
}

/// The last instant, in milliseconds, after which a cron time can be looked
/// up: one second before the last instant chrono represents
/// (`DateTime::<Utc>::MAX_UTC`, 262142-12-31T23:59:59.999999999Z).
pub const CRON_AFTER_MAX_MS: i64 = 8210266876798999;

/// The first time after `after_ms` at which a cron expression fires, in
/// milliseconds; `None` when the expression does not parse or never fires again.
pub uninterp spec fn cron_next_of(expr: Seq<char>, after_ms: i64) -> Option<i64>;

/// `cron::Schedule` parsed from `expr` (`str::parse`), then the first time its
/// `after` iterator yields after the instant `after_ms` in UTC, in milliseconds
/// (`DateTime::from_timestamp_millis`, `timestamp_millis`). The result is named:
/// it depends on the expression and the instant alone.
/// `after_ms` must be at least a second before the last instant chrono can
/// represent, since the query starts one second after it.
#[verifier::external_body]
fn cron_next_after(expr: &str, after_ms: i64) -> (r: Option<i64>)
    requires
        after_ms <= CRON_AFTER_MAX_MS,
    ensures
        r == cron_next_of(expr@, after_ms),
{
    let after = chrono::DateTime::from_timestamp_millis(after_ms)?;
    let schedule = expr.parse::<cron::Schedule>().ok()?;
    schedule.after(&after).next().map(|t| t.timestamp_millis())
}

pub open spec fn with_next(job: CronJob, next: Option<i64>) -> CronJob {
    CronJob { state: JobState { next_run_at_ms: next, ..job.state }, ..job }
}

/// The next cron time of a job whose expression yields one; else the job unchanged.
pub open spec fn with_cron_next(job: CronJob, now: i64) -> CronJob {
    match job.schedule.expr {
        Some(x) => match cron_next_of(x@, now) {
            Some(n) => with_next(job, Some(n)),
            None => job,
        },
        None => job,
    }
}

/// `now + every` fits in an `i64`.
pub open spec fn every_in_range(job: CronJob, now: i64) -> bool {
    match job.schedule.every_ms {
        Some(e) => i64::MIN <= now + e <= i64::MAX,
        None => true,
    }
}

/// A job that has no next run yet gets one; the result says whether it is
/// due now (only a one-time job whose time has come).
pub open spec fn calc_next_spec(job: CronJob, now: i64) -> (CronJob, bool) {
    match job.schedule.kind {
        ScheduleKind::At => match job.schedule.at_ms {
            Some(a) => (with_next(job, Some(a)), a <= now),
            None => (job, false),
        },
        ScheduleKind::Every => match job.schedule.every_ms {
            Some(e) => (with_next(job, Some((now + e) as i64)), false),
            None => (job, false),
        },
        ScheduleKind::Cron => (with_cron_next(job, now), false),
    }
}

/// The job after it ran at `now`: last run recorded, next run scheduled
/// (a one-time job is disabled instead).
pub open spec fn after_run_spec(job: CronJob, now: i64) -> CronJob {
    let ran = CronJob { state: JobState { last_run_at_ms: Some(now), ..job.state }, ..job };
    match job.schedule.kind {
        ScheduleKind::At => CronJob { enabled: false, ..with_next(ran, None) },
        ScheduleKind::Every => match job.schedule.every_ms {
            Some(e) => with_next(ran, Some((now + e) as i64)),
            None => ran,
        },
        ScheduleKind::Cron => with_cron_next(ran, now),
    }
}

/// The additions a tick makes for a job are in range, and a cron time is
/// looked up only where chrono can add a second to `now`.
pub open spec fn tick_in_range(job: CronJob, now: i64) -> bool {
    &&& (job.enabled && job.schedule.kind == ScheduleKind::Every && (job.state.next_run_at_ms is None
        || job.state.next_run_at_ms->0 <= now)) ==> every_in_range(job, now)
    &&& (job.enabled && job.schedule.kind == ScheduleKind::Cron) ==> now <= CRON_AFTER_MAX_MS
}

/// One job in a tick: the job afterwards, and the job as it is run when it is due.
pub open spec fn tick_job_spec(job: CronJob, now: i64) -> (CronJob, Option<CronJob>) {
    if !job.enabled {
        (job, None)
    } else if job.schedule.kind == ScheduleKind::At && job.state.last_run_at_ms is Some {
        (CronJob { enabled: false, ..job }, None)
    } else {
        let (j1, due) = match job.state.next_run_at_ms {
            Some(n) => (job, n <= now),
            None => calc_next_spec(job, now),
        };
        if due {
            (after_run_spec(j1, now), Some(j1))
        } else {
            (j1, None)
        }
    }
}

fn set_cron_next(job: &mut CronJob, now: i64)
    requires
        now <= CRON_AFTER_MAX_MS,
    ensures
        *final(job) == with_cron_next(*old(job), now),
{
    let next = match &job.schedule.expr {
        Some(x) => cron_next_after(x.as_str(), now),
        None => None,
    };
    match next {
        Some(n) => {
            job.state.next_run_at_ms = Some(n);
        },
        None => {},
    }
}

fn calc_next(job: &mut CronJob, now: i64) -> (due: bool)
    requires
        old(job).schedule.kind == ScheduleKind::Every ==> every_in_range(*old(job), now),
        old(job).schedule.kind == ScheduleKind::Cron ==> now <= CRON_AFTER_MAX_MS,
    ensures
        (*final(job), due) == calc_next_spec(*old(job), now),
{
    match job.schedule.kind {
        ScheduleKind::At => match job.schedule.at_ms {
            Some(a) => {
                job.state.next_run_at_ms = Some(a);
                a <= now
            },
            None => false,
        },
        ScheduleKind::Every => match job.schedule.every_ms {
            Some(e) => {
                job.state.next_run_at_ms = Some(now + e);
                false
            },
            None => false,
        },
        ScheduleKind::Cron => {
            set_cron_next(job, now);
            false
        },
    }
}

/// A due cron job is run, and afterwards waits for the first time its
/// expression fires after `now`; when that time lies after `now`, a second
/// tick at the same instant does not run the job again.
pub proof fn lemma_due_cron_job_rescheduled(job: CronJob, now: i64, expr: String, next: i64)
    requires
        job.enabled,
        job.schedule.kind == ScheduleKind::Cron,
        job.schedule.expr == Some(expr),
        job.state.next_run_at_ms matches Some(t) && t <= now,
        cron_next_of(expr@, now) == Some(next),
    ensures
        tick_job_spec(job, now).1 == Some(job),
        tick_job_spec(job, now).0.enabled,
        tick_job_spec(job, now).0.schedule == job.schedule,
        tick_job_spec(job, now).0.state.last_run_at_ms == Some(now),
        tick_job_spec(job, now).0.state.next_run_at_ms == Some(next),
        next > now ==> tick_job_spec(tick_job_spec(job, now).0, now).1 is None,
{
}

/// A cron job seen for the first time is not run, only scheduled for the
/// first time its expression fires after `now`.
pub proof fn lemma_new_cron_job_scheduled(job: CronJob, now: i64, expr: String, next: i64)
    requires
        job.enabled,
        job.schedule.kind == ScheduleKind::Cron,
        job.schedule.expr == Some(expr),
        job.state.next_run_at_ms is None,
        cron_next_of(expr@, now) == Some(next),
    ensures
        tick_job_spec(job, now).1 is None,
        tick_job_spec(job, now).0.state.next_run_at_ms == Some(next),
        tick_job_spec(job, now).0.state.last_run_at_ms == job.state.last_run_at_ms,
        tick_job_spec(job, now).0.enabled,
{
}

/// One job's part of a tick; returns the job to run when it is due.
pub fn tick_job(job: &mut CronJob, now: i64) -> (run: Option<CronJob>)
    requires
        tick_in_range(*old(job), now),
    ensures
        (*final(job), run) == tick_job_spec(*old(job), now),
{
    if !job.enabled {
        return None;
    }
    if job.schedule.kind == ScheduleKind::At && job.state.last_run_at_ms.is_some() {
        job.enabled = false;
        return None;
    }
    let due = match job.state.next_run_at_ms {
        Some(n) => n <= now,
        None => calc_next(job, now),
    };
    if !due {
        return None;
    }
    let snapshot = copy_job(job);
    job.state.last_run_at_ms = Some(now);
    match job.schedule.kind {
        ScheduleKind::At => {
            job.state.next_run_at_ms = None;
            job.enabled = false;
        },
        ScheduleKind::Every => match job.schedule.every_ms {
            Some(e) => {
                job.state.next_run_at_ms = Some(now + e);
            },
            None => {},
        },
        ScheduleKind::Cron => {
            set_cron_next(job, now);
        },
    }
    Some(snapshot)
}

/// All jobs through one tick, in order: the jobs afterwards and the jobs run.
pub open spec fn tick_all(jobs: Seq<CronJob>, now: i64) -> (Seq<CronJob>, Seq<CronJob>)
    decreases jobs.len(),
{
    if jobs.len() == 0 {
        (seq![], seq![])
    } else {
        let (js, runs) = tick_all(jobs.drop_last(), now);
        let (j, r) = tick_job_spec(jobs.last(), now);
        (
            js.push(j),
            match r {
                Some(x) => runs.push(x),
                None => runs,
            },
        )
    }
}

/// A job that has run and is to be deleted after running.
pub open spec fn is_finished(job: CronJob) -> bool {
    job.delete_after_run && job.state.last_run_at_ms is Some
}

/// Some finished job in `all` has this id.
pub open spec fn id_finished(all: Seq<CronJob>, id: Seq<char>) -> bool {
    exists|k: int| 0 <= k < all.len() && is_finished(#[trigger] all[k]) && all[k].id@ == id
}

/// The jobs of `jobs` whose id no finished job of `all` has, in order.
pub open spec fn keep_unfinished(jobs: Seq<CronJob>, all: Seq<CronJob>) -> Seq<CronJob>
    decreases jobs.len(),
{
    if jobs.len() == 0 {
        seq![]
    } else {
        let rest = keep_unfinished(jobs.drop_last(), all);
        if id_finished(all, jobs.last().id@) {
            rest
        } else {
            rest.push(jobs.last())
        }
    }
}

/// Every job's tick is in range.
pub open spec fn all_in_range(jobs: Seq<CronJob>, now: i64) -> bool {
    forall|i: int| 0 <= i < jobs.len() ==> tick_in_range(#[trigger] jobs[i], now)
}

/// What a tick leaves in the store: every job ticked, then the finished ones
/// (and any job sharing an id with one) removed.
pub open spec fn run_tick_jobs(jobs: Seq<CronJob>, now: i64) -> Seq<CronJob> {
    keep_unfinished(tick_all(jobs, now).0, tick_all(jobs, now).0)
}

fn id_finished_exec(all: &Vec<CronJob>, id: &String) -> (r: bool)
    ensures
        r == id_finished(all@, id@),
{
    let idc = chars_of(id.as_str());
    let mut k: usize = 0;
    while k < all.len()
        invariant
            k <= all.len(),
            idc@ == id@,
            forall|j: int| 0 <= j < k ==> !(is_finished(#[trigger] all@[j]) && all@[j].id@ == id@),
        decreases all.len() - k,
    {
        let j = &all[k];
        if j.delete_after_run && j.state.last_run_at_ms.is_some() {
            let jc = chars_of(j.id.as_str());
            if chars_eq(jc.as_slice(), idc.as_slice()) {
                assert(is_finished(all@[k as int]) && all@[k as int].id@ == id@);
                return true;
            }
        }
        k = k + 1;
    }
    false
}

/// One scheduler tick over the jobs at time `now`: due jobs are recorded as
/// run and rescheduled, one-time jobs that ran are disabled, finished
/// delete-after-run jobs are removed. Returns the jobs to execute, as they were
/// when found due.
pub fn run_tick(jobs: &mut Vec<CronJob>, now: i64) -> (to_run: Vec<CronJob>)
    requires
        all_in_range(old(jobs)@, now),
    ensures
        final(jobs)@ == run_tick_jobs(old(jobs)@, now),
        to_run@ == tick_all(old(jobs)@, now).1,
{
    let ghost orig = jobs@;
    let mut to_run: Vec<CronJob> = Vec::new();
    let mut i: usize = 0;
    assert(orig.take(0) =~= Seq::<CronJob>::empty());
    while i < jobs.len()
        invariant
            i <= jobs.len(),
            jobs@.len() == orig.len(),
            all_in_range(orig, now),
            jobs@.take(i as int) == tick_all(orig.take(i as int), now).0,
            jobs@.skip(i as int) == orig.skip(i as int),
            to_run@ == tick_all(orig.take(i as int), now).1,
        decreases orig.len() - i,
    {
        let mut j = copy_job(&jobs[i]);
        proof {
            assert(jobs@.skip(i as int)[0] == jobs@[i as int]);
            assert(orig.skip(i as int)[0] == orig[i as int]);
            assert(tick_in_range(orig[i as int], now));
        }
        let run = tick_job(&mut j, now);
        let ghost before = jobs@;
        jobs.set(i, j);
        match run {
            Some(x) => {
                to_run.push(x);
            },
            None => {},
        }
        proof {
            assert(orig.take(i + 1).drop_last() =~= orig.take(i as int));
            assert(orig.take(i + 1).last() == orig[i as int]);
            assert(jobs@.take(i + 1) =~= before.take(i as int).push(jobs@[i as int]));
            assert(jobs@.skip(i + 1) =~= before.skip(i + 1));
            assert(before.skip(i + 1) =~= before.skip(i as int).skip(1));
            assert(orig.skip(i + 1) =~= orig.skip(i as int).skip(1));
        }
        i = i + 1;
    }
    assert(orig.take(orig.len() as int) =~= orig);
    assert(jobs@.take(jobs@.len() as int) =~= jobs@);
    let ghost ticked = jobs@;
    let mut kept: Vec<CronJob> = Vec::new();
    let mut k: usize = 0;
    assert(ticked.take(0) =~= Seq::<CronJob>::empty());
    while k < jobs.len()
        invariant
            k <= jobs.len(),
            jobs@ == ticked,
            kept@ == keep_unfinished(ticked.take(k as int), ticked),
        decreases jobs.len() - k,
    {
        let fin = id_finished_exec(jobs, &jobs[k].id);
        proof {
            assert(ticked.take(k + 1).drop_last() =~= ticked.take(k as int));
            assert(ticked.take(k + 1).last() == ticked[k as int]);
        }
        if !fin {
            kept.push(copy_job(&jobs[k]));
        }
        k = k + 1;
    }
    assert(ticked.take(ticked.len() as int) =~= ticked);
    *jobs = kept;
    to_run
}

proof fn lemma_keep_unfinished_members(jobs: Seq<CronJob>, all: Seq<CronJob>)
    ensures
        forall|i: int|
            #![trigger keep_unfinished(jobs, all)[i]]
            0 <= i < keep_unfinished(jobs, all).len() ==> {
                &&& !id_finished(all, keep_unfinished(jobs, all)[i].id@)
                &&& jobs.contains(keep_unfinished(jobs, all)[i])
            },
    decreases jobs.len(),
{
    if jobs.len() > 0 {
        lemma_keep_unfinished_members(jobs.drop_last(), all);
        let rest = keep_unfinished(jobs.drop_last(), all);
        let out = keep_unfinished(jobs, all);
        assert forall|i: int| #![trigger out[i]] 0 <= i < out.len() implies {
            &&& !id_finished(all, out[i].id@)
            &&& jobs.contains(out[i])
        } by {
            if i < rest.len() {
                assert(out[i] == rest[i]);
                assert(jobs.drop_last().contains(rest[i]));
                let w = choose|w: int| 0 <= w < jobs.drop_last().len() && jobs.drop_last()[w] == rest[i];
                assert(jobs.drop_last()[w] == jobs[w]);
                assert(jobs[w] == out[i]);
            } else {
                assert(out[i] == jobs.last());
                assert(jobs[jobs.len() - 1] == out[i]);
            }
        }
    }
}

/// After a tick no job in the store is a delete-after-run job that has run,
/// whether or not it is still enabled.
pub proof fn lemma_tick_removes_finished(jobs: Seq<CronJob>, now: i64)
    ensures
        forall|i: int|
            0 <= i < run_tick_jobs(jobs, now).len() ==> !is_finished(
                #[trigger] run_tick_jobs(jobs, now)[i],
            ),
{
    let ticked = tick_all(jobs, now).0;
    lemma_keep_unfinished_members(ticked, ticked);
    let out = run_tick_jobs(jobs, now);
    assert forall|i: int| 0 <= i < out.len() implies !is_finished(#[trigger] out[i]) by {
        assert(!id_finished(ticked, out[i].id@));
        if is_finished(out[i]) {
            let k = choose|k: int| 0 <= k < ticked.len() && ticked[k] == out[i];
            assert(is_finished(ticked[k]) && ticked[k].id@ == out[i].id@);
        }
    }
}

/// What one tick does to one job:
/// a disabled job is left as it is and not run;
/// a one-time job that has run is disabled, never run again;
/// a job found due is run as it was found, its last run is `now`, and a
/// one-time job is then disabled with no next run while a repeating one is
/// next due `every` after `now`;
/// a repeating job seen for the first time is not run, only scheduled;
/// a job whose next run is later than `now` is left as it is.
pub proof fn lemma_tick_job_laws(job: CronJob, now: i64)
    ensures
        !job.enabled ==> tick_job_spec(job, now) == (job, None::<CronJob>),
        (job.schedule.kind == ScheduleKind::At && job.state.last_run_at_ms is Some) ==> {
            &&& tick_job_spec(job, now).1 is None
            &&& !tick_job_spec(job, now).0.enabled
        },
        tick_job_spec(job, now).1 matches Some(r) ==> {
            &&& tick_job_spec(job, now).0.state.last_run_at_ms == Some(now)
            &&& (job.schedule.kind == ScheduleKind::At ==> !tick_job_spec(job, now).0.enabled
                && tick_job_spec(job, now).0.state.next_run_at_ms is None)
            &&& (job.schedule.kind == ScheduleKind::Every && job.schedule.every_ms is Some) ==> tick_job_spec(
                job,
                now,
            ).0.state.next_run_at_ms == Some((now + job.schedule.every_ms->0) as i64)
            &&& r.id == job.id && r.payload == job.payload && r.schedule == job.schedule
        },
        (job.enabled && job.schedule.kind == ScheduleKind::Every && job.state.next_run_at_ms is None
            && job.schedule.every_ms is Some) ==> {
            &&& tick_job_spec(job, now).1 is None
            &&& tick_job_spec(job, now).0.state.next_run_at_ms == Some(
                (now + job.schedule.every_ms->0) as i64,
            )
        },
        (job.state.next_run_at_ms matches Some(n) && n > now) ==> tick_job_spec(job, now).1 is None
            && (tick_job_spec(job, now).0 == job || !tick_job_spec(job, now).0.enabled),
{
}

} // verus!

verus! {

/// The agent a job's message is routed to: the configured id, trimmed,
/// unless it is blank.
pub open spec fn route_agent_spec(agent_id: Option<Seq<char>>) -> Option<Seq<char>> {
    match agent_id {
        Some(a) => if trim_spec(a).len() > 0 {
            Some(trim_spec(a))
        } else {
            None
        },
        None => None,
    }
}

pub fn route_agent_id(agent_id: Option<&str>) -> (r: Option<String>)
    ensures
        r matches Some(s) ==> route_agent_spec(Some(agent_id->0@)) == Some(s@),
        agent_id is Some ==> (r is Some <==> route_agent_spec(Some(agent_id->0@)) is Some),
        agent_id is None ==> r is None,
{
    match agent_id {
        Some(a) => {
            let t = trim_str(a);
            if t.len() == 0 {
                None
            } else {
                Some(string_from_chars(t.as_slice()))
            }
        },
        None => None,
    }
}

/// What a job's message says it is.
#[derive(Debug, Clone)]
pub enum CronMessageKind {
    /// A reminder carrying its message.
    Reminder { message: String },
    /// A skill script of a kind (`rhai` unless given) and a skill (`unknown`
    /// unless given).
    Script { script_kind: String, skill_name: String },
}

/// The message a running job sends to the agent, and the metadata it carries.
#[derive(Debug, Clone)]
pub struct CronDispatch {
    /// The channel the message arrives on: always `"cron"`.
    pub channel: String,
    /// Who the message comes from: always `"cron"`.
    pub sender_id: String,
    pub chat_id: String,
    pub content: String,
    pub job_id: String,
    pub job_name: String,
    pub kind: CronMessageKind,
    pub deliver: bool,
    pub deliver_channel: Option<String>,
    pub deliver_to: Option<String>,
    pub route_agent_id: Option<String>,
}

pub open spec fn opt_or(o: Option<String>, d: Seq<char>) -> Seq<char> {
    match o {
        Some(s) => s@,
        None => d,
    }
}

/// The content of a job's message: the reminder's message, or a line that
/// names the skill script to run and carries the message.
pub open spec fn dispatch_content_spec(p: JobPayload) -> Option<Seq<char>> {
    if p.kind@ == "reminder"@ {
        Some(p.message@)
    } else if p.kind@ == "script"@ {
        Some("[系统定时任务] 执行技能脚本 "@ + opt_or(p.skill_name, "unknown"@) + " — "@ + p.message@)
    } else {
        None
    }
}

fn opt_or_exec(o: &Option<String>, d: &str) -> (r: String)
    ensures
        r@ == opt_or(*o, d@),
{
    match o {
        Some(s) => copy_string(s),
        None => d.to_owned(),
    }
}

/// The message a running job sends, for reminders and skill scripts; `None`
/// for any other payload kind, which is not run.
pub fn job_message(job: &CronJob, agent_id: Option<&str>) -> (r: Option<CronDispatch>)
    ensures
        r is Some <==> dispatch_content_spec(job.payload) is Some,
        r matches Some(d) ==> {
            &&& Some(d.content@) == dispatch_content_spec(job.payload)
            &&& d.channel@ == "cron"@
            &&& d.sender_id@ == "cron"@
            &&& d.chat_id == job.id
            &&& d.job_id == job.id
            &&& d.job_name == job.name
            &&& d.deliver == job.payload.deliver
            &&& d.deliver_channel == job.payload.channel
            &&& d.deliver_to == job.payload.to
            &&& (match agent_id {
                Some(a) => match d.route_agent_id {
                    Some(s) => route_agent_spec(Some(a@)) == Some(s@),
                    None => route_agent_spec(Some(a@)) is None,
                },
                None => d.route_agent_id is None,
            })
            &&& (match d.kind {
                CronMessageKind::Reminder { message } => job.payload.kind@ == "reminder"@
                    && message == job.payload.message,
                CronMessageKind::Script { script_kind, skill_name } => job.payload.kind@
                    == "script"@ && script_kind@ == opt_or(job.payload.script_kind, "rhai"@)
                    && skill_name@ == opt_or(job.payload.skill_name, "unknown"@),
            })
        },
{
    let kind = chars_of(job.payload.kind.as_str());
    let reminder = chars_of("reminder");
    let script = chars_of("script");
    let (content, mk) = if chars_eq(kind.as_slice(), reminder.as_slice()) {
        (copy_string(&job.payload.message), CronMessageKind::Reminder { message: copy_string(&job.payload.message) })
    } else if chars_eq(kind.as_slice(), script.as_slice()) {
        let sk = opt_or_exec(&job.payload.script_kind, "rhai");
        let skill = opt_or_exec(&job.payload.skill_name, "unknown");
        let a = str_concat("[系统定时任务] 执行技能脚本 ", skill.as_str());
        let b = str_concat(a.as_str(), " — ");
        let c = str_concat(b.as_str(), job.payload.message.as_str());
        (c, CronMessageKind::Script { script_kind: sk, skill_name: skill })
    } else {
        return None;
    };
    let route = route_agent_id(agent_id);
    Some(CronDispatch {
        channel: "cron".to_owned(),
        sender_id: "cron".to_owned(),
        chat_id: copy_string(&job.id),
        content,
        job_id: copy_string(&job.id),
        job_name: copy_string(&job.name),
        kind: mk,
        deliver: job.payload.deliver,
        deliver_channel: copy_opt_string(&job.payload.channel),
        deliver_to: copy_opt_string(&job.payload.to),
        route_agent_id: route,
    })
}

/// The stages of a job's run that raise a system event.
#[derive(Debug, Clone, Copy, PartialEq, Eq, Structural)]
pub enum CronStage {
    Started,
    Completed,
    Failed,
}

/// The system event a stage raises: its kind, priority, title, summary and
/// delivery policy.
#[derive(Debug, Clone)]
pub struct CronEventPlan {
    pub kind: String,
    pub priority: EventPriority,
    pub title: String,
    pub summary: String,
    pub delivery: DeliveryPolicy,
}

/// `r` is the event for `stage` of the run of the job named `job_name`;
/// a failure carries the error text and is critical and delivered at once.
pub open spec fn is_cron_plan(r: CronEventPlan, stage: CronStage, job_name: Seq<char>, error: Seq<char>) -> bool {
    match stage {
        CronStage::Started => {
            &&& r.kind@ == "cron.job_started"@
            &&& r.priority == EventPriority::Normal
            &&& r.title@ == "定时任务开始执行"@
            &&& r.summary@ == "定时任务 "@ + job_name + " 已开始执行"@
            &&& r.delivery == default_policy()
        },
        CronStage::Completed => {
            &&& r.kind@ == "cron.job_completed"@
            &&& r.priority == EventPriority::Normal
            &&& r.title@ == "定时任务已派发"@
            &&& r.summary@ == "定时任务 "@ + job_name + " 已成功派发"@
            &&& r.delivery == default_policy()
        },
        CronStage::Failed => {
            &&& r.kind@ == "cron.job_failed"@
            &&& r.priority == EventPriority::Critical
            &&& r.title@ == "定时任务派发失败"@
            &&& r.summary@ == "定时任务 "@ + job_name + " 派发失败："@ + error
            &&& r.delivery == (DeliveryPolicy { immediate: true, ..default_policy() })
        },
    }
}

/// The event for a stage of a job's run; a failure carries the error text
/// and is critical and delivered at once.
pub fn cron_event_plan(stage: CronStage, job_name: &str, error: &str) -> (r: CronEventPlan)
    ensures
        is_cron_plan(r, stage, job_name@, error@),
{
    let head = str_concat("定时任务 ", job_name);
    match stage {
        CronStage::Started => CronEventPlan {
            kind: "cron.job_started".to_owned(),
            priority: EventPriority::Normal,
            title: "定时任务开始执行".to_owned(),
            summary: str_concat(head.as_str(), " 已开始执行"),
            delivery: DeliveryPolicy::default(),
        },
        CronStage::Completed => CronEventPlan {
            kind: "cron.job_completed".to_owned(),
            priority: EventPriority::Normal,
            title: "定时任务已派发".to_owned(),
            summary: str_concat(head.as_str(), " 已成功派发"),
            delivery: DeliveryPolicy::default(),
        },
        CronStage::Failed => {
            let a = str_concat(head.as_str(), " 派发失败：");
            CronEventPlan {
                kind: "cron.job_failed".to_owned(),
                priority: EventPriority::Critical,
                title: "定时任务派发失败".to_owned(),
                summary: str_concat(a.as_str(), error),
                delivery: DeliveryPolicy::critical(),
            }
        },
    }
}

/// The first step of a job's run: the started event, raised for every job,
/// and the message to send, which only reminders and skill scripts have.
#[derive(Debug, Clone)]
pub struct CronRunStart {
    pub started: CronEventPlan,
    pub dispatch: Option<CronDispatch>,
}

/// Begins a job's run: the started event comes first, then the message (if
/// the payload kind is one that runs) goes to the agent.
pub fn begin_job_run(job: &CronJob, agent_id: Option<&str>) -> (r: CronRunStart)
    ensures
        is_cron_plan(r.started, CronStage::Started, job.name@, ""@),
        r.dispatch is Some <==> dispatch_content_spec(job.payload) is Some,
        r.dispatch matches Some(d) ==> Some(d.content@) == dispatch_content_spec(job.payload) && d.chat_id
            == job.id && d.channel@ == "cron"@ && d.sender_id@ == "cron"@,
{
    let started = cron_event_plan(CronStage::Started, job.name.as_str(), "");
    let dispatch = job_message(job, agent_id);
    CronRunStart { started, dispatch }
}

/// The event that ends a job's run once its message was handed to the agent
/// (`Ok`) or could not be (`Err` with the reason): completed, or a critical
/// failure carrying the reason.
pub fn cron_send_outcome(job_name: &str, sent: Result<(), String>) -> (r: CronEventPlan)
    ensures
        sent is Ok ==> is_cron_plan(r, CronStage::Completed, job_name@, ""@),
        sent matches Err(e) ==> is_cron_plan(r, CronStage::Failed, job_name@, e@),
{
    match sent {
        Ok(()) => cron_event_plan(CronStage::Completed, job_name, ""),
        Err(e) => cron_event_plan(CronStage::Failed, job_name, e.as_str()),
    }
}

/// Positions of the jobs whose id starts with `prefix`, in order.
pub open spec fn prefix_matches(jobs: Seq<CronJob>, prefix: Seq<char>) -> Seq<int>
    decreases jobs.len(),
{
    if jobs.len() == 0 {
        seq![]
    } else {
        let rest = prefix_matches(jobs.drop_last(), prefix);
        if has_prefix(jobs.last().id@, prefix) {
            rest.push(jobs.len() - 1)
        } else {
            rest
        }
    }
}

proof fn lemma_prefix_matches_bounds(jobs: Seq<CronJob>, prefix: Seq<char>)
    ensures
        forall|i: int|
            0 <= i < prefix_matches(jobs, prefix).len() ==> 0 <= #[trigger] prefix_matches(
                jobs,
                prefix,
            )[i] < jobs.len(),
    decreases jobs.len(),
{
    if jobs.len() > 0 {
        lemma_prefix_matches_bounds(jobs.drop_last(), prefix);
        let rest = prefix_matches(jobs.drop_last(), prefix);
        let out = prefix_matches(jobs, prefix);
        assert forall|i: int| 0 <= i < out.len() implies 0 <= #[trigger] out[i] < jobs.len() by {
            if i < rest.len() {
                assert(out[i] == rest[i]);
            }
        }
    }
}

/// Positions of the jobs whose id starts with `prefix`.
pub fn matching_jobs(jobs: &Vec<CronJob>, prefix: &str) -> (r: Vec<usize>)
    ensures
        r@.map_values(|i: usize| i as int) == prefix_matches(jobs@, prefix@),
        forall|i: int| 0 <= i < r@.len() ==> #[trigger] r@[i] < jobs@.len(),
{
    let p = chars_of(prefix);
    let mut r: Vec<usize> = Vec::new();
    let mut i: usize = 0;
    assert(r@.map_values(|i: usize| i as int) =~= prefix_matches(jobs@.take(0), prefix@));
    while i < jobs.len()
        invariant
            i <= jobs.len(),
            p@ == prefix@,
            r@.map_values(|i: usize| i as int) == prefix_matches(jobs@.take(i as int), prefix@),
            forall|k: int| 0 <= k < r@.len() ==> #[trigger] r@[k] < i,
        decreases jobs.len() - i,
    {
        let id = chars_of(jobs[i].id.as_str());
        proof {
            assert(jobs@.take(i + 1).drop_last() =~= jobs@.take(i as int));
            assert(jobs@.take(i + 1).last() == jobs@[i as int]);
        }
        if starts_with(id.as_slice(), p.as_slice()) {
            r.push(i);
            assert(r@.map_values(|i: usize| i as int) =~= prefix_matches(jobs@.take(i as int), prefix@).push(i as int));
        }
        i = i + 1;
    }
    assert(jobs@.take(jobs.len() as int) =~= jobs@);
    r
}

/// How a job is named when several match: its first eight id characters and
/// its name in brackets.
pub open spec fn job_label(j: CronJob) -> Seq<char> {
    j.id@.take(if 8 < j.id@.len() { 8 } else { j.id@.len() as int }) + " ("@ + j.name@ + ")"@
}

/// The error for an ambiguous id prefix.
pub open spec fn ambiguous_prefix_error(jobs: Seq<CronJob>, prefix: Seq<char>) -> Seq<char> {
    "Multiple jobs match '"@ + prefix + "': "@ + join_spec(
        prefix_matches(jobs, prefix).map_values(|i: int| job_label(jobs[i])),
        ", "@,
    )
}

fn job_label_exec(j: &CronJob) -> (r: String)
    ensures
        r@ == job_label(*j),
{
    let short = take_chars(j.id.as_str(), 8);
    let a = str_concat(short.as_str(), " (");
    let b = str_concat(a.as_str(), j.name.as_str());
    str_concat(b.as_str(), ")")
}

/// Enables or disables the one job whose id starts with `id_prefix`, stamping
/// it with `now_ms`, and returns its name; `None` when no job matches; an
/// error naming the candidates when several do.
pub fn update_job_enabled(jobs: &mut Vec<CronJob>, id_prefix: &str, enabled: bool, now_ms: i64) -> (r: Result<Option<String>, String>)
    ensures
        prefix_matches(old(jobs)@, id_prefix@).len() == 0 ==> r == Ok::<Option<String>, String>(None)
            && final(jobs)@ == old(jobs)@,
        prefix_matches(old(jobs)@, id_prefix@).len() == 1 ==> {
            let k = prefix_matches(old(jobs)@, id_prefix@)[0];
            &&& r == Ok::<Option<String>, String>(Some(old(jobs)@[k].name))
            &&& final(jobs)@ == old(jobs)@.update(
                k,
                CronJob { enabled: enabled, updated_at_ms: now_ms, ..old(jobs)@[k] },
            )
        },
        prefix_matches(old(jobs)@, id_prefix@).len() > 1 ==> {
            &&& r matches Err(e) && e@ == ambiguous_prefix_error(old(jobs)@, id_prefix@)
            &&& final(jobs)@ == old(jobs)@
        },
{
    let m = matching_jobs(jobs, id_prefix);
    let ghost idx = prefix_matches(jobs@, id_prefix@);
    proof {
        assert(m@.len() == idx.len());
    }
    if m.len() == 0 {
        return Ok(None);
    }
    if m.len() == 1 {
        let k = m[0];
        assert(idx[0] == k as int);
        let mut j = copy_job(&jobs[k]);
        j.enabled = enabled;
        j.updated_at_ms = now_ms;
        let name = copy_string(&j.name);
        jobs.set(k, j);
        return Ok(Some(name));
    }
    let ghost labels = idx.map_values(|i: int| job_label(jobs@[i]));
    let mut names: Vec<String> = Vec::new();
    let mut i: usize = 0;
    while i < m.len()
        invariant
            i <= m.len(),
            m@.map_values(|i: usize| i as int) == idx,
            forall|q: int| 0 <= q < m@.len() ==> #[trigger] m@[q] < jobs@.len(),
            labels == idx.map_values(|i: int| job_label(jobs@[i])),
            names@.map_values(|s: String| s@) == labels.take(i as int),
        decreases m.len() - i,
    {
        let k = m[i];
        let l = job_label_exec(&jobs[k]);
        let ghost before = names@.map_values(|s: String| s@);
        let ghost lv = l@;
        names.push(l);
        assert(names@.map_values(|s: String| s@) =~= before.push(lv));
        proof {
            assert(idx[i as int] == k as int);
            assert(labels.len() == m@.len());
            assert(labels[i as int] == job_label(jobs@[k as int]));
            assert(labels.take(i + 1) =~= labels.take(i as int).push(labels[i as int]));
        }
        i = i + 1;
    }
    assert(labels.take(m.len() as int) =~= labels);
    let sep = chars_of(", ");
    let joined = join_strings(names.as_slice(), sep.as_slice());
    let a = str_concat("Multiple jobs match '", id_prefix);
    let b = str_concat(a.as_str(), "': ");
    let js = string_from_chars(joined.as_slice());
    Err(str_concat(b.as_str(), js.as_str()))
}

/// The jobs without those whose id is `id`, in order.
pub open spec fn without_id(jobs: Seq<CronJob>, id: Seq<char>) -> Seq<CronJob>
    decreases jobs.len(),
{
    if jobs.len() == 0 {
        seq![]
    } else if jobs.last().id@ == id {
        without_id(jobs.drop_last(), id)
    } else {
        without_id(jobs.drop_last(), id).push(jobs.last())
    }
}

proof fn lemma_without_id_len(jobs: Seq<CronJob>, id: Seq<char>)
    ensures
        without_id(jobs, id).len() <= jobs.len(),
        without_id(jobs, id).len() < jobs.len() <==> exists|k: int| 0 <= k < jobs.len() && #[trigger] jobs[k].id@ == id,
    decreases jobs.len(),
{
    if jobs.len() > 0 {
        lemma_without_id_len(jobs.drop_last(), id);
        if exists|k: int| 0 <= k < jobs.drop_last().len() && #[trigger] jobs.drop_last()[k].id@ == id {
            let k = choose|k: int| 0 <= k < jobs.drop_last().len() && #[trigger] jobs.drop_last()[k].id@ == id;
            assert(jobs[k].id@ == id);
        }
        if exists|k: int| 0 <= k < jobs.len() && #[trigger] jobs[k].id@ == id {
            let k = choose|k: int| 0 <= k < jobs.len() && #[trigger] jobs[k].id@ == id;
            if k < jobs.len() - 1 {
                assert(jobs.drop_last()[k].id@ == id);
            }
        }
    }
}

/// Removes the jobs whose id is `id`; says whether any was there.
pub fn remove_job(jobs: &mut Vec<CronJob>, id: &str) -> (removed: bool)
    ensures
        final(jobs)@ == without_id(old(jobs)@, id@),
        removed <==> exists|k: int| 0 <= k < old(jobs)@.len() && #[trigger] old(jobs)@[k].id@ == id@,
{
    let ghost orig = jobs@;
    let idc = chars_of(id);
    let mut kept: Vec<CronJob> = Vec::new();
    let mut i: usize = 0;
    assert(orig.take(0) =~= Seq::<CronJob>::empty());
    while i < jobs.len()
        invariant
            i <= jobs.len(),
            jobs@ == orig,
            idc@ == id@,
            kept@ == without_id(orig.take(i as int), id@),
        decreases jobs.len() - i,
    {
        let c = chars_of(jobs[i].id.as_str());
        proof {
            assert(orig.take(i + 1).drop_last() =~= orig.take(i as int));
            assert(orig.take(i + 1).last() == orig[i as int]);
        }
        if !chars_eq(c.as_slice(), idc.as_slice()) {
            kept.push(copy_job(&jobs[i]));
        }
        i = i + 1;
    }
    assert(orig.take(orig.len() as int) =~= orig);
    let before = jobs.len();
    proof {
        lemma_without_id_len(orig, id@);
    }
    *jobs = kept;
    jobs.len() < before
}

/// Division rounding toward zero, as Rust's `/` on integers.
pub open spec fn trunc_div(a: int, d: int) -> int {
    if a >= 0 {
        a / d
    } else {
        -((-a) / d)
    }
}

fn div_1000_toward_zero(a: i64) -> (q: i64)
    ensures
        q == trunc_div(a as int, 1000),
{
    if a >= 0 {
        ((a as u64) / 1000) as i64
    } else {
        let m: u128 = (-(a as i128)) as u128;
        let q: u128 = m / 1000;
        assert(q <= 0x8000_0000_0000_0000u128) by (nonlinear_arith)
            requires
                m <= 0x8000_0000_0000_0000u128,
                q == m / 1000,
        ;
        -(q as i128) as i64
    }
}

/// How the job list shows a schedule.
pub open spec fn schedule_text_spec(s: JobSchedule) -> Seq<char> {
    match s.kind {
        ScheduleKind::At => "at: "@ + signed_decimal_spec(match s.at_ms {
            Some(a) => a as int,
            None => 0,
        }),
        ScheduleKind::Every => "every: "@ + signed_decimal_spec(
            trunc_div(
                match s.every_ms {
                    Some(e) => e as int,
                    None => 0,
                },
                1000,
            ),
        ) + "s"@,
        ScheduleKind::Cron => "cron: "@ + opt_or(s.expr, "-"@),
    }
}

pub fn schedule_text(s: &JobSchedule) -> (r: String)
    ensures
        r@ == schedule_text_spec(*s),
{
    match s.kind {
        ScheduleKind::At => {
            let a = match s.at_ms {
                Some(a) => a,
                None => 0,
            };
            let d = string_from_chars(i64_decimal_chars(a).as_slice());
            str_concat("at: ", d.as_str())
        },
        ScheduleKind::Every => {
            let e = match s.every_ms {
                Some(e) => e,
                None => 0,
            };
            let d = string_from_chars(i64_decimal_chars(div_1000_toward_zero(e)).as_slice());
            let a = str_concat("every: ", d.as_str());
            str_concat(a.as_str(), "s")
        },
        ScheduleKind::Cron => {
            let x = opt_or_exec(&s.expr, "-");
            str_concat("cron: ", x.as_str())
        },
    }
}

/// A name cut to `max_chars` characters for the job list: kept whole when it
/// fits, else its first `max_chars - 3` characters and `...`.
pub open spec fn truncate_spec(s: Seq<char>, max_chars: nat) -> Seq<char> {
    if s.len() <= max_chars {
        s
    } else {
        s.take(if max_chars >= 3 { max_chars - 3 } else { 0 }) + "..."@
    }
}

pub fn truncate(s: &str, max_chars: usize) -> (r: String)
    ensures
        r@ == truncate_spec(s@, max_chars as nat),
{
    let v = chars_of(s);
    if v.len() <= max_chars {
        return string_from_chars(v.as_slice());
    }
    let keep = if max_chars >= 3 { max_chars - 3 } else { 0 };
    let head = take_chars(s, keep);
    str_concat(head.as_str(), "...")
}

/// The instant an RFC 3339 timestamp denotes, in milliseconds since the Unix
/// epoch; `None` when the text is not RFC 3339.
pub uninterp spec fn rfc3339_millis_of(s: Seq<char>) -> Option<i64>;

/// `chrono::DateTime::parse_from_rfc3339` and `timestamp_millis`: named, the
/// result depends on the text alone.
#[verifier::external_body]
fn rfc3339_millis(s: &str) -> (r: Option<i64>)
    ensures
        r == rfc3339_millis_of(s@),
{
    chrono::DateTime::parse_from_rfc3339(s).ok().map(|dt| dt.timestamp_millis())
}

/// The schedule the `cron add` command builds: every so many seconds, else a
/// cron expression, else a time (now, when it does not parse).
pub fn build_schedule(every_secs: Option<u64>, cron_expr: Option<String>, at: Option<String>, now_ms: i64) -> (r: Result<JobSchedule, String>)
    requires
        every_secs matches Some(s) ==> s * 1000 <= u64::MAX,
    ensures
        every_secs matches Some(secs) ==> (r matches Ok(s) && s.kind == ScheduleKind::Every
            && s.every_ms == Some(((secs * 1000) as u64) as i64) && s.at_ms is None && s.expr is None
            && s.tz is None),
        (every_secs is None && cron_expr is Some) ==> (r matches Ok(s) && s.kind == ScheduleKind::Cron
            && s.expr == cron_expr && s.at_ms is None && s.every_ms is None && s.tz is None),
        (every_secs is None && cron_expr is None && at is Some) ==> (r matches Ok(s) && s.kind
            == ScheduleKind::At && s.at_ms == Some(
            match rfc3339_millis_of(at->0@) {
                Some(t) => t,
                None => now_ms,
            },
        ) && s.every_ms is None && s.expr is None && s.tz is None),
        (every_secs is None && cron_expr is None && at is None) ==> (r matches Err(e) && e@
            == "Must specify --every, --cron, or --at"@),
{
    match every_secs {
        Some(secs) => {
            return Ok(JobSchedule {
                kind: ScheduleKind::Every,
                at_ms: None,
                every_ms: Some((secs * 1000) as i64),
                expr: None,
                tz: None,
            });
        },
        None => {},
    }
    match cron_expr {
        Some(expr) => {
            return Ok(JobSchedule {
                kind: ScheduleKind::Cron,
                at_ms: None,
                every_ms: None,
                expr: Some(expr),
                tz: None,
            });
        },
        None => {},
    }
    match at {
        Some(a) => {
            let t = match rfc3339_millis(a.as_str()) {
                Some(t) => t,
                None => now_ms,
            };
            Ok(JobSchedule { kind: ScheduleKind::At, at_ms: Some(t), every_ms: None, expr: None, tz: None })
        },
        None => Err("Must specify --every, --cron, or --at".to_owned()),
    }
}

/// The enabled reminder job the `cron add` command creates.
pub fn new_reminder_job(
    id: String,
    name: String,
    message: String,
    schedule: JobSchedule,
    deliver: bool,
    to: Option<String>,
    channel: Option<String>,
    now_ms: i64,
) -> (j: CronJob)
    ensures
        j.id == id && j.name == name && j.enabled && j.schedule == schedule,
        j.payload.kind@ == "reminder"@ && j.payload.message == message && j.payload.deliver == deliver,
        j.payload.channel == channel && j.payload.to == to,
        j.payload.script_kind is None && j.payload.skill_name is None,
        j.state.next_run_at_ms is None && j.state.last_run_at_ms is None,
        j.created_at_ms == now_ms && j.updated_at_ms == now_ms && !j.delete_after_run,
{
    CronJob {
        id,
        name,
        enabled: true,
        schedule,
        payload: JobPayload {
            kind: "reminder".to_owned(),
            message,
            deliver,
            channel,
            to,
            script_kind: None,
            skill_name: None,
        },
        state: JobState::default(),
        created_at_ms: now_ms,
        updated_at_ms: now_ms,
        delete_after_run: false,
    }
}

} // verus!
