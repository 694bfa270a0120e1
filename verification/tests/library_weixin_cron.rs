use blockcell::cron::{
    begin_job_run, build_schedule, cron_event_plan, cron_send_outcome, job_message, new_reminder_job, remove_job, route_agent_id, run_tick,
    schedule_text, truncate, update_job_enabled, CronJob, CronMessageKind, CronStage, JobSchedule, JobStore,
    ScheduleKind,
};
use blockcell::heartbeat::{is_heartbeat_content_empty, HEARTBEAT_PROMPT};
use blockcell::system_event::EventPriority;
use blockcell::weixin::{
    format_client_id, handle_message, is_allowed, login_status_from_reply, qrcode_from_reply, send_chunks,
    split_message, uin_for, weixin_content, PollAction, PollOutcome, WeixinItem, WeixinMessage, WeixinPoller,
    BACKOFF_DELAY_MS, RETRY_DELAY_MS,
};

#[test]
fn split_message_cuts_after_last_newline_that_fits() {
    assert_eq!(split_message("aaaa\nbbbb", 6), vec!["aaaa\n".to_string(), "bbbb".to_string()]);
}

#[test]
fn split_message_keeps_oversized_character_whole() {
    assert_eq!(split_message("😀😀", 2), vec!["😀".to_string(), "😀".to_string()]);
}

#[test]
fn split_message_of_empty_text_is_one_empty_chunk() {
    assert_eq!(split_message("", 5), vec![String::new()]);
}

#[test]
fn split_message_chunks_rejoin_and_fit() {
    let text = "héllo wörld\nsecond line with ümlauts\nthird";
    for max in 4..40 {
        let chunks = split_message(text, max);
        assert_eq!(chunks.concat(), text);
        for c in &chunks {
            assert!(c.len() <= max);
            assert!(!c.is_empty());
        }
    }
}

#[test]
fn uin_is_base64_of_decimal_digits() {
    assert_eq!(uin_for(123), "MTIz");
    assert_eq!(uin_for(0), "MA==");
}

#[test]
fn client_id_has_timestamp_and_padded_hex() {
    assert_eq!(format_client_id(5, 255), "wcc-5-000000ff");
    assert_eq!(format_client_id(1700000000000, 0xdeadbeef), "wcc-1700000000000-deadbeef");
}

fn item(t: i32, text: Option<&str>, voice: Option<&str>, title: Option<&str>) -> WeixinItem {
    WeixinItem {
        item_type: t,
        text: text.map(str::to_string),
        voice_text: voice.map(str::to_string),
        ref_title: title.map(str::to_string),
    }
}

#[test]
fn weixin_content_marks_voice_and_quotes() {
    let items = vec![
        item(1, Some("hi"), None, None),
        item(3, None, Some("yo"), None),
        item(2, Some("ignored"), None, Some("t")),
        item(1, Some(""), None, Some("")),
    ];
    assert_eq!(weixin_content(&items), "hi\n[语音] yo\n[引用] t");
}

#[test]
fn weixin_messages_from_unlisted_senders_or_empty_are_dropped() {
    let msg = WeixinMessage {
        message_type: 1,
        from_user_id: "wxid_a".to_string(),
        context_token: Some("ctx".to_string()),
        items: vec![item(1, Some("hello"), None, None)],
    };
    let allow = vec!["wxid_b".to_string()];
    assert!(handle_message(&allow, &msg).is_none());
    let inbound = handle_message(&[], &msg).unwrap();
    assert_eq!(inbound.sender_id, "wxid_a");
    assert_eq!(inbound.chat_id, "wxid_a");
    assert_eq!(inbound.content, "hello");
    assert_eq!(inbound.context_token, "ctx");
    let empty = WeixinMessage { items: vec![item(1, Some(""), None, None)], ..msg.clone() };
    assert!(handle_message(&[], &empty).is_none());
    assert!(is_allowed(&[], "anyone"));
    assert!(!is_allowed(&["*".to_string()], "anyone"));
}

#[test]
fn poller_backs_off_after_three_failures() {
    assert!(WeixinPoller::start("   ").is_none());
    let mut p = WeixinPoller::start("tok").unwrap();
    assert_eq!(p.step(PollOutcome::Failed), PollAction::RetryAfter(RETRY_DELAY_MS));
    assert_eq!(p.failures(), 1);
    assert_eq!(p.step(PollOutcome::Failed), PollAction::RetryAfter(RETRY_DELAY_MS));
    assert_eq!(p.step(PollOutcome::Failed), PollAction::RetryAfter(BACKOFF_DELAY_MS));
    assert_eq!(p.failures(), 0);
    assert_eq!(BACKOFF_DELAY_MS, 30000);
}

#[test]
fn poller_keeps_sync_buffer_and_checks_codes() {
    let mut p = WeixinPoller::start("tok").unwrap();
    let a = p.step(PollOutcome::Updates { ret: Some(0), errcode: None, sync_buf: Some("b1".to_string()) });
    assert_eq!(a, PollAction::Dispatch);
    assert_eq!(p.sync_buf(), "b1");
    let a = p.step(PollOutcome::Updates { ret: None, errcode: Some(7), sync_buf: Some(String::new()) });
    assert_eq!(a, PollAction::RetryAfter(RETRY_DELAY_MS));
    assert_eq!(p.sync_buf(), "b1");
    p.step(PollOutcome::Failed);
    p.step(PollOutcome::Updates { ret: Some(1), errcode: None, sync_buf: None });
    assert_eq!(p.failures(), 0);
}

#[test]
fn send_needs_a_token() {
    assert_eq!(send_chunks("", "hi"), Err("Weixin: token not configured".to_string()));
    assert_eq!(send_chunks("t", "hi"), Ok(vec!["hi".to_string()]));
}

#[test]
fn qrcode_reply_is_trimmed_and_checked() {
    let q = qrcode_from_reply(&Some(" code ".to_string()), &Some("img".to_string())).unwrap();
    assert_eq!(q.qrcode, "code");
    assert_eq!(q.qrcode_img_content, "img");
    let e = qrcode_from_reply(&Some("code".to_string()), &Some("  ".to_string())).err().unwrap();
    assert_eq!(e, "Weixin get_bot_qrcode returned an empty qrcode payload");
    assert!(qrcode_from_reply(&None, &Some("img".to_string())).is_err());
    let s = login_status_from_reply(None, Some("t".to_string()), None, None, None);
    assert_eq!(s.status, "unknown");
    assert_eq!(s.bot_token, Some("t".to_string()));
}

fn every_job(id: &str, every: i64) -> CronJob {
    let schedule = JobSchedule { kind: ScheduleKind::Every, at_ms: None, every_ms: Some(every), expr: None, tz: None };
    new_reminder_job(id.to_string(), format!("job {id}"), "ping".to_string(), schedule, false, None, None, 0)
}

fn at_job(id: &str, at: i64) -> CronJob {
    let schedule = JobSchedule { kind: ScheduleKind::At, at_ms: Some(at), every_ms: None, expr: None, tz: None };
    new_reminder_job(id.to_string(), format!("job {id}"), "ping".to_string(), schedule, false, None, None, 0)
}

#[test]
fn repeating_job_waits_a_full_period_first() {
    let mut jobs = vec![every_job("e1", 60_000)];
    let run = run_tick(&mut jobs, 1_000);
    assert!(run.is_empty());
    assert_eq!(jobs[0].state.next_run_at_ms, Some(61_000));
    let run = run_tick(&mut jobs, 61_000);
    assert_eq!(run.len(), 1);
    assert_eq!(run[0].state.next_run_at_ms, Some(61_000));
    assert_eq!(jobs[0].state.last_run_at_ms, Some(61_000));
    assert_eq!(jobs[0].state.next_run_at_ms, Some(121_000));
}

#[test]
fn one_time_job_runs_once_then_is_disabled() {
    let mut jobs = vec![at_job("a1", 500)];
    let run = run_tick(&mut jobs, 1_000);
    assert_eq!(run.len(), 1);
    assert!(!jobs[0].enabled);
    assert_eq!(jobs[0].state.next_run_at_ms, None);
    assert!(run_tick(&mut jobs, 2_000).is_empty());
    let mut future = vec![at_job("a2", 5_000)];
    assert!(run_tick(&mut future, 1_000).is_empty());
    assert_eq!(future[0].state.next_run_at_ms, Some(5_000));
}

#[test]
fn delete_after_run_jobs_leave_the_store() {
    let mut a = at_job("a1", 500);
    a.delete_after_run = true;
    let mut e = every_job("e1", 1000);
    e.delete_after_run = true;
    e.state.next_run_at_ms = Some(900);
    let mut jobs = vec![a, e, every_job("keep", 10)];
    let run = run_tick(&mut jobs, 1_000);
    assert_eq!(run.len(), 2);
    assert_eq!(jobs.len(), 1);
    assert_eq!(jobs[0].id, "keep");
}

#[test]
fn cron_job_gets_its_next_fire_time() {
    let schedule = JobSchedule {
        kind: ScheduleKind::Cron,
        at_ms: None,
        every_ms: None,
        expr: Some("0 * * * * *".to_string()),
        tz: None,
    };
    let job = new_reminder_job("c1".to_string(), "c".to_string(), "m".to_string(), schedule, false, None, None, 0);
    let mut jobs = vec![job];
    assert!(run_tick(&mut jobs, 0).is_empty());
    let next = jobs[0].state.next_run_at_ms.unwrap();
    assert!(next > 0);
    assert_eq!(next % 60_000, 0);
}

#[test]
fn job_store_defaults_to_version_one() {
    let s = JobStore::default();
    assert_eq!(s.version, 1);
    assert!(s.jobs.is_empty());
}

#[test]
fn enabling_by_prefix() {
    let mut jobs = vec![every_job("abc123", 10), every_job("abd456", 10), every_job("xyz", 10)];
    let r = update_job_enabled(&mut jobs, "ab", false, 99);
    assert_eq!(r, Err("Multiple jobs match 'ab': abc123 (job abc123), abd456 (job abd456)".to_string()));
    assert!(jobs[0].enabled);
    let r = update_job_enabled(&mut jobs, "abc", false, 99);
    assert_eq!(r, Ok(Some("job abc123".to_string())));
    assert!(!jobs[0].enabled);
    assert_eq!(jobs[0].updated_at_ms, 99);
    assert_eq!(update_job_enabled(&mut jobs, "q", true, 5), Ok(None));
}

#[test]
fn removing_a_job_by_id() {
    let mut jobs = vec![every_job("a", 10), every_job("b", 10)];
    assert!(remove_job(&mut jobs, "a"));
    assert_eq!(jobs.len(), 1);
    assert!(!remove_job(&mut jobs, "a"));
}

#[test]
fn schedules_as_listed() {
    let at = JobSchedule { kind: ScheduleKind::At, at_ms: Some(5), every_ms: None, expr: None, tz: None };
    assert_eq!(schedule_text(&at), "at: 5");
    let every = JobSchedule { kind: ScheduleKind::Every, at_ms: None, every_ms: Some(90_500), expr: None, tz: None };
    assert_eq!(schedule_text(&every), "every: 90s");
    let neg = JobSchedule { kind: ScheduleKind::Every, at_ms: None, every_ms: Some(-1_500), expr: None, tz: None };
    assert_eq!(schedule_text(&neg), "every: -1s");
    let cron = JobSchedule { kind: ScheduleKind::Cron, at_ms: None, every_ms: None, expr: None, tz: None };
    assert_eq!(schedule_text(&cron), "cron: -");
    assert_eq!(truncate("abcdefghij", 5), "ab...");
    assert_eq!(truncate("abc", 5), "abc");
    assert_eq!(truncate("abcdef", 2), "...");
}

#[test]
fn building_schedules() {
    let s = build_schedule(Some(2), Some("x".to_string()), None, 7).unwrap();
    assert_eq!(s.kind, ScheduleKind::Every);
    assert_eq!(s.every_ms, Some(2000));
    let s = build_schedule(None, Some("0 * * * * *".to_string()), None, 7).unwrap();
    assert_eq!(s.kind, ScheduleKind::Cron);
    let s = build_schedule(None, None, Some("2024-01-01T00:00:00Z".to_string()), 7).unwrap();
    assert_eq!(s.at_ms, Some(1_704_067_200_000));
    let s = build_schedule(None, None, Some("bad".to_string()), 7).unwrap();
    assert_eq!(s.at_ms, Some(7));
    assert_eq!(build_schedule(None, None, None, 7).err(), Some("Must specify --every, --cron, or --at".to_string()));
}

#[test]
fn job_messages_by_payload_kind() {
    let job = every_job("j1", 10);
    let d = job_message(&job, Some(" ops ")).unwrap();
    assert_eq!(d.content, "ping");
    assert_eq!(d.chat_id, "j1");
    assert_eq!(d.channel, "cron");
    assert_eq!(d.sender_id, "cron");
    assert_eq!(d.route_agent_id, Some("ops".to_string()));
    let mut script = every_job("j2", 10);
    script.payload.kind = "script".to_string();
    script.payload.skill_name = Some("s1".to_string());
    script.payload.message = "msg".to_string();
    let d = job_message(&script, None).unwrap();
    assert_eq!(d.content, "[系统定时任务] 执行技能脚本 s1 — msg");
    match d.kind {
        CronMessageKind::Script { script_kind, skill_name } => {
            assert_eq!(script_kind, "rhai");
            assert_eq!(skill_name, "s1");
        }
        _ => panic!("expected a script message"),
    }
    let mut other = every_job("j3", 10);
    other.payload.kind = "webhook".to_string();
    assert!(job_message(&other, None).is_none());
    assert_eq!(route_agent_id(None), None);
}

#[test]
fn cron_events_per_stage() {
    let p = cron_event_plan(CronStage::Started, "n", "");
    assert_eq!(p.kind, "cron.job_started");
    assert_eq!(p.summary, "定时任务 n 已开始执行");
    let p = cron_event_plan(CronStage::Failed, "n", "boom");
    assert_eq!(p.kind, "cron.job_failed");
    assert_eq!(p.priority, EventPriority::Critical);
    assert_eq!(p.summary, "定时任务 n 派发失败：boom");
    assert!(p.delivery.immediate);
    let p = cron_event_plan(CronStage::Completed, "n", "");
    assert_eq!(p.title, "定时任务已派发");
    assert!(!p.delivery.immediate);
}

#[test]
fn heartbeat_file_with_only_filler_is_empty() {
    assert!(is_heartbeat_content_empty(""));
    assert!(is_heartbeat_content_empty("# Title\n\n- [ ]\n<!-- note -->\n- [x]\r\n"));
    assert!(!is_heartbeat_content_empty("# Title\nWater the plants"));
    assert!(!is_heartbeat_content_empty("<!-- open comment"));
    assert!(HEARTBEAT_PROMPT.ends_with("HEARTBEAT_OK"));
}

#[test]
fn cron_run_started_then_outcome() {
    let job = every_job("job-1", 10);
    let start = begin_job_run(&job, None);
    assert_eq!(start.started.kind, "cron.job_started");
    let d = start.dispatch.unwrap();
    assert_eq!((d.channel.as_str(), d.sender_id.as_str(), d.chat_id.as_str()), ("cron", "cron", "job-1"));
    assert_eq!(d.content, "ping");
    let done = cron_send_outcome(&job.name, Ok(()));
    assert_eq!(done.kind, "cron.job_completed");
    assert_eq!(done.priority, EventPriority::Normal);
    let failed = cron_send_outcome(&job.name, Err("channel closed".to_string()));
    assert_eq!(failed.kind, "cron.job_failed");
    assert_eq!(failed.priority, EventPriority::Critical);
    assert!(failed.delivery.immediate);
    assert_eq!(failed.summary, format!("定时任务 {} 派发失败：channel closed", job.name));
    let mut other = every_job("job-2", 10);
    other.payload.kind = "webhook".to_string();
    let start = begin_job_run(&other, None);
    assert_eq!(start.started.kind, "cron.job_started");
    assert!(start.dispatch.is_none());
}
