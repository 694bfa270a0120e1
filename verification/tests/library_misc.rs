use std::collections::HashSet;

use blockcell::agent::{truncate_chars, PromptSkillExecutor, SkillSummaryFormatter};
use blockcell::commands::{
    channel_line, doctor_verdict, is_supported_owner_channel, job_list_line, login_step, memory_db_detail,
    minute_text, next_run_text, owner_account, tally_line, unsupported_channel_message, version_summary, LoginAction,
    LoginEvent,
};
use blockcell::orchestrator::{plan_tick, tick_decision, SystemEventOrchestrator};
use blockcell::skills::{
    is_learned_status, learned_note, learning_note, learning_status, parse_meta_yaml, select_available,
    skill_query, MetaValue, SkillDirEntry, SkillQuery,
};
use blockcell::sorting::stable_order;
use blockcell::system_event::{
    EventPriority, SessionSummary, SummaryCategory, SummaryItem, SummaryScope, SystemEvent,
};
use blockcell::tap::log_json_lines;
use blockcell::updater::{
    backup_name, backups_to_remove, check_binary, failed_backup_name, is_restorable_backup_name, no_backup_error,
    Artifact, AtomicSwitcher, BinaryPlatform, MaintenanceWindow, Manifest, UpdateErrorKind,
};

#[test]
fn prompt_skills_get_available_unblocked_tools_sorted_once() {
    let available: HashSet<String> = ["a", "b", "spawn"].iter().map(|s| s.to_string()).collect();
    let tools: Vec<String> = ["b", "a", "spawn", "b", "c"].iter().map(|s| s.to_string()).collect();
    assert_eq!(PromptSkillExecutor::resolve_allowed_tool_names(&tools, &available), vec!["a".to_string(), "b".to_string()]);
    assert!(PromptSkillExecutor::is_blocked_tool("spawn"));
    assert!(!PromptSkillExecutor::is_tool_allowed("spawn", &available));
    assert!(PromptSkillExecutor::is_tool_allowed("a", &available));
    assert!(!PromptSkillExecutor::is_tool_allowed("c", &available));
}

#[test]
fn summary_prompt_layout() {
    assert_eq!(
        SkillSummaryFormatter::build_prompt("Q", "S", Some("m"), "md", "res"),
        "用户问题：Q\n技能：S\n方法：m\n\n技能说明摘要：\nmd\n\n执行结果：\nres"
    );
    assert_eq!(
        SkillSummaryFormatter::build_prompt("Q", "S", Some("  "), "md", "res"),
        "用户问题：Q\n技能：S\n\n技能说明摘要：\nmd\n\n执行结果：\nres"
    );
    let long = "x".repeat(5000);
    let p = SkillSummaryFormatter::build_prompt("Q", "S", None, &long, &long);
    assert_eq!(p.chars().filter(|c| *c == 'x').count(), 1200 + 4000);
    assert_eq!(truncate_chars("abcdef", 3), "abc");
}

fn artifact(os: &str, arch: &str, url: &str) -> Artifact {
    Artifact { os: os.to_string(), arch: arch.to_string(), url: url.to_string(), sha256: String::new(), sig: None }
}

#[test]
fn manifest_picks_first_matching_artifact() {
    let m = Manifest {
        channel: "stable".to_string(),
        version: "1.0".to_string(),
        published_at: String::new(),
        artifacts: vec![artifact("linux", "arm64", "u1"), artifact("linux", "x86_64", "u2"), artifact("linux", "x86_64", "u3")],
        min_host_version: None,
        notes: String::new(),
    };
    assert_eq!(m.get_artifact("linux", "x86_64").unwrap().url, "u2");
    assert!(m.get_artifact("macos", "x86_64").is_none());
}

#[test]
fn binaries_are_checked() {
    let elf = [0x7f, b'E', b'L', b'F'];
    let linux = BinaryPlatform::Linux;
    let mac = BinaryPlatform::MacOs;
    let win = BinaryPlatform::Windows;
    assert_eq!(check_binary(linux, false, 0, &elf).err().unwrap().kind, UpdateErrorKind::NotFound);
    assert_eq!(check_binary(linux, true, 10, &elf).err().unwrap().message, "Binary too small");
    assert_eq!(check_binary(linux, true, 2 << 20, b"MZ\0\0").err().unwrap().message, "Not a valid ELF binary");
    assert!(check_binary(linux, true, 2 << 20, &elf).is_ok());
    for m in [[0xcf, 0xfa, 0xed, 0xfe], [0xce, 0xfa, 0xed, 0xfe], [0xfe, 0xed, 0xfa, 0xcf], [0xfe, 0xed, 0xfa, 0xce], [0xca, 0xfe, 0xba, 0xbe]] {
        assert!(check_binary(mac, true, 2 << 20, &m).is_ok());
    }
    assert_eq!(check_binary(mac, true, 2 << 20, &elf).err().unwrap().message, "Not a valid Mach-O binary");
    assert!(check_binary(win, true, 2 << 20, b"MZ\x90\0").is_ok());
    assert_eq!(check_binary(win, true, 2 << 20, &elf).err().unwrap().message, "Not a valid PE binary");
    assert_eq!(check_binary(win, true, 10, b"MZ\x90\0").err().unwrap().kind, UpdateErrorKind::Validation);
    assert!(check_binary(BinaryPlatform::Other, true, 2 << 20, &elf).is_ok());
}

#[test]
fn backups_are_named_and_pruned() {
    assert_eq!(backup_name("1.2", 7), "blockcell-1.2-7");
    assert_eq!(failed_backup_name(9), "blockcell-failed-9");
    assert!(is_restorable_backup_name("blockcell-1.2-7"));
    assert!(!is_restorable_backup_name("blockcell-failed-9"));
    assert!(!is_restorable_backup_name("other"));
    assert_eq!(backups_to_remove(7, 5), 2);
    assert_eq!(backups_to_remove(3, 5), 0);
    assert_eq!(no_backup_error().message, "No backup found for rollback");
    assert_eq!(AtomicSwitcher::new("/opt/bc".to_string()).backup_dir, "/opt/bc/backups");
}

#[test]
fn maintenance_windows() {
    let w = MaintenanceWindow::new("03:00-05:00".to_string());
    assert!(w.is_in_window_at((4, 0)));
    assert!(w.is_in_window_at((3, 0)));
    assert!(!w.is_in_window_at((5, 0)));
    let night = MaintenanceWindow::new("22:00-02:00".to_string());
    assert!(night.is_in_window_at((23, 0)));
    assert!(night.is_in_window_at((1, 59)));
    assert!(!night.is_in_window_at((2, 0)));
    assert!(!night.is_in_window_at((12, 0)));
    assert!(MaintenanceWindow::new(String::new()).is_in_window_at((12, 0)));
    assert!(MaintenanceWindow::new(String::new()).is_in_window());
    assert!(!MaintenanceWindow::new("bad".to_string()).is_in_window_at((12, 0)));
    assert!(!MaintenanceWindow::new("03:00-25:00".to_string()).is_in_window_at((4, 0)));
    assert_eq!(w.parse_time(" 3 : 7 "), Some((3, 7)));
    assert_eq!(w.parse_time("+3:07"), Some((3, 7)));
    assert_eq!(w.parse_time("3:07:00"), None);
    assert_eq!(w.parse_time("-1:00"), None);
}

fn event(priority: EventPriority) -> SystemEvent {
    SystemEvent::new_main_session("k", "s", priority, "t", "sum")
}

#[test]
fn ticks_acknowledge_everything_and_notify_critical() {
    let mut quiet = event(EventPriority::High);
    quiet.delivery.notify_user = false;
    let mut immediate = event(EventPriority::Normal);
    immediate.delivery.immediate = true;
    let events = vec![event(EventPriority::Low), event(EventPriority::Critical), quiet, immediate, event(EventPriority::Normal)];
    let plan = plan_tick(&events);
    assert_eq!(plan.ack_event_ids.len(), 5);
    assert_eq!(plan.ack_event_ids[1], events[1].id);
    assert_eq!(plan.immediate_notifications.len(), 2);
    assert_eq!(plan.immediate_notifications[0].event_id, events[1].id);
    assert_eq!(plan.immediate_notifications[0].body, "sum");
    assert_eq!(plan.summarize, vec![1, 3, 4]);
    let item = |id: &str| SummaryItem {
        id: id.to_string(),
        scope: SummaryScope::MainSession,
        category: SummaryCategory::System,
        title: "t".to_string(),
        body: "b".to_string(),
        source_event_ids: vec![],
        created_at_ms: 0,
        priority: EventPriority::Normal,
        merge_key: None,
    };
    let flushed = SessionSummary { title: "s".to_string(), items: vec![], compact_text: String::new() };
    let d = tick_decision(&events, vec![item("i1"), item("i3"), item("i4")], Some(flushed));
    assert_eq!(d.ack_event_ids.len(), 5);
    assert_eq!(d.immediate_notifications.len(), 2);
    assert_eq!(d.summary_updates.len(), 3);
    assert_eq!(d.summary_updates[1].event_id, events[3].id);
    assert_eq!(d.summary_updates[1].item.id, "i3");
    assert_eq!(d.flushed_summaries.len(), 1);
    assert!(d.emitted_events.is_empty());
    let d = tick_decision(&events[..1], vec![], None);
    assert_eq!(d.ack_event_ids, vec![events[0].id.clone()]);
    assert!(d.flushed_summaries.is_empty() && d.summary_updates.is_empty() && d.immediate_notifications.is_empty());
    let o = SystemEventOrchestrator::new(1u8, "q");
    assert_eq!(*o.store(), 1);
    assert_eq!(*o.queue(), "q");
}

#[test]
fn skill_listing_rules() {
    assert_eq!(skill_query(Some("learned")), SkillQuery::Learned);
    assert_eq!(skill_query(Some("nope")), SkillQuery::All);
    assert_eq!(skill_query(None), SkillQuery::All);
    assert_eq!(learning_status("Testing"), Some("正在编译检查"));
    assert_eq!(learning_status("RollingOut"), Some("已部署，观察窗口中"));
    assert_eq!(learning_status("Completed"), None);
    assert!(is_learned_status("Completed"));
    assert_eq!(learning_note(false), "以下技能正在学习改进中。");
    assert_eq!(learned_note(false), "以下技能已通过自进化学会。");
    let e = |n: &str, rhai: bool, py: bool, md: bool| SkillDirEntry { name: n.to_string(), has_rhai: rhai, has_py: py, has_md: md };
    let entries = vec![e("A", true, false, false), e("B", false, false, false), e("A", false, true, false), e("B", false, false, true), e("C", false, false, true)];
    assert_eq!(select_available(&entries), vec![0, 4]);
}

#[test]
fn meta_yaml_lines() {
    let entries = parse_meta_yaml("name: a\ndescription: x: y\nalways: true\nname: b\nnocolon\nhidden: false");
    let get = |k: &str| entries.iter().find(|e| e.key == k).map(|e| e.value.clone());
    assert_eq!(entries.len(), 4);
    match get("name") {
        Some(MetaValue::Text(s)) => assert_eq!(s, "b"),
        other => panic!("unexpected {:?}", other),
    }
    match get("description") {
        Some(MetaValue::Text(s)) => assert_eq!(s, "x: y"),
        other => panic!("unexpected {:?}", other),
    }
    assert!(matches!(get("always"), Some(MetaValue::Bool(true))));
    assert!(matches!(get("hidden"), Some(MetaValue::Bool(false))));
    assert!(parse_meta_yaml("").is_empty());
}

#[test]
fn stable_orders() {
    assert_eq!(stable_order(&[3, 1, 3, 2], false), vec![1, 3, 0, 2]);
    assert_eq!(stable_order(&[3, 1, 3, 2], true), vec![0, 2, 3, 1]);
    assert!(stable_order(&[], true).is_empty());
}

#[test]
fn owners_and_login() {
    assert!(is_supported_owner_channel("qq"));
    assert!(is_supported_owner_channel("weixin"));
    assert!(!is_supported_owner_channel("irc"));
    assert_eq!(unsupported_channel_message("irc"), "Unsupported channel 'irc'");
    assert_eq!(owner_account(Some("  a ")), Some("a".to_string()));
    assert_eq!(owner_account(Some("  ")), None);
    let status = |s: &str, t: Option<&str>| LoginEvent::Status { status: s.to_string(), bot_token: t.map(str::to_string) };
    assert!(matches!(login_step(0, status("wait", None)), (0, LoginAction::Poll(None))));
    assert!(matches!(login_step(0, status("scaned", None)), (0, LoginAction::Poll(Some(_)))));
    match login_step(1, status("confirmed", Some("tok"))) {
        (1, LoginAction::Save(t)) => assert_eq!(t, "tok"),
        other => panic!("unexpected {:?}", other),
    }
    assert!(matches!(login_step(1, status("confirmed", None)), (1, LoginAction::Fail(_))));
    assert!(matches!(login_step(0, status("expired", None)), (1, LoginAction::Refresh(Some(_)))));
    match login_step(2, LoginEvent::TimedOut) {
        (3, LoginAction::Fail(m)) => assert_eq!(m, "Weixin 二维码已过期次数过多，请稍后重试"),
        other => panic!("unexpected {:?}", other),
    }
    match login_step(0, status("foo", None)) {
        (0, LoginAction::Poll(Some(m))) => assert_eq!(m, "当前状态：foo"),
        other => panic!("unexpected {:?}", other),
    }
}

#[test]
fn doctor_report_lines() {
    assert_eq!(channel_line("qq", true, true), "  ✅ qq           enabled");
    assert_eq!(channel_line("telegram", false, true), "  ⚪ telegram     configured (not enabled)");
    assert_eq!(channel_line("a-very-long-name", false, false), "  ⚪ a-very-long-name not configured");
    assert_eq!(version_summary("rustc 1.80.0 (x)\nmore"), "rustc 1.80.0 (x)");
    assert_eq!(version_summary(&"v".repeat(50)), "v".repeat(40));
    assert_eq!(version_summary(""), "");
    assert_eq!(doctor_verdict(2, 0), "  2 error(s) must be fixed before normal use.");
    assert_eq!(doctor_verdict(0, 1), "  Core features OK. Some optional features not ready.");
    assert_eq!(doctor_verdict(0, 0), "  🎉 All good!");
    assert_eq!(tally_line(3, 1, 0), "  ✅ 3 passed  ⚠️  1 warnings  ❌ 0 errors");
    assert_eq!(memory_db_detail("/m.db", 4096), "/m.db (4 KB)");
    assert_eq!(
        job_list_line("abcdefghij", "name", true, "-", "every: 60s"),
        "abcdefgh name                 yes        -                    every: 60s"
    );
    assert_eq!(next_run_text(None), "-");
    assert_eq!(next_run_text(Some(0)), "1970-01-01 00:00");
    assert_eq!(next_run_text(Some(i64::MAX)), "invalid");
    assert_eq!(next_run_text(Some(1_704_067_200_000)), "2024-01-01 00:00");
    assert_eq!(next_run_text(Some(-1)), "1969-12-31 23:59");
    assert_eq!(next_run_text(Some(253_402_300_800_000)), "+10000-01-01 00:00");
    assert_eq!(minute_text((2024, 3, 5, 7, 9)), "2024-03-05 07:09");
    assert_eq!(minute_text((5, 11, 30, 12, 45)), "0005-11-30 12:45");
    assert_eq!(minute_text((-1, 1, 1, 0, 0)), "-0001-01-01 00:00");
    assert_eq!(minute_text((262143, 12, 31, 23, 59)), "+262143-12-31 23:59");
}

#[test]
fn tap_logs_json_lines_pretty() {
    assert_eq!(
        log_json_lines("REQ", "{\"a\":1}\nplain"),
        vec!["REQ: {\n  \"a\": 1\n}".to_string(), "REQ: plain".to_string()]
    );
    assert!(log_json_lines("RESP", "").is_empty());
}
