use blockcell::capability::{CapabilityDescriptor, CapabilityStatus, CapabilityType, PrivilegeLevel, ProviderKind, PACKAGE_VERSION};
use blockcell::commands::{err_line, ok_line, warn_line};
use blockcell::cron::{
    copy_job, matching_jobs, new_reminder_job, tick_job, JobSchedule, ScheduleKind,
};
use blockcell::numbers::{decimal_chars, hex8_chars, i64_decimal_chars, parse_uint};
use blockcell::qq::{AccessTokenResponse, CachedToken, QQDedupCache, QQResponse};
use blockcell::session_key::session_title_from_id;
use blockcell::system_event::new_event_id;
use blockcell::text::{replace_all, split_on_exec, take_chars, trim_str};
use blockcell::versioning::VersionManager;
use blockcell::exec_local::ExecLocalTool;
use blockcell::skills::ListSkillsTool;
use blockcell::web::{WebFetchTool, WebSearchTool};
use blockcell::web::{keep_browser_results, plain_text_body, validate_fetch, validate_search, SearchResult};
use blockcell::weixin::{fit_from, fits_in_bytes, is_handled_message_type};

fn chars(s: &str) -> Vec<char> {
    s.chars().collect()
}

fn text(v: Vec<char>) -> String {
    v.into_iter().collect()
}

#[test]
fn numbers_parse_and_print() {
    assert_eq!(parse_uint(&chars("7200"), u64::MAX), Some(7200));
    assert_eq!(parse_uint(&chars("+12"), u64::MAX), Some(12));
    assert_eq!(parse_uint(&chars(""), u64::MAX), None);
    assert_eq!(parse_uint(&chars("12a"), u64::MAX), None);
    assert_eq!(parse_uint(&chars("256"), 255), None);
    assert_eq!(text(decimal_chars(0)), "0");
    assert_eq!(text(decimal_chars(1234567890123)), "1234567890123");
    assert_eq!(text(i64_decimal_chars(-42)), "-42");
    assert_eq!(text(i64_decimal_chars(i64::MIN)), "-9223372036854775808");
    assert_eq!(text(hex8_chars(255)), "000000ff");
}

#[test]
fn text_helpers() {
    assert_eq!(text(trim_str("  a b \n")), "a b");
    assert_eq!(text(replace_all(&chars("/files/files"), &chars("/files"), &chars("/m"))), "/m/m");
    let parts: Vec<String> = split_on_exec(&chars("a,,b"), ',').into_iter().map(text).collect();
    assert_eq!(parts, vec!["a".to_string(), "".to_string(), "b".to_string()]);
    assert_eq!(take_chars("héllo", 2), "hé");
    assert_eq!(take_chars("hi", 5), "hi");
}

#[test]
fn qq_replies_tokens_and_duplicates() {
    let ok: QQResponse<u8> =
        QQResponse { code: 1, retcode: 0, msg: String::new(), message: "m".to_string(), data: None };
    assert!(ok.is_success());
    assert_eq!(ok.error_message(), "m");
    let bad: QQResponse<u8> =
        QQResponse { code: 2, retcode: 3, msg: String::new(), message: String::new(), data: None };
    assert!(!bad.is_success());
    assert_eq!(bad.error_message(), "unknown error");

    let reply = AccessTokenResponse {
        access_token: "a".to_string(),
        app_access_token: String::new(),
        expires_in: "not a number".to_string(),
    };
    assert_eq!(reply.token(), "a");
    assert_eq!(reply.expires_in_seconds(), 7200);

    let t = CachedToken { token: "t".to_string(), expires_at: 1000 };
    assert!(t.is_valid_at(699));
    assert!(!t.is_valid_at(700));
    assert!(!CachedToken { token: "t".to_string(), expires_at: 300 }.is_valid());

    let mut dedup = QQDedupCache::new();
    assert!(!dedup.is_duplicate("x"));
    assert!(dedup.is_duplicate("x"));
    assert!(!dedup.is_duplicate("y"));
}

#[test]
fn small_rules() {
    assert!(CapabilityStatus::Active.is_available());
    assert!(CapabilityStatus::Available.is_available());
    assert!(!CapabilityStatus::Unavailable { reason: "r".to_string() }.is_available());
    assert_eq!(ok_line("Config", ""), "  ✅ Config");
    assert_eq!(ok_line("Config", "here"), "  ✅ Config — here");
    assert_eq!(warn_line("Node", "optional"), "  ⚠️  Node — optional");
    assert_eq!(err_line("Key", ""), "  ❌ Key");
    assert_eq!(session_title_from_id("telegram_123"), "telegram:123");
    assert!(new_event_id().starts_with("evt_"));
    let id = new_event_id();
    assert_eq!(id.len(), 40);
    for (i, c) in id[4..].chars().enumerate() {
        if [8, 13, 18, 23].contains(&i) {
            assert_eq!(c, '-');
        } else {
            assert!(c.is_ascii_digit() || ('a'..='f').contains(&c));
        }
    }
    assert_eq!(&id[18..19], "4");
    assert!("89ab".contains(&id[23..24]));
    assert_ne!(new_event_id(), new_event_id());
    assert!(is_handled_message_type(1));
    assert!(!is_handled_message_type(2));
    let v = chars("a中b");
    assert!(fits_in_bytes(&v, 5));
    assert!(!fits_in_bytes(&v, 4));
    assert_eq!(fit_from(&v, 1, 3), 1);
    assert_eq!(fit_from(&v, 1, 2), 0);
    assert_eq!(
        VersionManager::new("/skills".to_string()).skill_dir("weather"),
        "/skills/weather"
    );
}

#[test]
fn search_parameters_and_browser_results() {
    assert!(validate_search(Some("q")).is_ok());
    assert_eq!(validate_search(None).err().unwrap().message, "Missing required parameter: query");
    assert!(validate_fetch(Some("https://example.com")).is_ok());
    assert!(validate_fetch(None).is_err());
    let found = vec![
        SearchResult { title: "A".to_string(), url: "u".to_string(), snippet: String::new() },
        SearchResult { title: String::new(), url: "v".to_string(), snippet: String::new() },
        SearchResult { title: "C".to_string(), url: String::new(), snippet: String::new() },
    ];
    assert_eq!(
        plain_text_body("text/html; charset=utf-8", "<html><body><main> Hello   <b>world</b> </main></body></html>".to_string()),
        "Hello world"
    );
    assert_eq!(plain_text_body("text/plain", "<b>raw</b>".to_string()), "<b>raw</b>");
    let kept = keep_browser_results(found);
    assert_eq!(kept.len(), 1);
    assert_eq!(kept[0].title, "A");
}

#[test]
fn one_job_tick_and_prefix_lookup() {
    let schedule = JobSchedule { kind: ScheduleKind::Every, at_ms: None, every_ms: Some(1000), expr: None, tz: None };
    let mut job = new_reminder_job(
        "abc123".to_string(),
        "n".to_string(),
        "m".to_string(),
        schedule,
        false,
        None,
        None,
        0,
    );
    // No next run yet: the first tick schedules one and does not run.
    assert!(tick_job(&mut job, 5000).is_none());
    assert_eq!(job.state.next_run_at_ms, Some(6000));
    let ran = tick_job(&mut job, 6000).unwrap();
    assert_eq!(ran.state.next_run_at_ms, Some(6000));
    assert_eq!(job.state.last_run_at_ms, Some(6000));
    assert_eq!(job.state.next_run_at_ms, Some(7000));
    let copy = copy_job(&job);
    assert_eq!(copy.id, job.id);
    let jobs = vec![job, copy];
    assert_eq!(matching_jobs(&jobs, "abc"), vec![0, 1]);
    assert!(matching_jobs(&jobs, "zz").is_empty());
}

#[test]
fn tool_schemas_are_json_objects() {
    let schemas = [ExecLocalTool.schema(), WebSearchTool.schema(), WebFetchTool.schema(), ListSkillsTool.schema()];
    let names: Vec<&str> = schemas.iter().map(|s| s.name.as_str()).collect();
    assert_eq!(names, vec!["exec_local", "web_search", "web_fetch", "list_skills"]);
    for s in &schemas {
        let v: serde_json::Value = serde_json::from_str(&s.parameters).unwrap();
        assert_eq!(v["type"], "object");
        assert!(!s.description.is_empty());
    }
    let exec: serde_json::Value = serde_json::from_str(&ExecLocalTool.schema().parameters).unwrap();
    assert_eq!(exec["required"][0], "path");
    assert_eq!(exec["properties"]["cwd_mode"]["enum"][0], "skill");
}

#[test]
fn capability_descriptor_defaults_and_builders() {
    let cap = CapabilityDescriptor::new("a.b", "A", "d", CapabilityType::System, ProviderKind::Process);
    assert_eq!(cap.privilege, PrivilegeLevel::ReadOnly);
    assert_eq!(cap.status, CapabilityStatus::Discovered);
    assert!(!cap.is_available());
    assert_eq!(cap.version, PACKAGE_VERSION);
    assert_eq!(cap.created_at, cap.updated_at);
    assert!(cap.metadata.is_empty() && cap.dependencies.is_empty() && cap.provider_path.is_none());
    let cap = cap.with_provider_path("/opt/cap.so").with_status(CapabilityStatus::Active);
    assert_eq!(cap.provider_path.as_deref(), Some("/opt/cap.so"));
    assert!(cap.is_available());
    assert_eq!(cap.id, "a.b");
}
