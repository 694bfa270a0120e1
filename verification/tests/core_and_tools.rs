use blockcell::cron::route_agent_id;
use blockcell::exec_local::{ExecLocalParams, ExecLocalTool};
use blockcell::system_event::{DeliveryPolicy, EventPriority, EventScope, SystemEvent};
use blockcell::web::{WebFetchTool, WebSearchTool};

#[test]
fn system_event_delivery_policy_helpers_have_expected_defaults() {
    let default_policy = DeliveryPolicy::default();
    assert!(!default_policy.immediate);
    assert!(default_policy.include_in_summary);
    assert!(default_policy.notify_user);
    assert!(default_policy.persist);
    assert_eq!(default_policy.max_delay_seconds, None);

    let critical = DeliveryPolicy::critical();
    assert!(critical.immediate);
    assert!(critical.include_in_summary);

    let silent = DeliveryPolicy::silent();
    assert!(!silent.immediate);
    assert!(!silent.include_in_summary);
    assert!(!silent.notify_user);
}

#[test]
fn system_event_new_main_session_helper_uses_main_session_defaults() {
    let event = SystemEvent::new_main_session(
        "task.completed",
        "task_manager",
        EventPriority::Normal,
        "Task finished",
        "Background task finished successfully",
    );

    assert_eq!(event.kind, "task.completed");
    assert_eq!(event.source, "task_manager");
    assert_eq!(event.scope, EventScope::MainSession);
    assert_eq!(event.priority, EventPriority::Normal);
    assert_eq!(event.title, "Task finished");
    assert_eq!(event.summary, "Background task finished successfully");
    assert!(event.delivery.include_in_summary);
    assert!(!event.delivered);
    assert!(!event.acked);
}

#[test]
fn test_apply_route_agent_id_inserts_metadata() {
    assert_eq!(route_agent_id(Some("ops")), Some("ops".to_string()));
}

#[test]
fn test_apply_route_agent_id_skips_empty_agent() {
    assert_eq!(route_agent_id(Some("   ")), None);
}

fn exec_params(path: &str, runner: &str) -> ExecLocalParams {
    ExecLocalParams {
        path: Some(path.to_string()),
        runner: Some(runner.to_string()),
        args: None,
        cwd_mode: None,
    }
}

#[test]
fn test_exec_local_allows_whitelisted_runners_only() {
    let tool = ExecLocalTool;
    assert!(tool.validate(&exec_params("scripts/run.py", "python3")).is_ok());
    assert!(tool.validate(&exec_params("scripts/run.py", "perl")).is_err());
}

#[test]
fn test_web_search_validate() {
    let tool = WebSearchTool;
    assert!(tool.validate(Some("rust lang")).is_ok());
    assert!(tool.validate(None).is_err());
}

#[test]
fn test_web_fetch_validate() {
    let tool = WebFetchTool;
    assert!(tool.validate(Some("https://example.com")).is_ok());
    assert!(tool.validate(None).is_err());
}
