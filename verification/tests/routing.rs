use pi_server::fork::ForkEntry;
use pi_server::manager::{Moment, PiSessionState, SessionActivity, SessionManager};
use pi_server::session::{ChatMessage, MessageContent};
use pi_server::routing::{
    allows_fallback, broker_action, broker_features, command_cwd, control_reply, default_is_switched_model, BrokerAction,
    ControlReply, fork_request, new_project_name, requested_model, state_update,
    ui_route, ForkRefusal, ForkSource, RpcTarget, StateReport, UiRoute,
};

fn at(ms: u64) -> Moment {
    Moment { mono_ms: ms, epoch_secs: ms / 1000 }
}

fn ids(v: &[&str]) -> Vec<String> {
    v.iter().map(|s| s.to_string()).collect()
}

fn set_activity(m: &mut SessionManager, id: &str, a: SessionActivity) {
    for s in m.sessions.iter_mut() {
        if s.instance_id == id {
            s.activity = a;
        }
    }
}

fn manager_with(sessions: &[(&str, SessionActivity)]) -> SessionManager {
    let mut m = SessionManager::new(None);
    for (id, a) in sessions {
        m.register_instance(id, "/w", 1, at(0));
        set_activity(&mut m, id, *a);
    }
    m
}

#[test]
fn rpc_named_instance_must_be_running() {
    let m = manager_with(&[]);
    assert_eq!(m.rpc_target(Some("a"), "prompt", &ids(&["a"])), RpcTarget::Instance("a".to_string()));
    assert_eq!(m.rpc_target(Some("b"), "prompt", &ids(&["a"])), RpcTarget::NotFound);
}

#[test]
fn rpc_without_instance_only_for_fallback_commands() {
    let m = manager_with(&[("a", SessionActivity::Idle)]);
    assert_eq!(m.rpc_target(None, "prompt", &ids(&["a"])), RpcTarget::NeedsInstance);
    assert!(allows_fallback("get_state"));
    assert!(allows_fallback("get_available_models"));
    assert!(allows_fallback("set_model"));
    assert!(allows_fallback("cycle_model"));
    assert!(!allows_fallback("abort"));
}

#[test]
fn rpc_fallback_prefers_idle_then_loaded_then_spawns() {
    let m = manager_with(&[
        ("busy", SessionActivity::Busy),
        ("idle", SessionActivity::Idle),
        ("gone", SessionActivity::Unloaded),
    ]);
    let running = ids(&["busy", "idle", "gone"]);
    assert_eq!(m.rpc_target(None, "get_state", &running), RpcTarget::Instance("idle".to_string()));
    // The idle session's instance is not running: a loaded one serves.
    let running = ids(&["busy", "gone"]);
    assert_eq!(m.rpc_target(None, "get_state", &running), RpcTarget::Instance("busy".to_string()));
    // Only an unloaded one runs: a throwaway instance is started.
    let running = ids(&["gone"]);
    assert_eq!(m.rpc_target(None, "set_model", &running), RpcTarget::SpawnEphemeral);
}

#[test]
fn client_messages_route_by_type_then_instance() {
    let running = ids(&["a"]);
    assert_eq!(ui_route("broker_control", None, &running), UiRoute::BrokerControl);
    assert_eq!(ui_route("gateway_command", Some("a"), &running), UiRoute::GatewayCommand);
    assert_eq!(ui_route("broker_command", None, &running), UiRoute::BrokerCommand);
    assert_eq!(ui_route("prompt", Some("a"), &running), UiRoute::Instance("a".to_string()));
    assert_eq!(ui_route("prompt", Some("b"), &running), UiRoute::NoRoute);
    assert_eq!(ui_route("prompt", None, &running), UiRoute::NoRoute);
}

fn entry(id: &str, ts: i64, text: &str) -> ForkEntry {
    ForkEntry { entry_id: id.to_string(), timestamp: ts, text: text.to_string() }
}

#[test]
fn fork_refuses_missing_instance_and_busy_session() {
    let m = manager_with(&[("a", SessionActivity::Busy)]);
    assert_eq!(fork_request(&m, "", None, None, Some("e1"), None), Err(ForkRefusal::MissingInstance));
    assert_eq!(fork_request(&m, "a", None, None, Some("e1"), None), Err(ForkRefusal::Busy));
    assert_eq!(ForkRefusal::Busy.reason(), "fork_busy");
    assert_eq!(ForkRefusal::MissingInstance.reason(), "missing_instanceId");
    assert_eq!(ForkRefusal::EntryNotFound.reason(), "fork_entry_not_found");
}

#[test]
fn fork_with_entry_id_takes_the_file_time() {
    let m = manager_with(&[("a", SessionActivity::Idle)]);
    let src = ForkSource { entries: vec![], lines: vec![("e1".to_string(), Some(1234))] };
    assert_eq!(fork_request(&m, "a", None, Some(99), Some("e1"), Some(&src)), Ok(("e1".to_string(), 1234)));
    // No time in the file: the client's time, if positive; else 0.
    assert_eq!(fork_request(&m, "a", None, Some(99), Some("e2"), Some(&src)), Ok(("e2".to_string(), 99)));
    assert_eq!(fork_request(&m, "a", None, Some(-5), Some("e2"), None), Ok(("e2".to_string(), 0)));
}

#[test]
fn fork_without_entry_id_searches_the_file() {
    let m = manager_with(&[("a", SessionActivity::Idle)]);
    let src = ForkSource {
        entries: vec![entry("u1", 1000, "hello"), entry("u2", 50000, "again")],
        lines: vec![],
    };
    assert_eq!(fork_request(&m, "a", Some("again"), None, None, Some(&src)), Ok(("u2".to_string(), 50000)));
    assert_eq!(fork_request(&m, "a", Some("nothing"), None, Some(""), Some(&src)), Err(ForkRefusal::EntryNotFound));
    assert_eq!(fork_request(&m, "a", Some("hello"), None, None, None), Err(ForkRefusal::EntryNotFound));
}

fn report() -> StateReport {
    StateReport {
        session_file: Some("/s/a.jsonl".to_string()),
        session_id: Some(String::new()),
        session_name: Some("Name".to_string()),
        model_id: Some("m".to_string()),
        model_name: None,
        model_provider: Some("p".to_string()),
        thinking_level: Some("high".to_string()),
        is_streaming: Some(true),
        is_compacting: None,
        message_count: Some(4_294_967_297),
        pending_message_count: None,
        context_window: Some(200_000),
    }
}

#[test]
fn get_state_reply_records_state() {
    let r = report();
    let u = state_update(true, "get_state", Some(&r)).unwrap();
    assert_eq!(u.session_file.as_deref(), Some("/s/a.jsonl"));
    assert_eq!(u.session_id, None);
    let s: PiSessionState = u.state;
    assert_eq!(s.session_id, None);
    assert_eq!(s.session_name.as_deref(), Some("Name"));
    assert!(s.is_streaming);
    assert!(!s.is_compacting);
    assert_eq!(s.message_count, 1);
    assert_eq!(s.pending_message_count, 0);
    assert_eq!(s.context_window, Some(200_000));
    assert!(state_update(false, "get_state", Some(&r)).is_none());
    assert!(state_update(true, "set_model", Some(&r)).is_none());
    assert!(state_update(true, "get_state", None).is_none());
}

#[test]
fn new_session_model_and_name() {
    assert_eq!(requested_model(Some("m".to_string()), Some("p".to_string())).as_deref(), Some("p/m"));
    assert_eq!(requested_model(Some("m".to_string()), Some(String::new())).as_deref(), Some("m"));
    assert_eq!(requested_model(None, Some("p".to_string())), None);
    assert_eq!(new_project_name(Some("A"), Some("B")), "A");
    assert_eq!(new_project_name(None, Some("B")), "B");
    assert_eq!(new_project_name(None, None), "New Project");
}

#[test]
fn model_switch_and_default_restore() {
    let mut m = manager_with(&[("a", SessionActivity::Idle)]);
    assert!(m.needs_model_switch("a", "m", "p"));
    let mut st = PiSessionState::default();
    st.model_id = Some("m".to_string());
    st.model_provider = Some("p".to_string());
    st.session_file = Some("/s/f.jsonl".to_string());
    m.update_pi_state("a", st);
    assert!(!m.needs_model_switch("a", "m", "p"));
    assert!(m.needs_model_switch("a", "m", "q"));
    assert!(m.needs_model_switch("zz", "m", "p"));
    assert_eq!(m.resume_args("a", None), (Some("/s/f.jsonl".to_string()), Some("p/m".to_string())));
    assert_eq!(
        m.resume_args("a", Some("/given".to_string())),
        (Some("/given".to_string()), Some("p/m".to_string()))
    );
    assert_eq!(m.resume_args("zz", None), (None, None));
    assert!(default_is_switched_model("p", "m", Some("p"), "m"));
    assert!(default_is_switched_model("", "m", None, "m"));
    assert!(!default_is_switched_model("p", "m", None, "m"));
    assert!(!default_is_switched_model("p", "x", Some("p"), "m"));
}

fn said(role: &str, text: &str) -> ChatMessage {
    ChatMessage {
        role: Some(role.to_string()),
        content: MessageContent::Text(text.to_string()),
        raw: None,
        tool_executions: Vec::new(),
    }
}

#[test]
fn resumed_session_keeps_messages_and_stored_name() {
    let mut m = SessionManager::new(None);
    m.adopt_resumed("a", "/w", 7, at(5000), vec![said("user", "hi"), said("assistant", "yo")], Some("Old name".to_string()));
    let s = m.sessions.iter().find(|s| s.instance_id == "a").unwrap();
    assert_eq!(s.message_seq, 2);
    assert_eq!(s.messages.len(), 2);
    assert_eq!(s.session_name.as_deref(), Some("Old name"));
    assert!(s.title_set);
    assert_eq!(s.subscribers, vec![7]);
    assert_eq!(s.activity, SessionActivity::Idle);
    m.adopt_resumed("b", "/w", 7, at(5000), vec![], Some("   ".to_string()));
    let s = m.sessions.iter().find(|s| s.instance_id == "b").unwrap();
    assert_eq!(s.session_name, None);
    assert!(!s.title_set);
}

#[test]
fn session_commands_dispatch_by_payload_type() {
    assert_eq!(broker_action("new_session", ""), BrokerAction::NewSession);
    assert_eq!(broker_action("switch_session", "a"), BrokerAction::SwitchSession);
    assert_eq!(broker_action("fork", "a"), BrokerAction::Fork);
    assert_eq!(broker_action("ack_review", ""), BrokerAction::AckReview);
    assert_eq!(broker_action("deactivate_session", "a"), BrokerAction::Deactivate("a".to_string()));
    assert_eq!(broker_action("deactivate_session", ""), BrokerAction::MissingInstance);
    assert_eq!(broker_action("prompt", "a"), BrokerAction::Forward("a".to_string()));
    assert_eq!(broker_action("prompt", ""), BrokerAction::MissingInstance);
}

#[test]
fn command_cwd_must_be_absolute() {
    assert_eq!(command_cwd(Some("/p"), Some("/t")), Some("/p".to_string()));
    assert_eq!(command_cwd(None, Some("/t")), Some("/t".to_string()));
    assert_eq!(command_cwd(Some("rel"), Some("/t")), None);
    assert_eq!(command_cwd(None, None), None);
}

#[test]
fn control_requests_answer_ping_and_info() {
    assert_eq!(control_reply("ping"), ControlReply::Pong);
    assert_eq!(control_reply("info"), ControlReply::Info);
    assert_eq!(control_reply("reboot"), ControlReply::Unknown("reboot".to_string()));
    assert_eq!(broker_features(), vec!["rpc", "ws", "lan", "health", "multi_instance"]);
}

#[test]
fn session_responses_are_successful_switches_and_new_sessions() {
    assert!(pi_server::rpc::is_session_response(true, "switch_session"));
    assert!(pi_server::rpc::is_session_response(true, "new_session"));
    assert!(!pi_server::rpc::is_session_response(false, "new_session"));
    assert!(!pi_server::rpc::is_session_response(true, "get_state"));
}

#[test]
fn model_sync_precedes_prompts_only() {
    assert!(pi_server::routing::syncs_model("prompt"));
    assert!(pi_server::routing::syncs_model("steer"));
    assert!(pi_server::routing::syncs_model("follow_up"));
    assert!(!pi_server::routing::syncs_model("abort"));
}
