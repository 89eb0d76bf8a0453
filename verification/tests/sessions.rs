use pi_server::manager::{
    ActivateResult, Moment, PiSessionState, SessionActivity, SessionManager, SessionResult, TrackedEvent,
    DEFAULT_IDLE_TIMEOUT_SECS,
};
use pi_server::session::{extract_message_text, ChatMessage, ContentPiece, MessageContent};

fn at(ms: u64) -> Moment {
    Moment { mono_ms: ms, epoch_secs: ms / 1000 }
}

fn text_message(role: &str, text: &str) -> ChatMessage {
    ChatMessage {
        role: Some(role.to_string()),
        content: MessageContent::Text(text.to_string()),
        raw: None,
        tool_executions: Vec::new(),
    }
}

fn piece(kind: &str, text: Option<&str>) -> ContentPiece {
    ContentPiece { kind: Some(kind.to_string()), text: text.map(|t| t.to_string()) }
}

fn session<'a>(m: &'a SessionManager, id: &str) -> &'a pi_server::manager::ManagedSession {
    m.sessions.iter().find(|s| s.instance_id == id).unwrap()
}

#[test]
fn extracts_plain_text_from_string_and_blocks() {
    let m = ChatMessage {
        role: None,
        content: MessageContent::Text("hi".to_string()),
        raw: None,
        tool_executions: Vec::new(),
    };
    assert_eq!(extract_message_text(&m), "hi");
    let m = ChatMessage {
        role: None,
        content: MessageContent::Blocks(vec![
            piece("text", Some("a")),
            piece("text", Some("b")),
            ContentPiece { kind: Some("toolCall".to_string()), text: None },
        ]),
        raw: None,
        tool_executions: Vec::new(),
    };
    assert_eq!(extract_message_text(&m), "a\nb");
    let m = ChatMessage { role: None, content: MessageContent::Missing, raw: None, tool_executions: Vec::new() };
    assert_eq!(extract_message_text(&m), "");
}

#[test]
fn new_manager_uses_default_timeout() {
    let mut m = SessionManager::new(None);
    assert_eq!(m.idle_timeout_secs, DEFAULT_IDLE_TIMEOUT_SECS);
    assert_eq!(SessionManager::new(Some(30)).idle_timeout_secs, 30);
    assert!(m.sessions.is_empty());
    assert!(!m.take_dirty());
}

#[test]
fn register_activate_and_switch() {
    let mut m = SessionManager::new(None);
    m.register_instance("s1", "/work", 7, at(1000));
    assert!(m.take_dirty());
    assert!(m.has_subscribers("s1"));
    assert!(!m.has_subscribers("missing"));
    match m.activate("s1", 8, at(2000)) {
        ActivateResult::Snapshot { messages, instance_id, message_seq } => {
            assert!(messages.is_empty());
            assert_eq!(instance_id, "s1");
            assert_eq!(message_seq, 0);
        }
        ActivateResult::NeedSpawn { .. } => panic!("loaded session must give a snapshot"),
    }
    // not disconnected before: the list did not change
    assert!(!m.take_dirty());
    assert_eq!(session(&m, "s1").subscribers.len(), 2);
    assert_eq!(session(&m, "s1").last_active, 2000);
    match m.switch_session("nope", 8, at(2000)) {
        SessionResult::NeedSpawn { instance_id } => assert_eq!(instance_id, "nope"),
        SessionResult::Switched { .. } => panic!("unknown session"),
    }
    match m.switch_session("s1", 9, at(3000)) {
        SessionResult::Switched { instance_id, message_seq, .. } => {
            assert_eq!(instance_id, "s1");
            assert_eq!(message_seq, 0);
        }
        SessionResult::NeedSpawn { .. } => panic!("loaded session"),
    }
    assert_eq!(session(&m, "s1").subscribers.len(), 3);
}

#[test]
fn last_subscriber_leaving_disconnects_and_expires() {
    let mut m = SessionManager::new(Some(10));
    m.register_instance("s1", "/w", 1, at(0));
    m.register_instance("s2", "/w", 2, at(0));
    m.take_dirty();
    m.deactivate("s1", 1, at(5000));
    assert!(m.take_dirty());
    assert_eq!(session(&m, "s1").disconnected_since, Some(5000));
    // a second leave keeps the first disconnect time
    m.deactivate("s1", 1, at(9000));
    assert!(!m.take_dirty());
    assert_eq!(session(&m, "s1").disconnected_since, Some(5000));
    assert!(m.find_expired_sessions(15000).is_empty());
    assert_eq!(m.find_expired_sessions(15001), vec!["s1".to_string()]);
    // reconnecting clears the disconnect and marks the list changed
    match m.activate("s1", 3, at(16000)) {
        ActivateResult::Snapshot { .. } => {}
        ActivateResult::NeedSpawn { .. } => panic!("loaded"),
    }
    assert!(m.take_dirty());
    assert!(m.find_expired_sessions(100000).is_empty());
    m.deactivate_all_for_client(3, at(20000));
    m.deactivate_all_for_client(2, at(20000));
    assert_eq!(session(&m, "s1").disconnected_since, Some(20000));
    assert_eq!(session(&m, "s2").disconnected_since, Some(20000));
    let mut expired = m.find_expired_sessions(40000);
    expired.sort();
    assert_eq!(expired, vec!["s1".to_string(), "s2".to_string()]);
    m.mark_unloaded(&expired);
    assert!(m.take_dirty());
    assert_eq!(session(&m, "s1").activity, SessionActivity::Unloaded);
    // unloaded sessions do not expire again and need a respawn
    assert!(m.find_expired_sessions(90000).is_empty());
    match m.activate("s1", 4, at(90000)) {
        ActivateResult::NeedSpawn { instance_id } => assert_eq!(instance_id, "s1"),
        ActivateResult::Snapshot { .. } => panic!("unloaded"),
    }
}

#[test]
fn events_track_messages_and_activity() {
    let mut m = SessionManager::new(None);
    m.register_instance("s1", "/w", 1, at(0));
    m.take_dirty();
    assert_eq!(m.on_event(Some(TrackedEvent::Other), "missing", at(1)), None);
    let start = TrackedEvent::MessageStart { message: None };
    assert_eq!(m.on_event(Some(start), "s1", at(10)), Some(0));
    assert!(m.take_dirty());
    assert_eq!(session(&m, "s1").activity, SessionActivity::Busy);
    let p = session(&m, "s1").partial_message.as_ref().unwrap();
    assert_eq!(p.role.as_deref(), Some("assistant"));
    m.on_event(
        Some(TrackedEvent::ToolExecutionStart { tool_call_id: Some("t1".to_string()), tool_name: Some("bash".to_string()) }),
        "s1",
        at(11),
    );
    let p = session(&m, "s1").partial_message.as_ref().unwrap();
    assert_eq!(p.tool_executions.len(), 1);
    assert_eq!(p.tool_executions[0].id, "t1");
    assert_eq!(p.tool_executions[0].name, "bash");
    // message_end consumes the streamed message; turn_end adds no copy
    let end = TrackedEvent::MessageEnd { message: Some(text_message("assistant", "done")) };
    assert_eq!(m.on_event(Some(end), "s1", at(12)), Some(1));
    assert!(session(&m, "s1").partial_message.is_none());
    assert_eq!(m.on_event(Some(TrackedEvent::TurnEnd), "s1", at(13)), Some(1));
    // someone watches: idle
    assert_eq!(session(&m, "s1").activity, SessionActivity::Idle);
    assert_eq!(m.turn_count("s1"), 1);
    // an unreadable event only counts as activity
    assert_eq!(m.on_event(None, "s1", at(14)), None);
    assert_eq!(session(&m, "s1").last_active, 14);
    // mirror sync replaces the messages
    let sync = TrackedEvent::MirrorSync {
        messages: Some(vec![text_message("user", "a"), text_message("assistant", "b"), text_message("user", "c")]),
    };
    assert_eq!(m.on_event(Some(sync), "s1", at(15)), Some(3));
    assert_eq!(session(&m, "s1").messages.len(), 3);
}

#[test]
fn turn_end_without_watchers_waits_for_review() {
    let mut m = SessionManager::new(None);
    m.register_instance("s1", "/w", 1, at(0));
    m.on_event(Some(TrackedEvent::MessageStart { message: None }), "s1", at(1));
    m.deactivate("s1", 1, at(2));
    m.take_dirty();
    // agent_end keeps the streamed message
    assert_eq!(m.on_event(Some(TrackedEvent::AgentEnd), "s1", at(3)), Some(1));
    assert_eq!(session(&m, "s1").activity, SessionActivity::WaitingReview);
    assert!(m.take_dirty());
    assert_eq!(m.turn_count("s1"), 0);
    m.ack_review("s1", 5);
    assert_eq!(session(&m, "s1").activity, SessionActivity::Idle);
    assert!(m.take_dirty());
    assert!(m.has_subscribers("s1"));
}

#[test]
fn automatic_title_after_two_turns_once() {
    let mut m = SessionManager::new(None);
    m.register_instance("s1", "/w", 1, at(0));
    let user = TrackedEvent::MessageEnd { message: Some(text_message("user", "please explain the routing table.")) };
    m.on_event(Some(user), "s1", at(1));
    m.on_event(Some(TrackedEvent::TurnEnd), "s1", at(2));
    assert!(m.take_pending_names().is_empty());
    m.on_event(Some(TrackedEvent::TurnEnd), "s1", at(3));
    let names = m.take_pending_names();
    assert_eq!(names, vec![("s1".to_string(), "Explain the routing table.".to_string())]);
    assert_eq!(session(&m, "s1").session_name.as_deref(), Some("Explain the routing table."));
    assert!(m.take_pending_names().is_empty());
    m.on_event(Some(TrackedEvent::TurnEnd), "s1", at(4));
    assert!(m.take_pending_names().is_empty());
}

#[test]
fn user_name_is_never_replaced() {
    let mut m = SessionManager::new(None);
    m.register_instance("s1", "/w", 1, at(0));
    m.set_session_name("s1", "Mine".to_string());
    let user = TrackedEvent::MessageEnd { message: Some(text_message("user", "write a long enough request")) };
    m.on_event(Some(user), "s1", at(1));
    m.on_event(Some(TrackedEvent::TurnEnd), "s1", at(2));
    m.on_event(Some(TrackedEvent::TurnEnd), "s1", at(3));
    assert!(m.take_pending_names().is_empty());
    assert_eq!(session(&m, "s1").session_name.as_deref(), Some("Mine"));
}

#[test]
fn short_user_messages_are_not_title_candidates() {
    let mut m = SessionManager::new(None);
    m.register_instance("s1", "/w", 1, at(0));
    let user = TrackedEvent::MessageEnd { message: Some(text_message("user", "hi there")) };
    m.on_event(Some(user), "s1", at(1));
    assert!(session(&m, "s1").title_candidates.is_empty());
    m.on_event(Some(TrackedEvent::TurnEnd), "s1", at(2));
    m.on_event(Some(TrackedEvent::TurnEnd), "s1", at(3));
    assert!(m.take_pending_names().is_empty());
}

#[test]
fn unloaded_session_ignores_events() {
    let mut m = SessionManager::new(None);
    m.register_instance("s1", "/w", 1, at(0));
    m.on_event(Some(TrackedEvent::MessageEnd { message: Some(text_message("user", "hello")) }), "s1", at(1));
    m.mark_unloaded(&["s1".to_string()]);
    assert!(session(&m, "s1").messages.is_empty());
    assert_eq!(m.on_event(Some(TrackedEvent::TurnEnd), "s1", at(2)), Some(0));
    assert_eq!(session(&m, "s1").last_active, 1);
}

#[test]
fn pending_links_loaded_messages_and_removal() {
    let mut m = SessionManager::new(None);
    m.register_instance("s1", "/w", 1, at(0));
    m.link_pending("s1", "p1");
    m.link_pending("s1", "p2");
    assert_eq!(m.pending_links.len(), 1);
    assert_eq!(m.take_pending_link("s1"), Some("p2".to_string()));
    assert_eq!(m.take_pending_link("s1"), None);
    m.load_messages("s1", vec![text_message("user", "a"), text_message("assistant", "b")]);
    assert_eq!(session(&m, "s1").message_seq, 2);
    assert!(m.has_active_session_in("/w"));
    assert!(!m.has_active_session_in("/other"));
    let st = PiSessionState {
        session_file: Some("/f.jsonl".to_string()),
        session_id: None,
        session_name: None,
        model_id: Some("m".to_string()),
        model_name: None,
        model_provider: Some("p".to_string()),
        thinking_level: None,
        is_streaming: false,
        is_compacting: false,
        message_count: 2,
        pending_message_count: 0,
        context_window: None,
    };
    m.take_dirty();
    m.update_pi_state("s1", st);
    assert!(m.take_dirty());
    m.link_pending("s1", "p3");
    m.remove_session("s1");
    assert!(m.sessions.is_empty());
    assert!(m.pending_links.is_empty());
    m.set_idle_timeout(5);
    assert_eq!(m.idle_timeout_secs, 5);
}

#[test]
fn re_registering_replaces_the_session() {
    let mut m = SessionManager::new(None);
    m.register_instance("s1", "/a", 1, at(0));
    m.on_event(Some(TrackedEvent::MessageEnd { message: Some(text_message("user", "x")) }), "s1", at(1));
    m.register_instance("s1", "/b", 2, at(5));
    assert_eq!(m.sessions.len(), 1);
    assert_eq!(session(&m, "s1").cwd, "/b");
    assert!(session(&m, "s1").messages.is_empty());
}

#[test]
fn watching_then_leaving_restores_watchers() {
    let mut m = SessionManager::new(None);
    m.register_instance("s1", "/w", 1, at(0));
    m.activate("s1", 2, at(10));
    assert_eq!(session(&m, "s1").subscribers.len(), 2);
    m.deactivate("s1", 2, at(20));
    assert_eq!(session(&m, "s1").subscribers, vec![1]);
    assert_eq!(session(&m, "s1").disconnected_since, None);
}
