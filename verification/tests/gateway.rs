use pi_server::web::{spa_route, SpaRoute};
use pi_server::events::{event_plan, is_lifecycle_event, write_target, writes_files};
use pi_server::manager::{Moment, SessionManager, TrackedEvent};
use pi_server::session::{ChatMessage, MessageContent};
use pi_server::boundary::constraint_ts_source;
use pi_server::budget::BudgetConfig;
use pi_server::checkpoint::{snapshot_candidates, stale_untracked};
use pi_server::fork::{entry_timestamp, resolve_fork_target, ForkEntry};
use pi_server::lan_auth::LanAuthConfig;
use pi_server::migrate::{MigrationState, MigrationStep, PendingMigration};
use pi_server::search::{make_snippet, search_plan, truncate_chars};
use pi_server::system::{
    decimal_text, detect_client_form, get_health, get_lan_info, git_branch, lan_qr_data, lan_urls,
};
use pi_server::tree::{artifact_rows, file_entry, skip_in_scan, FileTree};

/// The user messages of the sample session file: m1 and m3 (m2 is the
/// assistant's reply and is not a candidate).
fn sample_entries() -> Vec<ForkEntry> {
    vec![
        ForkEntry { entry_id: "m1".to_string(), timestamp: 1780000001000, text: "第一条消息".to_string() },
        ForkEntry { entry_id: "m3".to_string(), timestamp: 1780000003000, text: "第二条消息".to_string() },
    ]
}

#[test]
fn resolves_entry_by_timestamp_then_content() {
    let entries = sample_entries();
    let (eid, ts) = resolve_fork_target(&entries, None, Some(1780000003000)).unwrap();
    assert_eq!(eid, "m3");
    assert_eq!(ts, 1780000003000);
    let (eid, _) = resolve_fork_target(&entries, None, Some(1780000001005)).unwrap();
    assert_eq!(eid, "m1");
    let (eid, _) = resolve_fork_target(&entries, Some("第一条消息"), None).unwrap();
    assert_eq!(eid, "m1");
    let (eid, _) = resolve_fork_target(&entries, Some("第二条消息"), Some(1780000003000)).unwrap();
    assert_eq!(eid, "m3");
    assert!(resolve_fork_target(&entries, Some("不存在"), Some(1)).is_none());
}

#[test]
fn entry_timestamp_by_id() {
    let lines = vec![
        ("".to_string(), None),
        ("m1".to_string(), Some(1780000001000)),
        ("m2".to_string(), Some(1780000002000)),
        ("m3".to_string(), Some(1780000003000)),
    ];
    assert_eq!(entry_timestamp(&lines, "m2"), Some(1780000002000));
    assert_eq!(entry_timestamp(&lines, "nope"), None);
}

#[test]
fn fork_prefers_closest_time_then_first_text() {
    let entries = vec![
        ForkEntry { entry_id: "a".to_string(), timestamp: 1000, text: "same".to_string() },
        ForkEntry { entry_id: "b".to_string(), timestamp: 20000, text: "other".to_string() },
        ForkEntry { entry_id: "c".to_string(), timestamp: 21000, text: "same".to_string() },
    ];
    // text alone: the first with it
    assert_eq!(resolve_fork_target(&entries, Some("same"), None), Some(("a".to_string(), 1000)));
    // time only within the tolerance: the closest
    assert_eq!(resolve_fork_target(&entries, None, Some(20400)), Some(("b".to_string(), 20000)));
    // both: the one matching both
    assert_eq!(resolve_fork_target(&entries, Some("same"), Some(20400)), Some(("c".to_string(), 21000)));
    // an empty text finds nothing
    assert_eq!(resolve_fork_target(&entries, Some(""), None), None);
}

#[test]
fn snippets_and_search_plans() {
    assert_eq!(truncate_chars("abcdef", 3), "abc…");
    assert_eq!(truncate_chars("abc", 3), "abc");
    assert_eq!(make_snippet("Hello World", "world"), "Hello World");
    let long = format!("{}NEEDLE{}", "a".repeat(100), "b".repeat(100));
    let s = make_snippet(&long, "needle");
    assert_eq!(s, format!("…{}NEEDLE{}…", "a".repeat(60), "b".repeat(60)));
    assert_eq!(make_snippet(&"x".repeat(200), "zz"), format!("{}…", "x".repeat(160)));
    assert!(search_plan(" a ", 10, true).is_none());
    let p = search_plan("  ab ", 0, true).unwrap();
    assert_eq!(p.query, "ab");
    assert!(!p.use_fts);
    assert_eq!(p.pattern, "%ab%");
    assert_eq!(p.limit, 1);
    let p = search_plan("say \"hi\"", 500, true).unwrap();
    assert!(p.use_fts);
    assert_eq!(p.pattern, "\"say \"\"hi\"\"\"");
    assert_eq!(p.limit, 200);
    let p = search_plan("50%_a\\b", 20, false).unwrap();
    assert_eq!(p.pattern, "%50\\%\\_a\\\\b%");
}

fn pending(id: &str) -> PendingMigration {
    PendingMigration { id: id.to_string(), old_path: format!("/old/{}", id), new_path: format!("/new/{}", id), waiting: false }
}

#[test]
fn migration_queue_moves_one_workspace_at_a_time() {
    let mut q = MigrationState::new();
    assert!(matches!(q.begin_next(false), MigrationStep::Idle));
    q.pending.push(pending("w1"));
    q.pending.push(pending("w2"));
    assert!(q.is_pending("w2"));
    match q.begin_next(true) {
        MigrationStep::Waiting { newly } => assert!(newly),
        _ => panic!("the head waits"),
    }
    match q.begin_next(true) {
        MigrationStep::Waiting { newly } => assert!(!newly),
        _ => panic!("the head waits"),
    }
    assert!(q.pending[0].waiting);
    match q.begin_next(false) {
        MigrationStep::Start { item } => assert_eq!(item.id, "w1"),
        _ => panic!("the head moves"),
    }
    assert!(q.migrating);
    assert!(matches!(q.begin_next(false), MigrationStep::Idle));
    q.finish("w1", Some("target exists".to_string()));
    assert!(!q.migrating);
    assert!(!q.is_pending("w1"));
    assert_eq!(q.errors, vec![("w1".to_string(), "target exists".to_string())]);
    match q.begin_next(false) {
        MigrationStep::Start { item } => assert_eq!(item.id, "w2"),
        _ => panic!("next"),
    }
    q.finish("w2", None);
    assert!(q.pending.is_empty());
    assert_eq!(q.errors.len(), 1);
}

#[test]
fn system_reports() {
    let ips = vec!["192.168.1.5".to_string(), "10.0.0.2".to_string()];
    let h = get_health("1.2.3", "0.9", &ips, 8080, 42);
    assert_eq!(h.status, "ok");
    assert_eq!(h.lan_urls, vec!["http://192.168.1.5:8080/chat", "http://10.0.0.2:8080/chat"]);
    assert_eq!(h.broker_url, "ws://127.0.0.1:8080/ws");
    assert_eq!(h.uptime_secs, 42);
    let info = get_lan_info(&ips, 80);
    assert_eq!(info.http_url, "http://127.0.0.1:80/");
    assert_eq!(info.qr_data, "http://192.168.1.5:80/chat");
    assert_eq!(get_lan_info(&[], 9).qr_data, "http://127.0.0.1:9/chat");
    assert_eq!(lan_qr_data(&ips, 1), "http://192.168.1.5:1/chat?brokerWs=ws://192.168.1.5:1/ws&mobile=1");
    assert_eq!(lan_qr_data(&[], 1), "http://127.0.0.1:1/chat");
    assert_eq!(lan_urls(&ips[..1], 7), vec!["http://192.168.1.5:7/chat?brokerWs=ws://192.168.1.5:7/chat-ws"]);
    assert_eq!(git_branch(true, "main\n").branch.as_deref(), Some("main"));
    assert!(git_branch(true, "\n").branch.is_none());
    assert!(git_branch(false, "main").branch.is_none());
    assert_eq!(detect_client_form("Dart/3.2 (dart:io)"), "app");
    assert_eq!(detect_client_form("Mozilla/5.0 (iPhone; CPU iPhone OS 17_0)"), "app");
    assert_eq!(detect_client_form("Mozilla/5.0 (X11; Linux x86_64) Firefox/120"), "web");
    assert_eq!(decimal_text(0), vec!['0']);
    assert_eq!(decimal_text(65535).into_iter().collect::<String>(), "65535");
}

#[test]
fn checkpoint_file_choices() {
    let untracked = vec!["notes.md".to_string(), "node_modules/x.js".to_string(), "src/target/a".to_string(), "b.txt".to_string()];
    assert_eq!(snapshot_candidates(&untracked), vec!["notes.md", "b.txt"]);
    let known = vec!["notes.md".to_string()];
    assert_eq!(stale_untracked(&untracked, &known), vec!["node_modules/x.js", "src/target/a", "b.txt"]);
}

#[test]
fn boundary_extension_names_the_workspace() {
    let src = constraint_ts_source("C:\\ws\\one");
    assert!(src.starts_with("// Auto-generated by piter"));
    assert!(src.contains("const cwd = path.resolve(\"C:/ws/one\");"));
    assert!(src.contains("for (const tool of [\"write\", \"edit\"] as const) {"));
    assert!(src.ends_with("  }\n}\n"));
}

#[test]
fn artifact_rows_follow_the_diff() {
    let mut old = FileTree::new();
    old.insert("a.txt".to_string(), (10, 1, 3));
    old.insert("gone.txt".to_string(), (5, 1, 2));
    let mut new = FileTree::new();
    new.insert("a.txt".to_string(), (20, 2, 7));
    new.insert("output/r.md".to_string(), (4, 2, 1));
    new.insert("z.txt".to_string(), (1, 2, 1));
    let marked = vec!["z.txt".to_string()];
    let rows = artifact_rows(&old, &new, "ws1", "s1", 4, "snapshot", &marked, "2026-01-01T00:00:00Z");
    let summary: Vec<(String, String, i64, i64, i64, bool)> = rows
        .iter()
        .map(|r| (r.rel_path.clone(), r.op.clone(), r.size, r.lines_added, r.lines_deleted, r.deliverable))
        .collect();
    assert_eq!(
        summary,
        vec![
            ("a.txt".to_string(), "modified".to_string(), 20, 4, 0, false),
            ("gone.txt".to_string(), "deleted".to_string(), 5, 0, 2, false),
            ("output/r.md".to_string(), "new".to_string(), 4, 1, 0, true),
            ("z.txt".to_string(), "new".to_string(), 1, 1, 0, true),
        ]
    );
    for (k, r) in rows.iter().enumerate() {
        assert!(r.id.starts_with("art_"));
        assert_eq!(r.id.len(), 13 + k.to_string().len());
        assert!(r.id[4..12].chars().all(|c| c.is_ascii_hexdigit()));
        assert!(r.id.ends_with(&format!("_{}", k)));
        assert_eq!(r.workspace_id, "ws1");
        assert_eq!(r.turn_id, 4);
    }
}

#[test]
fn scan_nodes() {
    assert!(skip_in_scan(".git"));
    assert!(skip_in_scan("node_modules"));
    assert!(skip_in_scan(".pi"));
    assert!(!skip_in_scan("src"));
    let d = file_entry(true, "output", 99, 5, true);
    assert_eq!(d.kind, "dir");
    assert_eq!(d.size, 0);
    assert!(!d.is_deliverable);
    let f = file_entry(false, "output/a.md", 99, 5, false);
    assert!(f.is_deliverable);
    assert_eq!(f.size, 99);
    assert!(file_entry(false, "x.md", 1, 1, true).is_deliverable);
    assert!(!file_entry(false, "x.md", 1, 1, false).is_deliverable);
}

#[test]
fn stored_settings() {
    let c = BudgetConfig::stored(100, 0, true);
    assert_eq!(c.reset_day, 1);
    assert_eq!(BudgetConfig::stored(100, 99, true).reset_day, 31);
    assert_eq!(BudgetConfig::stored(100, 15, false).reset_day, 15);
    let u = BudgetConfig::unset();
    assert_eq!((u.budget_cents, u.reset_day, u.enabled), (0, 1, false));
    let l = LanAuthConfig::unset();
    assert!(!l.enabled);
    assert!(l.pin_hash.is_empty());
}

#[test]
fn web_paths_are_routed() {
    assert!(matches!(spa_route("/", true), SpaRoute::Redirect { to } if to == "/chat"));
    assert!(matches!(spa_route("/work/", true), SpaRoute::Redirect { to } if to == "/work"));
    assert!(matches!(spa_route("/chat/", false), SpaRoute::Redirect { to } if to == "/chat"));
    assert!(matches!(spa_route("/workspaces/w1", false), SpaRoute::NotDeployed));
    assert_eq!(serve(spa_route("/work/assets/app.js", true)), (true, "assets/app.js".to_string()));
    assert_eq!(serve(spa_route("/workspaces/w1", true)), (true, "w1".to_string()));
    assert_eq!(serve(spa_route("/chat//main.js", false)), (false, "main.js".to_string()));
    assert_eq!(serve(spa_route("/favicon.ico", false)), (false, "favicon.ico".to_string()));
    assert!(matches!(spa_route("/chat/../secret", false), SpaRoute::InvalidPath));
    assert!(matches!(spa_route("/a\\b", false), SpaRoute::InvalidPath));
    // the prefix part itself is dropped, whatever it is
    assert_eq!(serve(spa_route("/chatx/y", false)), (false, "y".to_string()));
}

#[test]
fn events_are_planned_by_type() {
    assert_eq!(event_plan("session_cleanup", false), Err(()));
    assert_eq!(event_plan("turn_end", false), Ok(None));
    let p = event_plan("turn_end", true).unwrap().unwrap();
    assert!(p.lifecycle && p.push_list && p.capture_artifacts && !p.finish_run && !p.handle_response);
    let p = event_plan("agent_end", true).unwrap().unwrap();
    assert!(p.finish_run && p.push_list && !p.capture_artifacts);
    let p = event_plan("response", true).unwrap().unwrap();
    assert!(p.handle_response && !p.lifecycle);
    assert!(event_plan("tool_execution_start", true).unwrap().unwrap().check_write);
    assert!(is_lifecycle_event("extension_ui_request"));
    assert!(!is_lifecycle_event("get_state"));
    assert!(writes_files("edit"));
    assert!(!writes_files("read"));
    assert_eq!(write_target("notes/a.md", "/ws/one"), "/ws/one/notes/a.md");
    assert_eq!(write_target("/etc/x", "/ws/one"), "/etc/x");
}

#[test]
fn completion_notice_and_model_record() {
    let mut m = SessionManager::new(None);
    let now = Moment { mono_ms: 0, epoch_secs: 0 };
    m.register_instance("s1", "/w", 1, now);
    assert_eq!(m.completion_notice("s1"), (String::new(), String::new()));
    m.on_event(Some(TrackedEvent::MessageEnd { message: Some(msg("assistant", "first")) }), "s1", now);
    m.on_event(Some(TrackedEvent::MessageEnd { message: Some(msg("assistant", "last answer")) }), "s1", now);
    m.on_event(Some(TrackedEvent::MessageEnd { message: Some(msg("user", "thanks")) }), "s1", now);
    m.set_session_name("s1", "Named".to_string());
    assert_eq!(m.completion_notice("s1"), ("Named".to_string(), "last answer".to_string()));
    assert_eq!(m.completion_notice("zz"), (String::new(), String::new()));
    m.record_model("s1", "m2".to_string(), None, Some("Model Two".to_string()));
    let ps = m.sessions[0].pi_state.as_ref().unwrap();
    assert_eq!(ps.model_id.as_deref(), Some("m2"));
    assert!(ps.model_provider.is_none());
    assert_eq!(ps.model_name.as_deref(), Some("Model Two"));
    m.record_model("s1", "m3".to_string(), Some("p".to_string()), None);
    let ps = m.sessions[0].pi_state.as_ref().unwrap();
    assert_eq!(ps.model_name.as_deref(), Some("Model Two"));
    assert_eq!(ps.model_provider.as_deref(), Some("p"));
}

fn serve(r: SpaRoute) -> (bool, String) {
    match r {
        SpaRoute::Serve { work, rel } => (work, rel),
        _ => panic!("expected a file"),
    }
}

fn msg(role: &str, text: &str) -> ChatMessage {
    ChatMessage { role: Some(role.to_string()), content: MessageContent::Text(text.to_string()), raw: None, tool_executions: Vec::new() }
}
