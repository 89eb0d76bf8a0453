use pi_server::listing::{build_project_session_tree, sort_order, ProjectRow, SessionRow};
use pi_server::manager::{Moment, SessionManager};

fn project(id: &str, archived: bool, pinned: i32) -> ProjectRow {
    ProjectRow {
        id: id.to_string(),
        name: format!("Project {}", id),
        cwd: format!("/tmp/{}", id),
        project_type: "normal".to_string(),
        pinned,
        archived,
        created_at: "2026-01-01T00:00:00Z".to_string(),
        updated_at: "2026-01-01T00:00:00Z".to_string(),
    }
}

fn row(id: &str, project: Option<&str>, created_at: &str, pinned: i32) -> SessionRow {
    SessionRow {
        instance_id: id.to_string(),
        session_path: Some(format!("/s/{}.jsonl", id)),
        project_id: project.map(|p| p.to_string()),
        cwd: "/tmp/x".to_string(),
        name: None,
        created_at: created_at.to_string(),
        model_id: Some("db-model".to_string()),
        model_provider: None,
        pinned,
    }
}

fn ids(groups: &[pi_server::listing::ProjectGroup], id: &str) -> Vec<String> {
    groups
        .iter()
        .find(|g| g.id.as_deref() == Some(id))
        .map(|g| g.sessions.iter().map(|s| s.instance_id.clone().unwrap()).collect())
        .unwrap()
}

#[test]
fn pinned_session_sorts_first_within_project() {
    let mgr = SessionManager::new(None);
    let projects = vec![(project("proj1", false, 0), vec!["s1".to_string(), "s2".to_string()])];
    let mut rows = vec![
        row("s1", Some("proj1"), "2026-01-01T00:00:00Z", 0),
        row("s2", Some("proj1"), "2026-01-01T00:00:02Z", 0),
    ];
    // newest activity first
    assert_eq!(ids(&build_project_session_tree(&projects, &rows, &mgr), "proj1"), vec!["s2", "s1"]);
    // pinning the older session moves it to the top
    rows[0].pinned = 1;
    assert_eq!(ids(&build_project_session_tree(&projects, &rows, &mgr), "proj1"), vec!["s1", "s2"]);
    rows[0].pinned = 0;
    assert_eq!(ids(&build_project_session_tree(&projects, &rows, &mgr), "proj1"), vec!["s2", "s1"]);
}

#[test]
fn tree_groups_orphans_and_archived_projects() {
    let mut mgr = SessionManager::new(None);
    mgr.register_instance("live", "/tmp/a", 1, Moment { mono_ms: 0, epoch_secs: 5_000_000_000 });
    let projects = vec![
        (project("arch", true, 0), vec!["old".to_string()]),
        (project("a", false, 1), vec!["live".to_string(), "gone".to_string()]),
    ];
    let rows = vec![
        row("old", Some("arch"), "2026-01-01T00:00:00Z", 0),
        row("live", Some("a"), "2026-01-01T00:00:00Z", 0),
        row("lonely-session-id", None, "not a time", 0),
    ];
    let tree = build_project_session_tree(&projects, &rows, &mgr);
    assert_eq!(tree.len(), 3);
    assert_eq!(tree[0].id.as_deref(), Some("a"));
    assert_eq!(tree[0].pinned, 1);
    let live = &tree[0].sessions[0];
    assert_eq!(live.instance_id.as_deref(), Some("live"));
    assert_eq!(live.state.as_deref(), Some("idle"));
    assert_eq!(live.updated_at, 5_000_000_000);
    assert_eq!(live.model.as_deref(), Some("db-model"));
    assert_eq!(live.file_path, "/s/live.jsonl");
    let gone = &tree[0].sessions[1];
    assert_eq!(gone.state.as_deref(), Some("unloaded"));
    assert_eq!(gone.label, "gone");
    assert_eq!(gone.file_path, "");
    assert_eq!(gone.updated_at, 0);
    assert_eq!(tree[1].name, "Other");
    assert!(tree[1].id.is_none());
    assert_eq!(tree[1].sessions.len(), 1);
    assert_eq!(tree[1].sessions[0].label, "lonely-s");
    assert_eq!(tree[1].sessions[0].cwd, "/tmp/x");
    assert!(tree[2].archived);
    assert_eq!(tree[2].id.as_deref(), Some("arch"));
}

#[test]
fn stored_time_dates_sessions_that_are_not_running() {
    let mgr = SessionManager::new(None);
    let projects = vec![(project("p", false, 0), vec!["s".to_string()])];
    let rows = vec![row("s", Some("p"), "1970-01-01T00:01:40Z", 0)];
    let tree = build_project_session_tree(&projects, &rows, &mgr);
    assert_eq!(tree.len(), 1);
    assert_eq!(tree[0].sessions[0].updated_at, 100);
}

#[test]
fn listing_order_ranks_pinned_then_recent_then_input() {
    assert_eq!(sort_order(&[(0, 5), (1, 1), (0, 9), (1, 1), (0, 5)]), vec![1, 3, 2, 0, 4]);
    assert!(sort_order(&[]).is_empty());
}
