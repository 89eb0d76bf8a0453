use pi_server::events::{new_workspace_id, write_block_needed, write_block_request_id};
use pi_server::lan_auth::{device_cookie, hash_pin, LanAuthConfig};
use pi_server::migrate::{migration_queue, MigrationState, PendingMigration};
use pi_server::paths::{listing_base_path, upload_verdict, workspace_base, zip_disposition, MAX_UPLOAD_BYTES};
use pi_server::system::mdns_instance_name;
use pi_server::tree::{artifact_view, capture_turn, deliverables_with_marks, ArtifactRow, FileTree};

fn project(id: &str, cwd: &str, ws: bool) -> (String, String, bool) {
    (id.to_string(), cwd.to_string(), ws)
}

#[test]
fn base_dir_change_queues_workspaces_outside_new_base() {
    let q = migration_queue(
        "/new",
        &[
            project("w1", "/old/workspaces/w1", true),
            project("w2", "/new/workspaces/w2", true),
            project("p", "/code/p", false),
            project("w3", "/elsewhere", true),
        ],
    );
    assert_eq!(q.len(), 2);
    assert_eq!(q[0].id, "w1");
    assert_eq!(q[0].old_path, "/old/workspaces/w1");
    assert_eq!(q[0].new_path, "/new/workspaces/w1");
    assert!(!q[0].waiting);
    assert_eq!(q[1].id, "w3");
    assert_eq!(q[1].new_path, "/new/workspaces/w3");
}

#[test]
fn base_dir_change_waits_for_empty_queue() {
    let mut st = MigrationState::new();
    assert!(st.accepts_base_change());
    st.restart(vec![PendingMigration {
        id: "w".to_string(),
        old_path: "/a".to_string(),
        new_path: "/b".to_string(),
        waiting: false,
    }]);
    assert!(!st.accepts_base_change());
    assert!(st.errors.is_empty());
    st.finish("w", None);
    assert!(st.accepts_base_change());
}

#[test]
fn uploads_join_the_snapshot_baseline() {
    let mut t = FileTree::new();
    t.insert("a.txt".to_string(), (1, 1, 1));
    t.note_uploads(&[("b.txt".to_string(), (5, 6, 7)), ("a.txt".to_string(), (2, 3, 4))]);
    assert_eq!(t.get("a.txt"), Some((2, 3, 4)));
    assert_eq!(t.get("b.txt"), Some((5, 6, 7)));
    assert_eq!(t.len(), 2);
}

fn row(path: &str) -> ArtifactRow {
    ArtifactRow {
        id: "art_x".to_string(),
        workspace_id: "w".to_string(),
        session_id: "s".to_string(),
        turn_id: 3,
        rel_path: path.to_string(),
        op: "modified".to_string(),
        size: 10,
        lines_added: 1,
        lines_deleted: 0,
        source: "snapshot".to_string(),
        deliverable: true,
        created_at: "t".to_string(),
    }
}

#[test]
fn manual_marks_fill_the_deliverables_list() {
    let rows = vec![row("output/r.md")];
    let marks = vec![
        ("output/r.md".to_string(), "t1".to_string()),
        ("notes.txt".to_string(), "t2".to_string()),
    ];
    let out = deliverables_with_marks(rows, &marks, "w", 1700000000123);
    assert_eq!(out.len(), 2);
    assert_eq!(out[0].id, "art_x");
    let m = &out[1];
    assert_eq!(m.id, "mark:1700000000123");
    assert_eq!(m.rel_path, "notes.txt");
    assert_eq!(m.op, "new");
    assert_eq!(m.source, "manual");
    assert_eq!(m.session_id, "");
    assert_eq!(m.turn_id, 0);
    assert!(m.deliverable);
    assert_eq!(m.created_at, "t2");
    assert_eq!(m.workspace_id, "w");
}

#[test]
fn write_blocks_only_outside_and_unapproved() {
    assert!(write_block_needed("ask", "write", false, false));
    assert!(write_block_needed("deny", "edit", false, false));
    assert!(!write_block_needed("allow", "write", false, false));
    assert!(!write_block_needed("ask", "read", false, false));
    assert!(!write_block_needed("ask", "write", true, false));
    assert!(!write_block_needed("ask", "write", false, true));
    let id = write_block_request_id();
    assert_eq!(id.len(), 11);
    assert!(id.starts_with("wb_"));
    assert!(id[3..].chars().all(|c| c.is_ascii_hexdigit() && !c.is_ascii_uppercase()));
}

#[test]
fn pin_regeneration_stores_hash_of_new_pin() {
    let mut cfg = LanAuthConfig::unset();
    assert_eq!(cfg.apply_update(Some(true), false), None);
    assert!(cfg.enabled);
    assert!(cfg.pin_hash.is_empty());
    let pin = cfg.apply_update(None, true).unwrap();
    assert_eq!(pin.len(), 6);
    assert!(pin.chars().all(|c| c.is_ascii_digit()));
    assert_eq!(cfg.pin_salt.len(), 32);
    assert_eq!(cfg.pin_hash, hash_pin(&pin, &cfg.pin_salt));
    assert!(cfg.enabled);
}

#[test]
fn device_cookie_text() {
    assert_eq!(
        device_cookie("abc"),
        "piter_lan_token=abc; HttpOnly; Path=/; Max-Age=2592000; SameSite=Lax"
    );
}

#[test]
fn upload_checks_name_then_size() {
    assert_eq!(upload_verdict("docs/a.txt", 10), Ok("docs/a.txt".to_string()));
    assert_eq!(upload_verdict("a.bin", MAX_UPLOAD_BYTES + 1), Err("too_large".to_string()));
    assert_eq!(upload_verdict("a.bin", MAX_UPLOAD_BYTES), Ok("a.bin".to_string()));
    assert!(upload_verdict("output/x", 1).is_err());
    assert!(upload_verdict("../x", MAX_UPLOAD_BYTES + 1).unwrap_err() != "too_large");
}

#[test]
fn zip_name_and_listing_base() {
    assert_eq!(zip_disposition("My \"ws\""), "attachment; filename=\"My ws.zip\"");
    assert_eq!(listing_base_path("C:\\w\\a"), "C:/w/a/");
    assert_eq!(listing_base_path("/w/a/"), "/w/a/");
}

#[test]
fn artifact_view_reports_millis() {
    let mut r = row("a.txt");
    r.created_at = "2024-01-01T00:00:01.500Z".to_string();
    let v = artifact_view(&r);
    assert_eq!(v.created_at, 1704067201500);
    assert_eq!(v.path, "a.txt");
    assert_eq!(v.op, "modified");
    r.created_at = "not a time".to_string();
    assert_eq!(artifact_view(&r).created_at, 0);
}

#[test]
fn workspace_base_prefers_configured_then_install_dir() {
    assert_eq!(workspace_base("/cfg", true, "/inst", true, "/data"), "/cfg");
    assert_eq!(workspace_base("  ", true, "/inst", true, "/data"), "/inst");
    assert_eq!(workspace_base("/cfg", false, "/inst", true, "/data"), "/inst");
    assert_eq!(workspace_base("", false, "/inst", false, "/data"), "/data");
}

#[test]
fn default_instance_name_non_empty() {
    let name = mdns_instance_name(None, Some("host-a"));
    assert!(!name.is_empty());
    assert_eq!(mdns_instance_name(None, None), "piter");
}

#[test]
fn env_override_wins() {
    assert_eq!(mdns_instance_name(Some("书房 Piter"), Some("host-a")), "书房 Piter");
    assert_eq!(mdns_instance_name(Some("  书房 Piter \n"), Some("host-a")), "书房 Piter");
    assert_eq!(mdns_instance_name(Some("   "), Some("host-a")), "host-a");
}

#[test]
fn upload_rejects_output_and_traversal() {
    assert_eq!(upload_verdict("output/report.md", 1), Err("output_path_excluded".to_string()));
    assert_eq!(upload_verdict("../evil.txt", 1), Err("path traversal not allowed".to_string()));
}

#[test]
fn unchanged_tree_yields_no_artifacts() {
    let mut t = FileTree::new();
    t.insert("a.txt".to_string(), (3, 4, 5));
    t.insert("b/c.rs".to_string(), (1, 2, 3));
    assert!(pi_server::tree::diff_trees(&t, &t).is_empty());
}

#[test]
fn first_capture_with_existing_files_is_baseline_only() {
    // The workspace already holds two files when the session's first turn ends.
    let mut scan1 = FileTree::new();
    scan1.insert("src/main.rs".to_string(), (25, 1000, 2));
    scan1.insert("README.md".to_string(), (3, 1000, 1));
    let rows = capture_turn(None, &scan1, "w", "s1", 1, "snapshot", &[], "t1");
    assert!(rows.is_empty());
    // The scan became the baseline; only the file changed next is reported.
    let mut scan2 = FileTree::new();
    scan2.insert("src/main.rs".to_string(), (13, 2000, 1));
    scan2.insert("README.md".to_string(), (3, 1000, 1));
    let rows = capture_turn(Some(&scan1), &scan2, "w", "s1", 2, "snapshot", &[], "t2");
    assert_eq!(rows.len(), 1);
    assert_eq!(rows[0].rel_path, "src/main.rs");
    assert_eq!(rows[0].op, "modified");
    assert_eq!((rows[0].lines_added, rows[0].lines_deleted), (0, 1));
    assert_eq!(rows[0].turn_id, 2);
    assert!(!rows[0].deliverable);
}

#[test]
fn workspace_ids_are_tagged() {
    let a = new_workspace_id();
    let b = new_workspace_id();
    assert!(a.starts_with("ws_"));
    assert_eq!(a.len(), 11);
    assert!(a[3..].chars().all(|c| c.is_ascii_hexdigit() && !c.is_ascii_uppercase()));
    assert_ne!(a, b);
}
