use pi_server::paths::{
    approvals_file, boundary_config_file, clean_rel_path, clean_upload_path, exclude_path,
    is_inside, is_inside_with, is_output_path, join_path, mime_for_extension,
    strip_verbatim_prefix, workspace_dir, workspaces_dir,
};
use pi_server::tree::{diff_trees, FileTree};

#[test]
fn clean_rel_path_rejects_traversal() {
    assert_eq!(clean_rel_path("./a/b.txt").unwrap(), "a/b.txt");
    assert_eq!(clean_rel_path("a\\b.txt").unwrap(), "a/b.txt");
    assert!(clean_rel_path("../etc/passwd").is_err());
    assert!(clean_rel_path("a/../../b").is_err());
    assert!(clean_rel_path("/abs").is_err());
    assert!(clean_rel_path("C:/x").is_err());
    assert!(clean_rel_path("//server/share").is_err());
    assert!(clean_rel_path("").is_err());
    assert!(clean_rel_path("a//b").is_err());
    assert_eq!(clean_upload_path("docs/readme.md").unwrap(), "docs/readme.md");
    assert!(clean_upload_path("output/report.md").is_err());
}

#[test]
fn clean_rel_path_error_messages() {
    assert_eq!(clean_rel_path("  ").unwrap_err(), "empty path");
    assert_eq!(clean_rel_path("/etc").unwrap_err(), "absolute path not allowed");
    assert_eq!(clean_rel_path("D:\\x").unwrap_err(), "absolute path not allowed");
    assert_eq!(clean_rel_path("a//b").unwrap_err(), "empty path component");
    assert_eq!(clean_rel_path("a/..").unwrap_err(), "path traversal not allowed");
    assert_eq!(clean_rel_path(" ./src/x.rs \n").unwrap(), "src/x.rs");
    assert_eq!(clean_upload_path("output").unwrap_err(), "output_path_excluded");
    assert_eq!(clean_upload_path("outputs/a").unwrap(), "outputs/a");
    // a non-ASCII first character followed by ':' is not a drive letter
    assert_eq!(clean_rel_path("é:x").unwrap(), "é:x");
}

#[test]
fn diff_trees_classifies_ops() {
    let mut old = FileTree::new();
    old.insert("a.txt".into(), (10, 100, 4));
    old.insert("gone.txt".into(), (5, 200, 2));
    old.insert("same.txt".into(), (7, 300, 3));
    let mut new = FileTree::new();
    new.insert("a.txt".into(), (12, 100, 7));
    new.insert("same.txt".into(), (7, 300, 3));
    new.insert("fresh.txt".into(), (3, 400, 1));

    let diffs = diff_trees(&old, &new);
    let ops: Vec<(&str, &str)> = diffs.iter().map(|(p, o, _, _, _)| (p.as_str(), *o)).collect();
    assert_eq!(ops, vec![
        ("a.txt", "modified"),
        ("fresh.txt", "new"),
        ("gone.txt", "deleted"),
    ]);
    let a = diffs.iter().find(|(p, _, _, _, _)| p == "a.txt").unwrap();
    assert_eq!((a.3, a.4), (3, 0));
    let fresh = diffs.iter().find(|(p, _, _, _, _)| p == "fresh.txt").unwrap();
    assert_eq!((fresh.3, fresh.4), (1, 0));
    let gone = diffs.iter().find(|(p, _, _, _, _)| p == "gone.txt").unwrap();
    assert_eq!((gone.3, gone.4), (0, 2));
}

#[test]
fn file_tree_insert_replaces_and_orders() {
    let mut t = FileTree::new();
    t.insert("b".into(), (1, 1, 1));
    t.insert("a".into(), (2, 2, 2));
    t.insert("b".into(), (3, 3, 3));
    assert_eq!(t.len(), 2);
    assert_eq!(t.get("b"), Some((3, 3, 3)));
    assert_eq!(t.get("c"), None);
    let keys: Vec<String> = t.entries().into_iter().map(|(k, _)| k).collect();
    assert_eq!(keys, vec!["a".to_string(), "b".to_string()]);
    // modified with fewer lines counts deletions
    let mut n = FileTree::new();
    n.insert("a".into(), (2, 9, 0));
    n.insert("b".into(), (3, 3, 3));
    let d = diff_trees(&t, &n);
    assert_eq!(d, vec![("a".to_string(), "modified", 2, 0, 2)]);
    assert!(diff_trees(&t, &t).is_empty());
}

#[test]
fn is_inside_normalizes_verbatim_and_case() {
    let base = r"\\?\E:\data\workspaces\ws_ab12cd";
    assert!(is_inside_with(base, r"e:\data\workspaces\ws_ab12cd\src/main.rs", true));
    assert!(is_inside_with(base, r"\\?\E:\data\workspaces\ws_ab12cd\output\a.md", true));
    assert!(is_inside_with(base, r"E:/data/workspaces/ws_ab12cd", true));
    assert!(!is_inside_with(base, r"E:\data\workspaces\ws_ab12cdef\x.txt", true));
    assert!(!is_inside_with(base, r"E:\data\workspaces\ws_ab12cd2\x.txt", true));
    assert!(!is_inside_with(base, r"E:\other\proj\x.txt", true));
}

#[test]
fn is_inside_keeps_case_by_default() {
    assert!(is_inside("/data/ws/", "/data/ws/a.txt"));
    assert!(is_inside("/data/ws", "/data/ws"));
    assert!(!is_inside("/data/ws", "/data/wsx/a"));
    assert!(!is_inside("/data/ws", "/Data/ws/a"));
    assert!(is_inside(r"\\?\C:\w", "C:/w/b"));
}

#[test]
fn exclude_list_matches_components() {
    assert!(exclude_path("node_modules/pkg/index.js"));
    assert!(exclude_path("src/node_modules/x"));
    assert!(exclude_path("target/debug/app.exe"));
    assert!(!exclude_path("src/main.rs"));
    assert!(!exclude_path("build_notes.md"));
}

#[test]
fn verbatim_prefix_and_layout() {
    assert_eq!(strip_verbatim_prefix(r"\\?\C:\x"), r"C:\x");
    assert_eq!(strip_verbatim_prefix(r"\\?\UNC\srv\share"), r"\\srv\share");
    assert_eq!(strip_verbatim_prefix("/usr/bin"), "/usr/bin");
    assert_eq!(workspaces_dir("/data"), "/data/workspaces");
    assert_eq!(workspace_dir("/data/", "ws_1"), "/data/workspaces/ws_1");
    assert_eq!(boundary_config_file("/w"), "/w/.pi/workspace.json");
    assert_eq!(approvals_file("/w"), "/w/.pi/approvals.json");
    assert_eq!(join_path("", "a"), "a");
    assert_eq!(join_path("/x", "/abs"), "/abs");
    assert!(is_output_path("output/r.md"));
    assert!(!is_output_path("output"));
    assert_eq!(mime_for_extension("mjs"), "application/javascript; charset=utf-8");
    assert_eq!(mime_for_extension("bin"), "application/octet-stream");
}
