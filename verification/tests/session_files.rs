use pi_server::session_files::{build_sessions_response, created_text, project_dir_name, SessionFile};

fn file(dir: &str, stem: &str, created: u64, modified: u64, content: &str) -> SessionFile {
    SessionFile {
        project_dir: dir.to_string(),
        stem: stem.to_string(),
        path: format!("/s/{}/{}.jsonl", dir, stem),
        created_secs: created,
        modified_secs: modified,
        content: content.to_string(),
    }
}

#[test]
fn session_listing_groups_by_recorded_cwd_newest_first() {
    let a = file(
        "--home-u-alpha--",
        "aaaa1111-2222",
        100,
        200,
        "{\"type\":\"session\",\"id\":\"aaaa1111-2222\",\"cwd\":\"/work/alpha\"}\n{\"type\":\"message\",\"message\":{\"role\":\"user\",\"content\":\"hello there\\nsecond line\"}}\n",
    );
    let b = file(
        "--home-u-alpha--",
        "bbbb",
        100,
        300,
        "{\"type\":\"session\",\"id\":\"bbbb3333-4444\",\"cwd\":\"/work/alpha\"}\n{\"type\":\"message\",\"message\":{\"role\":\"assistant\",\"content\":\"hi\"}}\n",
    );
    let c = file(
        "--home-u-beta--",
        "cccc",
        0,
        50,
        "{\"type\":\"session\",\"id\":\"cccc\"}\r\n{\"message\":{\"role\":\"user\",\"content\":[{\"type\":\"image\"},{\"type\":\"text\",\"text\":\"from blocks\"}]}}",
    );
    let r = build_sessions_response(vec![a, b, c], false);
    assert_eq!(r.projects.len(), 2);
    // "alpha" before "beta"
    assert_eq!(r.projects[0].path, "/work/alpha");
    assert_eq!(r.projects[0].dir_name, "alpha");
    assert_eq!(r.projects[1].path, "/home/u/beta");
    assert_eq!(r.projects[1].dir_name, "beta");
    let alpha = &r.projects[0].sessions;
    assert_eq!(alpha.len(), 2);
    assert_eq!(alpha[0].id, "bbbb");
    assert_eq!(alpha[0].label, "bbbb3333");
    assert_eq!(alpha[0].preview, "");
    assert_eq!(alpha[0].updated_at, 300);
    assert_eq!(alpha[1].id, "aaaa1111-2222");
    assert_eq!(alpha[1].label, "hello there");
    assert_eq!(alpha[1].preview, "hello there\nsecond line");
    assert_eq!(alpha[1].cwd, "/work/alpha");
    let beta = &r.projects[1].sessions;
    assert_eq!(beta[0].label, "from blocks");
    assert_eq!(beta[0].created_at, "1970-01-01T00:00:00+00:00");
    assert_eq!(beta[0].file_path, "/s/--home-u-beta--/cccc.jsonl");
}

#[test]
fn session_label_and_preview_are_cut() {
    let long: String = std::iter::repeat('x').take(200).collect();
    let content = format!("{{\"message\":{{\"role\":\"user\",\"content\":\"{}\"}}}}", long);
    let r = build_sessions_response(vec![file("--p--", "s", 0, 0, &content)], false);
    let s = &r.projects[0].sessions[0];
    assert_eq!(s.label.chars().count(), 50);
    assert_eq!(s.preview.chars().count(), 120);
    assert_eq!(r.projects[0].path, "/p");
}

#[test]
fn session_ties_order_by_creation_time() {
    let x = file("--p--", "older", 10, 500, "");
    let y = file("--p--", "newer", 20, 500, "");
    let r = build_sessions_response(vec![x, y], false);
    let ids: Vec<&str> = r.projects[0].sessions.iter().map(|s| s.id.as_str()).collect();
    assert_eq!(ids, vec!["newer", "older"]);
    assert_eq!(r.projects[0].sessions[0].label, "");
}

#[test]
fn session_listing_decodes_windows_directory_names() {
    let r = build_sessions_response(vec![file("--C--Users-me-proj--", "s", 0, 0, "")], true);
    assert_eq!(r.projects[0].path, "C:\\Users\\me\\proj");
}

#[test]
fn listed_project_names() {
    assert_eq!(project_dir_name("/home/u/proj"), "proj");
    assert_eq!(project_dir_name("/home/u/proj/"), "proj");
    assert_eq!(project_dir_name("/home/u/proj/."), "proj");
    assert_eq!(project_dir_name("/"), "/");
    assert_eq!(project_dir_name("/a/.."), "/a/..");
    assert_eq!(project_dir_name(""), "");
}

#[test]
fn creation_time_text() {
    assert_eq!(created_text(86400), "1970-01-02T00:00:00+00:00");
}
