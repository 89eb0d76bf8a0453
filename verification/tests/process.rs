use pi_server::launch::augmented_path_dirs;
use pi_server::extensions::{
    extension_lookup, glob_to_regex, has_glob_chars, merge_extension_entries, ExtensionEntry, ExtensionLookup,
};
use pi_server::git::{restore_outcome, stash_ref, untracked_paths};
use pi_server::launch::{event_line, pi_cli_args, spawn_cwd, stdin_line};
use pi_server::names::{decode_project_name, encode_project_name, format_model_arg};

#[test]
fn project_names_round_trip() {
    assert_eq!(encode_project_name("/home/me/proj"), "--home-me-proj--");
    assert_eq!(decode_project_name("--home-me-proj--"), "/home/me/proj");
    assert_eq!(encode_project_name("rel/dir"), "--rel-dir--");
    assert_eq!(encode_project_name("/"), "----");
    assert_eq!(decode_project_name("----"), "/");
    // not framed: taken as is
    assert_eq!(decode_project_name("a-b"), "/a/b");
    assert_eq!(decode_project_name("---"), "////");
    // dashes inside a name do not survive
    assert_eq!(decode_project_name(&encode_project_name("/my-app")), "/my/app");
}

#[test]
fn model_argument() {
    let id = Some("gpt".to_string());
    let provider = Some("openai".to_string());
    assert_eq!(format_model_arg(&id, &provider), Some("openai/gpt".to_string()));
    assert_eq!(format_model_arg(&id, &None), Some("gpt".to_string()));
    assert_eq!(format_model_arg(&None, &provider), None);
}

#[test]
fn pi_command_line() {
    let exts = vec!["/e/a.ts".to_string(), "/e/b.ts".to_string()];
    assert_eq!(
        pi_cli_args(Some("/s.jsonl"), true, &exts, Some("p/m")),
        vec!["--mode", "rpc", "--no-extensions", "--session", "/s.jsonl", "-e", "/e/a.ts", "-e", "/e/b.ts", "--model", "p/m"]
    );
    assert_eq!(pi_cli_args(None, false, &[], None), vec!["--mode", "rpc", "--no-extensions", "--no-session"]);
    assert_eq!(pi_cli_args(None, true, &[], None), vec!["--mode", "rpc", "--no-extensions"]);
    assert_eq!(spawn_cwd(None), ".");
    assert_eq!(spawn_cwd(Some("\\\\?\\C:\\work")), "C:\\work");
    assert_eq!(spawn_cwd(Some("/w")), "/w");
    assert_eq!(stdin_line("{\"a\":1}"), "{\"a\":1}\n");
    assert_eq!(stdin_line("x\n"), "x\n");
    assert_eq!(stdin_line(""), "\n");
    assert_eq!(event_line("  {\"type\":\"x\"}\r"), Some("{\"type\":\"x\"}".to_string()));
    assert_eq!(event_line(" \t "), None);
}

#[test]
fn glob_patterns_become_regexes() {
    assert_eq!(glob_to_regex("extensions/*.ts"), "extensions/[^/]*\\.ts");
    assert_eq!(glob_to_regex("**/index.?s"), ".*/index\\.[^/]s");
    assert_eq!(glob_to_regex("src/[ab]*.js"), "src/[ab][^/]*\\.js");
    assert_eq!(glob_to_regex("a[bc"), "a[bc");
    assert_eq!(glob_to_regex("(x)+"), "\\(x\\)\\+");
    assert!(has_glob_chars("a/*.ts"));
    assert!(has_glob_chars("a?"));
    assert!(has_glob_chars("[x]"));
    assert!(!has_glob_chars("index.ts"));
}

fn entry(name: &str, path: Option<&str>) -> ExtensionEntry {
    ExtensionEntry { name: name.to_string(), path: path.map(|p| p.to_string()) }
}

#[test]
fn project_candidates_merge_by_name() {
    let global = vec![entry("a", Some("/g/a.ts")), entry("npm:b", None)];
    let project = vec![entry("a", Some("/p/a.ts")), entry("c", Some("/p/c.ts")), entry("c", Some("/p/c2.ts"))];
    let merged = merge_extension_entries(global, project);
    let names: Vec<&str> = merged.iter().map(|e| e.name.as_str()).collect();
    assert_eq!(names, vec!["a", "npm:b", "c"]);
    assert_eq!(merged[0].path.as_deref(), Some("/g/a.ts"));
    assert_eq!(merged[2].path.as_deref(), Some("/p/c.ts"));
}

#[test]
fn extension_names_are_looked_up_in_order() {
    match extension_lookup("tool", "/proj", "/home/u/.pi/agent") {
        ExtensionLookup::Files { candidates } => assert_eq!(
            candidates,
            vec![
                "/home/u/.pi/agent/extensions/tool.ts",
                "/home/u/.pi/agent/extensions/tool/index.ts",
                "/proj/.pi/extensions/tool.ts",
                "/proj/.pi/extensions/tool/index.ts",
            ]
        ),
        ExtensionLookup::Package { .. } => panic!("plain name"),
    }
    match extension_lookup("npm:@s/pkg", "/proj", "/a") {
        ExtensionLookup::Package { dirs } => {
            assert_eq!(dirs, vec!["/a/npm/node_modules/@s/pkg", "/proj/.pi/npm/node_modules/@s/pkg"])
        }
        ExtensionLookup::Files { .. } => panic!("npm package"),
    }
    match extension_lookup("git:github.com/o/r", "/proj", "/a") {
        ExtensionLookup::Package { dirs } => {
            assert_eq!(dirs, vec!["/a/git/github.com/o/r", "/proj/.pi/git/github.com/o/r"])
        }
        ExtensionLookup::Files { .. } => panic!("git package"),
    }
}

#[test]
fn git_outputs_are_read() {
    assert_eq!(stash_ref(true, "abc123\n"), Some("abc123".to_string()));
    assert_eq!(stash_ref(true, "  \n"), None);
    assert_eq!(stash_ref(false, "abc"), None);
    let status = "?? new.txt\n M tracked.rs\n?? sub/nested.txt\r\n?? \n?? ?? odd\n";
    assert_eq!(untracked_paths(true, status), vec!["new.txt", "sub/nested.txt", "odd"]);
    assert!(untracked_paths(false, status).is_empty());
    assert_eq!(restore_outcome(true, "ignored"), Ok(()));
    assert_eq!(restore_outcome(false, " error: bad ref\n"), Err("error: bad ref".to_string()));
}

#[test]
fn tool_directories_join_the_path_once() {
    let current = vec!["/usr/bin".to_string(), "/custom".to_string()];
    let nvm = vec!["/h/.nvm/versions/node/v20/bin".to_string()];
    let dirs = augmented_path_dirs(&current, Some("/h"), &nvm);
    assert_eq!(
        dirs,
        vec![
            "/usr/bin",
            "/custom",
            "/opt/homebrew/bin",
            "/opt/homebrew/sbin",
            "/usr/local/bin",
            "/usr/local/sbin",
            "/bin",
            "/h/.pi/agent/npm/node_modules/.bin",
            "/h/.local/bin",
            "/h/.bun/bin",
            "/h/.cargo/bin",
            "/h/.local/share/mise/shims",
            "/h/.nvm/versions/node/v20/bin",
        ]
    );
    assert_eq!(augmented_path_dirs(&[], None, &nvm).len(), 6);
}
