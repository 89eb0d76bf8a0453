use pi_server::archive::zip_archive;
use pi_server::budget::{budget_status_for, Date};
use pi_server::boundary::{check_mode, mode_or_default};
use pi_server::extensions::{
    dir_entry_choice, git_source_name, npm_source_name, glob_matches, glob_split, is_script_file, manifest_path, ts_extension_name, DirEntryChoice,
};
use pi_server::system::{inet_address, listen_plan, qr_svg, DEFAULT_HTTP_PORT};
use pi_server::title::generate_session_title;

#[test]
fn globs_select_whole_relative_paths() {
    assert!(glob_matches("*.ts", "a.ts"));
    assert!(!glob_matches("*.ts", "dir/a.ts"));
    assert!(glob_matches("**/*.ts", "dir/sub/a.ts"));
    assert!(glob_matches("?.js", "a.js"));
    assert!(!glob_matches("?.js", "ab.js"));
    assert!(glob_matches("[ab].ts", "b.ts"));
    assert!(!glob_matches("*.ts", "a.tsx"));
}

#[test]
fn glob_paths_split_at_the_last_slash_before_the_glob() {
    assert_eq!(glob_split("pkg/extensions/*.ts"), Some(("pkg/extensions".to_string(), "*.ts".to_string())));
    assert_eq!(glob_split("*.ts"), Some((".".to_string(), "*.ts".to_string())));
    assert_eq!(glob_split("pkg\\src\\**\\x.ts"), Some(("pkg/src".to_string(), "**/x.ts".to_string())));
    assert_eq!(glob_split("/x*.ts"), Some((".".to_string(), "x*.ts".to_string())));
    assert_eq!(glob_split("pkg/index.ts"), None);
}

#[test]
fn manifest_entries_and_package_dirs() {
    assert_eq!(manifest_path("./index.ts"), "index.ts");
    assert_eq!(manifest_path("src/x.ts"), "src/x.ts");
    assert!(is_script_file("a.ts"));
    assert!(is_script_file("b.min.js"));
    assert!(!is_script_file(".ts"));
    assert!(!is_script_file("a.tsx"));
    assert!(!is_script_file("readme"));
    assert_eq!(dir_entry_choice(true, true), DirEntryChoice::IndexTs);
    assert_eq!(dir_entry_choice(false, true), DirEntryChoice::IndexJs);
    assert_eq!(dir_entry_choice(false, false), DirEntryChoice::Scripts);
    assert_eq!(ts_extension_name("web.ts"), Some("web".to_string()));
    assert_eq!(ts_extension_name("x.ts.ts"), Some("x".to_string()));
    assert_eq!(ts_extension_name("x.js"), None);
}

#[test]
fn zip_archive_is_a_zip_of_the_files() {
    let files = vec![("a.txt".to_string(), b"hello".to_vec()), ("dir/b.md".to_string(), b"# b".to_vec())];
    let z = zip_archive(&files).unwrap();
    assert_eq!(&z[0..4], b"PK\x03\x04");
    assert!(z.windows(5).any(|w| w == b"a.txt"));
    assert!(z.windows(8).any(|w| w == b"dir/b.md"));
    assert_eq!(zip_archive(&files).unwrap(), z);
    let empty = zip_archive(&[]).unwrap();
    assert_eq!(&empty[0..4], b"PK\x05\x06");
}

#[test]
fn qr_code_is_svg() {
    let svg = qr_svg("http://192.168.1.2:31421/chat");
    assert!(svg.contains("<svg"));
    assert!(svg.contains("#000000"));
    let too_long = "x".repeat(8000);
    assert_eq!(qr_svg(&too_long), "");
}

#[test]
fn inet_lines_give_addresses() {
    assert_eq!(inet_address("    inet 192.168.1.20 netmask 0xffffff00"), Some("192.168.1.20".to_string()));
    assert_eq!(inet_address("inet 10.0.0.3/24 brd 10.0.0.255 scope global"), Some("10.0.0.3/24".to_string()));
    assert_eq!(inet_address("    inet6 fe80::1 prefixlen 64"), None);
    assert_eq!(inet_address("inet "), None);
    assert_eq!(inet_address("ether 00:11"), None);
}

#[test]
fn listen_port_falls_back_only_when_unconfigured() {
    assert_eq!(listen_plan(None), (DEFAULT_HTTP_PORT, true));
    assert_eq!(listen_plan(Some(8080)), (8080, false));
}

#[test]
fn budget_status_for_a_given_day() {
    let s = budget_status_for(150, 10_000, 1, true, Date { year: 2026, month: 2, day: 15 }).unwrap();
    assert_eq!(s.cycle_start, "2026-02-01");
    assert_eq!(s.used, 150);
    // Within the calendar's first and last years the cycle is computed
    // wherever every month it touches exists.
    assert!(budget_status_for(1, 1, 1, true, Date { year: -262143, month: 6, day: 1 }).is_ok());
    assert!(budget_status_for(1, 1, 5, true, Date { year: -262143, month: 1, day: 10 }).is_ok());
    assert!(budget_status_for(1, 1, 5, true, Date { year: -262143, month: 1, day: 3 }).is_err());
    assert!(budget_status_for(1, 1, 1, true, Date { year: 262142, month: 10, day: 31 }).is_ok());
    assert!(budget_status_for(1, 1, 1, true, Date { year: 262142, month: 11, day: 20 }).is_err());
    assert!(budget_status_for(1, 1, 20, true, Date { year: 262142, month: 11, day: 10 }).is_ok());
    assert!(budget_status_for(1, 1, 1, true, Date { year: 262142, month: 12, day: 31 }).is_err());
    let off = budget_status_for(999, 0, 40, false, Date { year: 262142, month: 10, day: 31 }).unwrap();
    assert_eq!((off.used, off.tier, off.budget, off.reset_day), (0, 0, 0, 31));
}

#[test]
fn ascii_titles_are_short_and_capitalised() {
    let long = "please write a really long description of the whole architecture of the gateway and its many parts without any sentence end".to_string();
    let t = generate_session_title(&[long]).unwrap();
    assert!(t.chars().count() <= 60);
    assert!(t.starts_with('W'));
    assert!(t.ends_with('…'));
    let t = generate_session_title(&["Okay   fix the parser bug in main.rs please".to_string()]).unwrap();
    assert_eq!(t, "Fix the parser bug in main.");
    assert_eq!(generate_session_title(&[]), None);
}

#[test]
fn workspace_modes_are_ask_allow_or_deny() {
    assert_eq!(check_mode("ask"), Ok("ask".to_string()));
    assert_eq!(check_mode("allow"), Ok("allow".to_string()));
    assert_eq!(check_mode("deny"), Ok("deny".to_string()));
    assert_eq!(check_mode("never"), Err("invalid mode: never".to_string()));
    assert_eq!(mode_or_default(None), "ask");
    assert_eq!(mode_or_default(Some("deny".to_string())), "deny");
}

#[test]
fn package_source_names() {
    assert_eq!(npm_source_name("@scope", "pkg"), "npm:@scope/pkg");
    assert_eq!(npm_source_name("pkg", "pkg"), "npm:pkg");
    assert_eq!(git_source_name("github.com/u/r"), "git:github.com/u/r");
}
