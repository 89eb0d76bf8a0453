use pi_server::budget::{next_month, prev_month, status_key, status_reusable, BudgetStatus, StatusKey};
use pi_server::fork::{fork_entry_of, id_time_of, resolve_fork_target_checked, ForkEntry};
use pi_server::launch::{augmented_path_dirs_windows, win_join_path};
use pi_server::names::{decode_project_name_with, encode_project_name_with};
use pi_server::session::{ChatMessage, MessageContent};
use pi_server::system::{adapter_heading_of, ipv4_config_address, is_virtual_adapter};

fn msg(text: &str) -> ChatMessage {
    ChatMessage {
        role: Some("user".to_string()),
        content: MessageContent::Text(text.to_string()),
        raw: None,
        tool_executions: Vec::new(),
    }
}

#[test]
fn windows_project_names() {
    assert_eq!(encode_project_name_with("C:\\Users\\me\\proj", true), "--C--Users-me-proj--");
    assert_eq!(decode_project_name_with("--C--Users-me-proj--", true), "C:\\Users\\me\\proj");
    assert_eq!(decode_project_name_with("--a-b--", true), "a\\b");
    assert_eq!(encode_project_name_with("/home/u/p", false), "--home-u-p--");
    assert_eq!(decode_project_name_with("--home-u-p--", false), "/home/u/p");
}

#[test]
fn windows_path_extras() {
    assert_eq!(win_join_path("C:\\Users\\me", ".cargo"), "C:\\Users\\me\\.cargo");
    assert_eq!(win_join_path("C:\\", "x"), "C:\\x");
    assert_eq!(win_join_path("C:", "x"), "C:x");
    let current = vec!["C:\\Windows".to_string(), "C:\\Users\\me\\.cargo\\bin".to_string()];
    let r = augmented_path_dirs_windows(&current, Some("C:\\Users\\me\\AppData\\Roaming"), Some("C:\\Users\\me"));
    assert_eq!(
        r,
        vec![
            "C:\\Windows".to_string(),
            "C:\\Users\\me\\.cargo\\bin".to_string(),
            "C:\\Users\\me\\AppData\\Roaming\\npm".to_string(),
            "C:\\Users\\me\\.pi\\agent\\npm\\node_modules\\.bin".to_string(),
            "C:\\Users\\me\\.bun\\bin".to_string(),
            "C:\\Users\\me\\scoop\\shims".to_string(),
        ]
    );
    assert_eq!(augmented_path_dirs_windows(&[], None, None), Vec::<String>::new());
}

#[test]
fn ipconfig_lines() {
    assert_eq!(
        ipv4_config_address("   IPv4 Address. . . . . . . . . . . : 192.168.1.23 "),
        Some("192.168.1.23".to_string())
    );
    assert_eq!(ipv4_config_address("   IPv6 Address. . . : fe80::1"), None);
    assert_eq!(ipv4_config_address("IPv4 only"), None);
    assert_eq!(adapter_heading_of("Ethernet adapter Ethernet 2:"), Some(Some("ethernet".to_string())));
    assert_eq!(adapter_heading_of("Wireless LAN adapter WLAN:"), Some(Some("wlan".to_string())));
    assert_eq!(adapter_heading_of("Unknown adapter:"), Some(None));
    assert_eq!(adapter_heading_of("   Subnet Mask . . . : 255.255.255.0"), None);
    assert!(is_virtual_adapter("vethernet-wsl"));
    assert!(is_virtual_adapter("docker0"));
    assert!(!is_virtual_adapter("wlan"));
}

#[test]
fn fork_lines_are_selected_in_the_library() {
    let line = r#"{"type":"message","id":"e1","message":{"role":"user","content":"hi","timestamp":1700}}"#;
    let e = fork_entry_of(line, &msg("hi")).unwrap();
    assert_eq!(e.entry_id, "e1");
    assert_eq!(e.timestamp, 1700);
    assert_eq!(e.text, "hi");
    let no_time = r#"{"type":"message","id":"e2","message":{"role":"user","content":"x"}}"#;
    assert_eq!(fork_entry_of(no_time, &msg("x")).unwrap().timestamp, 0);
    let assistant = r#"{"type":"message","id":"e3","message":{"role":"assistant","content":"x"}}"#;
    assert!(fork_entry_of(assistant, &msg("x")).is_none());
    let no_id = r#"{"type":"message","message":{"role":"user","content":"x"}}"#;
    assert!(fork_entry_of(no_id, &msg("x")).is_none());
    assert!(fork_entry_of("not json", &msg("x")).is_none());
    assert_eq!(id_time_of(line), Some(("e1".to_string(), Some(1700))));
    assert_eq!(id_time_of(r#"{"id":"s"}"#), Some(("s".to_string(), None)));
    assert_eq!(id_time_of(r#"{"type":"x"}"#), None);
}

#[test]
fn fork_lookup_refuses_unrelatable_times() {
    let entries = vec![ForkEntry { entry_id: "m".to_string(), timestamp: i64::MIN, text: "a".to_string() }];
    assert_eq!(resolve_fork_target_checked(&entries, Some("a"), Some(1)), None);
    assert_eq!(resolve_fork_target_checked(&entries, Some("a"), None), Some(("m".to_string(), i64::MIN)));
}

#[test]
fn budget_status_reuse() {
    let s = BudgetStatus {
        used: 0,
        budget: 100,
        tier: 0,
        reset_day: 1,
        cycle_start: "2026-01-01".to_string(),
        cycle_end: "2026-02-01".to_string(),
    };
    let k = status_key(&s, 100, true);
    assert!(status_reusable(&k, 59_999, &k.clone()));
    assert!(!status_reusable(&k, 60_000, &k.clone()));
    let other: StatusKey = status_key(&s, 200, true);
    assert!(!status_reusable(&k, 0, &other));
}

#[test]
fn neighbouring_months() {
    assert_eq!(prev_month(2026, 1), (2025, 12));
    assert_eq!(next_month(2026, 12), (2027, 1));
    assert_eq!(next_month(2026, 13), (2026, 14));
    assert_eq!(prev_month(2026, 14), (2026, 13));
}
