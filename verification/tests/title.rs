use pi_server::title::{generate_session_title, maybe_generate};

#[test]
fn skips_greetings_and_falls_back_to_first() {
    assert_eq!(
        generate_session_title(&["hi".to_string(), "hello!".to_string()]),
        Some("Hi".to_string())
    );
}

#[test]
fn strips_opener_and_capitalizes() {
    assert_eq!(
        generate_session_title(&["please write a function to add two numbers".to_string()]),
        Some("Write a function to add two numbers".to_string())
    );
}

#[test]
fn extracts_first_sentence() {
    assert_eq!(
        generate_session_title(&["explain routing.".to_string()]),
        Some("Explain routing.".to_string())
    );
}

#[test]
fn truncates_long_titles_with_ellipsis() {
    let t = generate_session_title(&["a".repeat(120)]).unwrap();
    assert!(t.chars().count() <= 58, "title too long: {}", t.chars().count());
    assert!(t.ends_with('…'));
}

#[test]
fn maybe_generate_gates_on_state() {
    let candidates = vec!["explain routing.".to_string()];
    assert_eq!(maybe_generate("i1", 1, false, &candidates), None);
    assert_eq!(maybe_generate("i1", 2, true, &candidates), None);
    assert_eq!(maybe_generate("i1", 2, false, &[]), None);
    assert_eq!(
        maybe_generate("i1", 2, false, &candidates),
        Some("Explain routing.".to_string())
    );
}

#[test]
fn title_edge_cases() {
    assert_eq!(generate_session_title(&[]), None);
    // first line only, then the first sentence end from the tenth character on
    assert_eq!(
        generate_session_title(&["fix the bug in main.rs now! please\nsecond line".to_string()]),
        Some("Fix the bug in main.".to_string())
    );
    // memory instructions are skipped
    assert_eq!(
        generate_session_title(&["Read your memory first".to_string(), "rename the module".to_string()]),
        Some("Rename the module".to_string())
    );
    // long titles are cut at the last space before 57 characters
    let long = "word ".repeat(20);
    let t = generate_session_title(&[long]).unwrap();
    assert!(t.ends_with("word…"));
    // an opener is only dropped when followed by white space
    assert_eq!(
        generate_session_title(&["okaydokey rewrite everything".to_string()]),
        Some("Okaydokey rewrite everything".to_string())
    );
}
