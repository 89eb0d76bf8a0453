use pi_server::lan_auth::{
    ct_eq, extract_lan_token, access_decision, generate_pin, generate_salt, generate_token,
    hash_pin, is_loopback_ip, is_private_ipv4, pin_exchange, pin_from_bytes, pin_page_next,
    to_hex, AccessDecision, IpAddress, PinExchange, PinGuard, MAX_PIN_FAILURES,
};

fn v4(a: u8, b: u8, c: u8, d: u8) -> IpAddress {
    IpAddress::v4(a, b, c, d)
}

fn mapped(a: u8, b: u8, c: u8, d: u8) -> IpAddress {
    IpAddress::v6([0, 0, 0, 0, 0, 0xffff, (a as u16) << 8 | b as u16, (c as u16) << 8 | d as u16])
}

#[test]
fn pin_hash_is_salted_and_deterministic() {
    let salt = generate_salt();
    let a = hash_pin("123456", &salt);
    let b = hash_pin("123456", &salt);
    assert_eq!(a, b);
    assert_eq!(a.len(), 64, "sha256 hex");
    assert_ne!(a, hash_pin("123456", &generate_salt()));
    assert_ne!(a, hash_pin("654321", &salt));
}

#[test]
fn hash_pin_known_digest() {
    assert_eq!(hash_pin("1", "s"), "1b25f38c1aa8553b03240e793e2562c520496a0469d683b8fcf52ce8206a7e81");
    assert_eq!(to_hex(&[0x00, 0xab, 0x10, 0xff]), "00ab10ff");
    assert_eq!(to_hex(&[]), "");
}

#[test]
fn constant_time_eq_matches_and_mismatches() {
    let h = hash_pin("123456", "salt");
    assert!(ct_eq(&h, &h), "identical digest");
    assert!(ct_eq(&h, &h.clone()), "clone identical");
    assert!(!ct_eq(&h, &hash_pin("123456", "salt2")), "same pin, other salt");
    assert!(!ct_eq(&h, &hash_pin("654321", "salt")), "other pin, same salt");
    assert!(!ct_eq("abc", "abcd"), "length mismatch is unequal");
    let mut other = h.clone();
    other.replace_range(0..1, if other.starts_with('a') { "b" } else { "a" });
    assert!(!ct_eq(&h, &other));
}

#[test]
fn generated_pin_is_six_digits() {
    for _ in 0..50 {
        let pin = generate_pin();
        assert_eq!(pin.len(), 6);
        assert!(pin.chars().all(|c| c.is_ascii_digit()));
    }
    assert_eq!(pin_from_bytes(&[0, 19, 255, 7, 10, 99, 3]), "095709");
}

#[test]
fn token_and_salt_are_random_hex() {
    assert_ne!(generate_token(), generate_token());
    assert_ne!(generate_salt(), generate_salt());
    assert_eq!(generate_token().len(), 32);
}

#[test]
fn extracts_lan_token_from_cookie() {
    let cookie = "theme=dark; piter_lan_token=abc123; other=1";
    assert_eq!(extract_lan_token(Some(cookie)), Some("abc123".to_string()));
    assert_eq!(extract_lan_token(Some("piter_lan_token=xyz")), Some("xyz".to_string()));
    assert_eq!(extract_lan_token(Some("theme=dark")), None);
    assert_eq!(extract_lan_token(None), None);
    assert_eq!(extract_lan_token(Some("piter_lan_token=")), None);
}

#[test]
fn extract_lan_token_takes_first_non_empty() {
    assert_eq!(
        extract_lan_token(Some("piter_lan_token= ; piter_lan_token = b=c ;")),
        Some("b=c".to_string())
    );
    assert_eq!(extract_lan_token(Some("xpiter_lan_token=1")), None);
}

#[test]
fn loopback_detection_covers_v4_mapped() {
    assert!(is_loopback_ip(v4(127, 0, 0, 1)));
    assert!(is_loopback_ip(IpAddress::v6([0, 0, 0, 0, 0, 0, 0, 1])));
    assert!(is_loopback_ip(mapped(127, 0, 0, 1)));
    assert!(!is_loopback_ip(v4(192, 168, 1, 10)));
    assert!(!is_loopback_ip(mapped(192, 168, 1, 10)));
}

#[test]
fn private_ranges() {
    assert!(is_private_ipv4(v4(10, 1, 2, 3)));
    assert!(is_private_ipv4(v4(172, 16, 0, 1)));
    assert!(is_private_ipv4(v4(172, 31, 255, 1)));
    assert!(!is_private_ipv4(v4(172, 32, 0, 1)));
    assert!(is_private_ipv4(v4(192, 168, 0, 9)));
    assert!(!is_private_ipv4(v4(127, 0, 0, 1)));
    assert!(!is_private_ipv4(v4(8, 8, 8, 8)));
    assert!(!is_private_ipv4(mapped(10, 0, 0, 1)));
}

#[test]
fn pin_rate_limit_locks_after_failures_and_clears_on_success() {
    let ip = v4(192, 168, 1, 10);
    let mut g = PinGuard::new();
    let now = 1_000_000u64;
    assert!(g.remaining(ip, now).is_none());
    for _ in 0..(MAX_PIN_FAILURES - 1) {
        g.record_failure(ip, now);
        assert!(g.remaining(ip, now).is_none());
    }
    g.record_failure(ip, now);
    assert_eq!(g.remaining(ip, now), Some(60));
    assert_eq!(g.remaining(ip, now + 59_500), Some(1));
    g.record_success(ip);
    assert!(g.remaining(ip, now).is_none());
}

#[test]
fn pin_rate_limit_is_per_ip() {
    let bad = v4(192, 168, 1, 20);
    let other = v4(192, 168, 1, 11);
    let mut g = PinGuard::new();
    for _ in 0..MAX_PIN_FAILURES {
        g.record_failure(bad, 5_000);
    }
    assert!(g.remaining(bad, 5_000).is_some());
    assert!(g.remaining(other, 5_000).is_none(), "other IP unaffected");
    // the lock expires after a minute and is forgotten
    assert!(g.remaining(bad, 65_000).is_none());
    assert!(g.entry(bad).is_none());
}

#[test]
fn access_decisions() {
    assert_eq!(access_decision(true, true, "/api/x", false, false), AccessDecision::Allow);
    assert_eq!(access_decision(false, false, "/api/x", false, false), AccessDecision::Allow);
    assert_eq!(access_decision(false, true, "/api/health", false, false), AccessDecision::Allow);
    assert_eq!(access_decision(false, true, "/api/lan/auth", false, false), AccessDecision::Allow);
    assert_eq!(access_decision(false, true, "/api/sessions", true, false), AccessDecision::Allow);
    assert_eq!(access_decision(false, true, "/api/sessions", false, false), AccessDecision::Unauthorized);
    assert_eq!(access_decision(false, true, "/ws", false, true), AccessDecision::Unauthorized);
    assert_eq!(access_decision(false, true, "/chat", false, false), AccessDecision::PinPage);
    assert_eq!(pin_page_next("/chat", Some("a=1")), "/chat?a=1");
    assert_eq!(pin_page_next("/chat", None), "/chat");
}

#[test]
fn pin_exchange_flow() {
    let ip = v4(192, 168, 1, 30);
    let mut g = PinGuard::new();
    let salt = "s1";
    let h = hash_pin("111111", salt);
    assert_eq!(pin_exchange(&mut g, ip, 0, false, "111111", salt, &h), PinExchange::Disabled);
    assert_eq!(pin_exchange(&mut g, ip, 0, true, "111111", "", &h), PinExchange::NotConfigured);
    for _ in 0..5 {
        assert_eq!(pin_exchange(&mut g, ip, 0, true, "000000", salt, &h), PinExchange::BadPin);
    }
    assert_eq!(pin_exchange(&mut g, ip, 0, true, "111111", salt, &h), PinExchange::RateLimited(60));
    assert_eq!(pin_exchange(&mut g, ip, 60_000, true, "111111", salt, &h), PinExchange::Accepted);
    assert!(g.entry(ip).is_none());
}

#[test]
fn regenerated_pin_unlocks_device() {
    let mut cfg = pi_server::lan_auth::LanAuthConfig::unset();
    let pin = cfg.apply_update(Some(true), true).unwrap();
    let mut g = PinGuard::new();
    let ip = v4(10, 0, 0, 8);
    assert_eq!(pin_exchange(&mut g, ip, 5, cfg.enabled, "999999x", &cfg.pin_salt, &cfg.pin_hash), PinExchange::BadPin);
    assert_eq!(pin_exchange(&mut g, ip, 6, cfg.enabled, &pin, &cfg.pin_salt, &cfg.pin_hash), PinExchange::Accepted);
    assert!(g.entry(ip).is_none());
}
