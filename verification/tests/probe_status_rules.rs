use route_warden::probe::{classify, response_result, transport_failure_result, IoErrorKind};

#[test]
fn classify_status_codes() {
    assert!(classify("BINANCE", 403).is_success);
    assert!(!classify("BINANCE", 429).is_success);

    assert!(classify("OPENAI", 401).is_success);
    assert!(!classify("OPENAI", 429).is_success);

    assert!(classify("GITHUB", 301).is_success);
    assert!(!classify("GITHUB", 503).is_success);
}

#[test]
fn classify_target_names_ignore_ascii_case() {
    assert!(classify("binance", 403).is_success);
    assert!(classify("OpenAI", 401).is_success);
    assert!(!classify("openai", 302).is_success);
    assert!(classify("google", 204).is_success);
    assert!(classify("google", 399).is_success);
    assert!(!classify("google", 400).is_success);
    assert!(!classify("google", 199).is_success);
}

#[test]
fn response_result_records_status_failure_kind() {
    let ok = response_result("BINANCE", "https://api.binance.com", 5_000_000, 403);
    assert!(ok.is_success);
    assert_eq!(ok.status_code, Some(403));
    assert_eq!(ok.failure_kind, None);

    let bad = response_result("BINANCE", "https://api.binance.com", 5_000_000, 429);
    assert!(!bad.is_success);
    assert_eq!(bad.failure_kind, Some("http_status_429".to_string()));

    let failed = transport_failure_result("google", "https://www.google.com", 7, true, "x", Some(IoErrorKind::Other));
    assert!(!failed.is_success);
    assert_eq!(failed.status_code, None);
    assert_eq!(failed.failure_kind, Some("timeout".to_string()));
    assert_eq!(failed.latency_ns, 7);
}
