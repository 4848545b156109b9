use arkivist::domain::Message;
use arkivist::signature::SignatureError;
use arkivist::worker::{
    archive_content_type, build_file_storage_location, first_non_empty,
    is_loopback_worker_base_url, message_from_row, non_empty, normalize_empty, port_or_default,
    qstash_error_code, row_count, signature_verification_enabled, signing_keys_present,
    storage_key, thread_root_ts, R2Config, WorkerConfig,
};

fn config() -> WorkerConfig {
    WorkerConfig {
        host: "127.0.0.1".to_owned(),
        port: 4002,
        event_log_path: "logs/process-events.jsonl".to_owned(),
        worker_base_url: "http://127.0.0.1:4002".to_owned(),
        slack_api_base_url: "https://slack.com/api".to_owned(),
        openrouter_base_url: "https://openrouter.ai/api/v1".to_owned(),
        openrouter_api_key: None,
        openrouter_model: None,
        slack_user_token: None,
        r2_account_id: None,
        r2_access_key_id: None,
        r2_secret_access_key: None,
        r2_bucket: None,
        r2_public_url: None,
        r2_endpoint_url: None,
        r2_key_prefix: None,
        current_signing_key: None,
        next_signing_key: None,
    }
}

#[test]
fn bind_address_joins_host_and_port() {
    assert_eq!(config().bind_address(), "127.0.0.1:4002");
    let mut c = config();
    c.host = "0.0.0.0".to_owned();
    c.port = 0;
    assert_eq!(c.bind_address(), "0.0.0.0:0");
    c.port = 65535;
    assert_eq!(c.bind_address(), "0.0.0.0:65535");
}

#[test]
fn settings_are_read_from_the_first_non_blank_name() {
    assert_eq!(first_non_empty(&vec![None, Some("  ".to_owned()), Some(" acct ".to_owned()), Some("x".to_owned())]).as_deref(), Some("acct"));
    assert_eq!(first_non_empty(&vec![None, Some(" ".to_owned())]), None);
    assert_eq!(port_or_default(Some("8080"), 4002), 8080);
    assert_eq!(port_or_default(Some("99999"), 4002), 4002);
    assert_eq!(port_or_default(Some("abc"), 4002), 4002);
    assert_eq!(port_or_default(None, 4002), 4002);
}

#[test]
fn signatures_are_checked_only_off_this_machine_with_a_key() {
    assert!(signing_keys_present(Some(" k "), None));
    assert!(signing_keys_present(None, Some("k")));
    assert!(!signing_keys_present(Some("  "), None));
    assert!(is_loopback_worker_base_url("http://127.0.0.1:4002"));
    assert!(is_loopback_worker_base_url("http://localhost:4002/x"));
    assert!(!is_loopback_worker_base_url("https://worker.example.com"));
    assert!(!is_loopback_worker_base_url("not a url"));
    assert!(!signature_verification_enabled("http://127.0.0.1:4002", Some("k"), None));
    assert!(signature_verification_enabled("https://worker.example.com", None, Some("k")));
    assert!(!signature_verification_enabled("https://worker.example.com", None, None));
    assert_eq!(qstash_error_code(SignatureError::MissingSignatureHeader), "missing_qstash_signature");
    assert_eq!(qstash_error_code(SignatureError::Expired), "invalid_qstash_signature");
}

#[test]
fn archived_files_are_keyed_under_the_workspace_prefix() {
    let config = R2Config::from_options(
        Some(" acct ".to_owned()),
        Some("key".to_owned()),
        Some("secret".to_owned()),
        Some("bucket".to_owned()),
        Some("https://r2.example.com".to_owned()),
        Some("  ".to_owned()),
    )
    .expect("config");
    assert_eq!(config.account_id, "acct");
    assert_eq!(config.endpoint_url, None);
    let location = build_file_storage_location(&config, "C123", "F123", "brief v1.pdf", Some(" T123 "));
    assert_eq!(location.storage_key, "T123/C123/F123/brief v1.pdf");
    assert_eq!(location.public_url, "https://r2.example.com/T123/C123/F123/brief v1.pdf");
    assert_eq!(storage_key("C1", "F1", "a.txt", Some("  ")), "C1/F1/a.txt");
    assert_eq!(storage_key("C1", "F1", "a.txt", None), "C1/F1/a.txt");
    assert!(R2Config::from_options(None, Some("k".to_owned()), Some("s".to_owned()), Some("b".to_owned()), Some("p".to_owned()), None).is_none());
    assert_eq!(non_empty(Some("  x ".to_owned())).as_deref(), Some("x"));
    assert_eq!(archive_content_type(Some("application/pdf"), Some("text/plain")), "application/pdf");
    assert_eq!(archive_content_type(None, Some("text/plain")), "text/plain");
    assert_eq!(archive_content_type(None, None), "application/octet-stream");
}

#[test]
fn database_rows_are_read_back() {
    assert_eq!(thread_root_ts("1.0", Some("0.5")), "0.5");
    assert_eq!(thread_root_ts("1.0", None), "1.0");
    assert_eq!(normalize_empty("  ".to_owned()), None);
    assert_eq!(normalize_empty(" a ".to_owned()).as_deref(), Some("a"));
    let root = message_from_row("C1".to_owned(), "1.0".to_owned(), "1.0".to_owned(), None, "t".to_owned());
    assert_eq!(root.thread_ts, None);
    let reply: Message = message_from_row("C1".to_owned(), "1.1".to_owned(), "1.0".to_owned(), Some("U1".to_owned()), "t".to_owned());
    assert_eq!(reply.thread_ts.as_deref(), Some("1.0"));
    assert_eq!(row_count(-4), 0);
    assert_eq!(row_count(12), 12);
}

#[test]
fn port_is_read_as_str_parse_reads_a_u16() {
    for raw in ["0", "65535", "+80", "007", "65536", "-0", "-1", "+", "", " 80", "80 ", "8_0", "99999999999999999999999"] {
        assert_eq!(port_or_default(Some(raw), 4002), raw.parse::<u16>().unwrap_or(4002), "{raw:?}");
    }
    assert_eq!(port_or_default(Some("+80"), 4002), 80);
    assert_eq!(port_or_default(Some("-0"), 4002), 4002);
}

#[test]
fn blank_settings_are_trimmed_by_unicode_white_space() {
    for raw in ["\u{3000}x\u{85}", "\t\u{a0}x\u{2028}", "\u{200a}x\u{1680}", "\u{200b}x"] {
        assert_eq!(normalize_empty(raw.to_owned()).as_deref(), Some(raw.trim()), "{raw:?}");
    }
    assert_eq!(normalize_empty("\u{202f}\u{205f}\u{2000}\u{0b}".to_owned()), None);
}
