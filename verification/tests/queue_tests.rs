use arkivist::queue::{
    build_heartbeat_endpoint, build_process_event_endpoint, build_qstash_publish_url,
    build_refresh_thread_summaries_endpoint, normalize_qstash_base_url, DirectQueue,
    ProcessEventQueue, QStashQueue, QueueError, QueueMode, DEFAULT_QSTASH_BASE_URL,
};

fn check_process_event_endpoint_is_normalized() {
    assert_eq!(
        build_process_event_endpoint("http://127.0.0.1:4002/").expect("endpoint"),
        "http://127.0.0.1:4002/jobs/process_event"
    );
    assert_eq!(
        build_refresh_thread_summaries_endpoint("http://127.0.0.1:4002/").expect("endpoint"),
        "http://127.0.0.1:4002/jobs/refresh_thread_summaries"
    );
}

fn check_heartbeat_endpoint_is_normalized() {
    assert_eq!(
        build_heartbeat_endpoint("http://127.0.0.1:4002/").expect("endpoint"),
        "http://127.0.0.1:4002/jobs/heartbeat"
    );
}

fn check_empty_base_url_is_rejected() {
    assert!(matches!(
        build_process_event_endpoint("   "),
        Err(QueueError::EmptyWorkerBaseUrl)
    ));
}

fn check_queue_defaults_to_direct_mode() {
    let queue = ProcessEventQueue::new("http://127.0.0.1:4002", None, None).expect("queue");

    assert_eq!(queue.mode(), QueueMode::Direct);
    assert_eq!(queue.endpoint(), "http://127.0.0.1:4002/jobs/process_event");
}

fn check_queue_switches_to_qstash_mode_when_token_is_present() {
    let queue = ProcessEventQueue::new(
        "http://127.0.0.1:4002",
        Some("qstash.upstash.io"),
        Some("secret"),
    )
    .expect("queue");

    assert_eq!(queue.mode(), QueueMode::QStash);
    assert_eq!(queue.endpoint(), "http://127.0.0.1:4002/jobs/process_event");
}

fn check_empty_qstash_base_url_falls_back_to_default() {
    let queue =
        QStashQueue::new("https://worker.example.com", Some("   "), "secret").expect("queue");

    assert!(
        queue
            .publish_url()
            .starts_with(&format!("{DEFAULT_QSTASH_BASE_URL}/v2/publish/"))
    );
}

#[test]
fn client_process_event_endpoint_is_normalized() {
    check_process_event_endpoint_is_normalized();
}

#[test]
fn client_heartbeat_endpoint_is_normalized() {
    check_heartbeat_endpoint_is_normalized();
}

#[test]
fn client_empty_base_url_is_rejected() {
    check_empty_base_url_is_rejected();
}

#[test]
fn client_queue_defaults_to_direct_mode() {
    check_queue_defaults_to_direct_mode();
}

#[test]
fn client_queue_switches_to_qstash_mode_when_token_is_present() {
    check_queue_switches_to_qstash_mode_when_token_is_present();
}

#[test]
fn client_empty_qstash_base_url_falls_back_to_default() {
    check_empty_qstash_base_url_falls_back_to_default();
}

#[test]
fn client_tests_process_event_endpoint_is_normalized() {
    check_process_event_endpoint_is_normalized();
}

#[test]
fn client_tests_heartbeat_endpoint_is_normalized() {
    check_heartbeat_endpoint_is_normalized();
}

#[test]
fn client_tests_empty_base_url_is_rejected() {
    check_empty_base_url_is_rejected();
}

#[test]
fn client_tests_queue_defaults_to_direct_mode() {
    check_queue_defaults_to_direct_mode();
}

#[test]
fn client_tests_queue_switches_to_qstash_mode_when_token_is_present() {
    check_queue_switches_to_qstash_mode_when_token_is_present();
}

#[test]
fn client_tests_empty_qstash_base_url_falls_back_to_default() {
    check_empty_qstash_base_url_falls_back_to_default();
}

#[test]
fn qstash_base_url_gets_a_scheme_and_loses_quotes_and_slashes() {
    assert_eq!(normalize_qstash_base_url(Some(" 'qstash.example.com/' ")), "https://qstash.example.com");
    assert_eq!(normalize_qstash_base_url(Some("\"http://local:8080//\"")), "http://local:8080");
    assert_eq!(normalize_qstash_base_url(None), DEFAULT_QSTASH_BASE_URL);
    assert_eq!(
        build_qstash_publish_url(Some("qstash.example.com"), "https://w.example.com/jobs/process_event"),
        "https://qstash.example.com/v2/publish/https://w.example.com/jobs/process_event"
    );
}

#[test]
fn direct_queue_targets_the_process_event_endpoint() {
    let queue = DirectQueue::new(" https://worker.example.com// ").expect("queue");
    assert_eq!(queue.endpoint(), "https://worker.example.com/jobs/process_event");
    assert!(matches!(DirectQueue::new(" / "), Err(QueueError::EmptyWorkerBaseUrl)));
}

#[test]
fn qstash_queue_requires_a_token() {
    assert!(matches!(
        QStashQueue::new("https://worker.example.com", None, "  "),
        Err(QueueError::EmptyQStashToken)
    ));
    let queue = ProcessEventQueue::new("https://worker.example.com", None, Some("   ")).expect("queue");
    assert_eq!(queue.mode(), QueueMode::Direct);
    assert_eq!(QueueMode::QStash.as_str(), "qstash");
}
