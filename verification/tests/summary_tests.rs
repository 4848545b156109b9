use arkivist::domain::Message;
use arkivist::generation::{
    assess_generated_payload, content_text, plan_payload_keys, repair_generated_summary_payload, MessageContent, candidate_decision, select_candidate_threads, AiSummaryError,
    CandidateDecision, GeneratedSummaryPayload, GenerationTally, PayloadVerdict,
};
use arkivist::language::{
    build_language_requirement, detect_language_guess, detect_thread_language,
    is_output_language_mismatch, Language,
};
use arkivist::prompt::build_prompt;
use arkivist::rows::ThreadSummaryRow;
use arkivist::summary_text::{
    chat_completions_url, compact_text, group_thread_messages, normalize_generated_payload_key,
    normalize_markdown_text, normalize_status, normalize_text, normalize_topic_tags,
    root_message_char_count, summary_matches_channel_filter, OpenRouterConfig,
};

fn sample_thread_summary(root_ts: &str) -> ThreadSummaryRow {
    ThreadSummaryRow {
        channel_id: "C123".to_owned(),
        root_ts: root_ts.to_owned(),
        reply_count: 2,
        participant_count: 2,
        reaction_count: 0,
        file_count: 0,
        root_message_at: root_ts.to_owned(),
        last_activity_ts: "1700000000.000003".to_owned(),
    }
}

fn sample_message(ts: &str, thread_ts: Option<&str>, text: &str) -> Message {
    Message {
        channel_id: "C123".to_owned(),
        ts: ts.to_owned(),
        thread_ts: thread_ts.map(str::to_owned),
        user_id: Some("U123".to_owned()),
        text: text.to_owned(),
    }
}

#[test]
fn normalize_generated_payload_key_strips_trailing_colons() {
    assert_eq!(normalize_generated_payload_key("summary: "), "summary");
    assert_eq!(normalize_generated_payload_key("why-it-mattered:"), "why_it_mattered");
    assert_eq!(normalize_generated_payload_key("full-summary"), "full_summary");
}

#[test]
fn payload_keys_lose_quotes_and_case() {
    assert_eq!(normalize_generated_payload_key(" \"Topic Tags\" "), "topic_tags");
    assert_eq!(normalize_generated_payload_key("STATUS::"), "status");
}

#[test]
fn detect_thread_language_prefers_the_root_message_language() {
    let summary = sample_thread_summary("1700000000.000001");
    let messages = vec![
        sample_message(
            "1700000000.000001",
            None,
            "Bonjour, est-ce qu'on garde cette configuration pour le déploiement ?",
        ),
        sample_message(
            "1700000000.000002",
            Some("1700000000.000001"),
            "Oui, on garde cette approche et on documente la procédure pour l'équipe.",
        ),
        sample_message(
            "1700000000.000003",
            Some("1700000000.000001"),
            "Looks good, let's ship it once the checklist is updated.",
        ),
    ];

    let detected = detect_thread_language(&summary, &messages).expect("language");
    assert_eq!(detected.code, "fr");
    assert_eq!(detected.label, "French");
}

#[test]
fn build_prompt_includes_a_strict_language_requirement_when_detected() {
    let summary = sample_thread_summary("1700000000.000001");
    let messages = vec![
        sample_message(
            "1700000000.000001",
            None,
            "Bonjour, est-ce qu'on garde cette configuration pour le déploiement ?",
        ),
        sample_message(
            "1700000000.000002",
            Some("1700000000.000001"),
            "Oui, on garde cette approche et on documente la procédure pour l'équipe.",
        ),
    ];
    let language_hint = detect_thread_language(&summary, &messages);

    let prompt = build_prompt(&summary, &messages, language_hint, true);

    assert!(prompt.contains("The dominant language of this thread is French."));
    assert!(prompt.contains(
        "You MUST write summary, full_summary, and why_it_mattered entirely in French."
    ));
    assert!(prompt.contains("Previous attempt used the wrong language."));
    assert!(prompt.contains("Return a JSON object with keys: summary, full_summary, why_it_mattered, status, topic_tags."));
    assert!(prompt.contains("Keep the text generic and self-contained, as if it could be published outside the chat context."));
    assert!(prompt.contains("Avoid phrases like \"this thread\", \"the discussion\", \"someone asked\", \"a user said\", \"in Slack\", \"in the channel\""));
    assert!(prompt.contains(
        "do not mention people unless their identity materially matters to the outcome"
    ));
}

#[test]
fn detects_when_generated_output_uses_the_wrong_language() {
    let expected = detect_language_guess(
        "Bonjour, est-ce qu'on garde cette configuration pour le déploiement ?",
    )
    .expect("expected language")
    .hint;

    assert!(is_output_language_mismatch(
        Some(expected),
        "This thread settled on the deployment configuration and a short rollout checklist.",
        Some("It captures the final next steps for shipping."),
        Some("## Decision\nThe team kept the deployment setup and documented the rollout."),
    ));
    assert!(!is_output_language_mismatch(
        Some(expected),
        "La configuration de déploiement est validée avec une courte checklist de mise en ligne.",
        Some("Elle fixe les prochaines étapes pour l'équipe."),
        Some("## Décision\nL'équipe conserve la configuration et documente la mise en ligne."),
    ));
}

#[test]
fn chat_completions_url_accepts_base_or_full_endpoint() {
    assert_eq!(
        chat_completions_url("https://openrouter.ai/api/v1"),
        "https://openrouter.ai/api/v1/chat/completions"
    );
    assert_eq!(
        chat_completions_url("https://openrouter.ai/api/v1/chat/completions"),
        "https://openrouter.ai/api/v1/chat/completions"
    );
}

#[test]
fn chat_completions_url_trims_slashes() {
    assert_eq!(
        chat_completions_url("  https://x.example.com/v1/// "),
        "https://x.example.com/v1/chat/completions"
    );
}

#[test]
fn language_guess_needs_a_clear_winner() {
    assert!(detect_language_guess("").is_none());
    assert!(detect_language_guess("xyz").is_none());
    let english = detect_language_guess("the plan is ready and we should ship it").expect("english");
    assert_eq!(english.hint.language, Language::English);
    assert_eq!(english.hint.code, "en");
    let german = detect_language_guess("Das ist für uns nicht wie der Plan").expect("german");
    assert_eq!(german.hint.label, "German");
    assert!(!is_output_language_mismatch(None, "the", None, None));
}

#[test]
fn language_requirement_without_a_hint_asks_to_detect() {
    let text = build_language_requirement(None, true);
    assert!(text.starts_with("Language requirement:\n- Detect the dominant language"));
    assert!(text.ends_with(".\n\n"));
    assert!(!text.contains("Previous attempt"));
}

#[test]
fn text_rules_of_the_summary_generator() {
    assert_eq!(compact_text("  a \n b\tc  ", 10), "a b c");
    assert_eq!(compact_text("abcdef", 3), "abc");
    assert_eq!(compact_text("   ", 3), "(no text)");
    assert_eq!(normalize_text(" one   two "), Some("one two".to_owned()));
    assert_eq!(normalize_text(" \n "), None);
    assert_eq!(normalize_markdown_text("  # T\r\nbody  "), Some("# T\nbody".to_owned()));
    assert_eq!(normalize_markdown_text("   "), None);
    assert_eq!(normalize_status(Some(" Answered ")), "answered");
    assert_eq!(normalize_status(Some("weird")), "discussion");
    assert_eq!(normalize_status(None), "discussion");
}

#[test]
fn topic_tags_are_cleaned_deduplicated_and_capped() {
    let tags = vec![
        " #Rust ".to_owned(),
        "rust".to_owned(),
        "##".to_owned(),
        "Verus".to_owned(),
        "a".to_owned(),
        "b".to_owned(),
        "c".to_owned(),
        "d".to_owned(),
    ];
    assert_eq!(
        normalize_topic_tags(tags),
        vec!["rust".to_owned(), "verus".to_owned(), "a".to_owned(), "b".to_owned(), "c".to_owned()]
    );
}

#[test]
fn openrouter_config_is_ready_with_key_and_model() {
    let config = OpenRouterConfig {
        api_base_url: " https://openrouter.ai/api/v1 ".to_owned(),
        api_key: Some(" key ".to_owned()),
        model: Some("model".to_owned()),
    };
    let ready = config.ready().expect("ready");
    assert_eq!(ready.api_base_url, "https://openrouter.ai/api/v1");
    assert_eq!(ready.api_key, "key");
    assert_eq!(ready.model, "model");
    let missing = OpenRouterConfig { api_base_url: String::new(), api_key: Some("  ".to_owned()), model: Some("m".to_owned()) };
    assert!(missing.ready().is_none());
}

#[test]
fn thread_messages_are_grouped_and_ordered() {
    let messages = vec![
        sample_message("1.000003", Some("1.000001"), "third"),
        sample_message("1.000001", None, "root"),
        sample_message("1.000002", Some("1.000001"), "second"),
        sample_message("2.000001", None, "other"),
    ];
    let groups = group_thread_messages(&messages, &vec![("C123".to_owned(), "1.000001".to_owned()), ("C9".to_owned(), "1.000001".to_owned())]);
    assert_eq!(groups.len(), 2);
    let texts: Vec<&str> = groups[0].iter().map(|m| m.text.as_str()).collect();
    assert_eq!(texts, vec!["root", "second", "third"]);
    assert!(groups[1].is_empty());
    let summary = sample_thread_summary("1.000001");
    assert_eq!(root_message_char_count(&summary, &messages), Some(4));
    assert_eq!(root_message_char_count(&sample_thread_summary("9.0"), &messages), None);
    assert!(summary_matches_channel_filter(&summary, Some(" C123 ")));
    assert!(summary_matches_channel_filter(&summary, Some("  ")));
    assert!(summary_matches_channel_filter(&summary, None));
    assert!(!summary_matches_channel_filter(&summary, Some("C9")));
}

#[test]
fn candidates_are_decided_and_tallied() {
    assert_eq!(candidate_decision(false, true, 5, 20, Some(10)), CandidateDecision::SkipUpToDate);
    assert_eq!(candidate_decision(true, true, 0, 20, Some(10)), CandidateDecision::SkipNoMessages);
    assert_eq!(candidate_decision(false, false, 1, 0, Some(500)), CandidateDecision::SkipShortStandalone);
    assert_eq!(candidate_decision(false, false, 1, 0, None), CandidateDecision::SkipShortStandalone);
    assert_eq!(candidate_decision(false, false, 1, 0, Some(501)), CandidateDecision::Generate);
    assert_eq!(candidate_decision(false, false, 2, 1, Some(29)), CandidateDecision::Generate);
    assert_eq!(candidate_decision(true, true, 12, 11, Some(5)), CandidateDecision::Generate);
    let mut tally = GenerationTally::new();
    tally.count(CandidateDecision::SkipShortStandalone, false);
    tally.count(CandidateDecision::Generate, true);
    tally.count(CandidateDecision::Generate, false);
    assert_eq!((tally.generated, tally.skipped, tally.failed), (1, 1, 1));
}

#[test]
fn candidates_are_ordered_by_channel_activity_and_root() {
    let mut a = sample_thread_summary("1.0");
    a.channel_id = "C2".to_owned();
    let mut b = sample_thread_summary("2.0");
    b.last_activity_ts = "5.0".to_owned();
    let mut c = sample_thread_summary("3.0");
    c.last_activity_ts = "4.0".to_owned();
    let d = sample_thread_summary("4.0");
    let picked = select_candidate_threads(vec![a, b, c, d], &vec![true, true, true, false]);
    let roots: Vec<&str> = picked.iter().map(|s| s.root_ts.as_str()).collect();
    assert_eq!(roots, vec!["3.0", "2.0", "1.0"]);
}

#[test]
fn model_replies_are_cleaned_or_refused() {
    let payload = GeneratedSummaryPayload {
        summary: "  The launch plan is ready.  ".to_owned(),
        full_summary: Some("  ".to_owned()),
        why_it_mattered: Some(" It unblocks the release. ".to_owned()),
        status: Some("ANSWERED".to_owned()),
        topic_tags: Some(vec!["#Launch".to_owned(), "launch".to_owned()]),
    };
    match assess_generated_payload(payload, None, 0) {
        PayloadVerdict::Accept(result) => {
            assert_eq!(result.summary, "The launch plan is ready.");
            assert_eq!(result.full_summary, "The launch plan is ready.");
            assert_eq!(result.why_it_mattered.as_deref(), Some("It unblocks the release."));
            assert_eq!(result.status, "answered");
            assert_eq!(result.topic_tags, vec!["launch".to_owned()]);
        }
        other => panic!("unexpected verdict {other:?}"),
    }
    let empty = GeneratedSummaryPayload {
        summary: "   ".to_owned(),
        full_summary: None,
        why_it_mattered: None,
        status: None,
        topic_tags: None,
    };
    assert_eq!(assess_generated_payload(empty, None, 0), PayloadVerdict::Fail(AiSummaryError::MissingSummary));
    let french = detect_language_guess("Bonjour, est-ce qu'on garde cette configuration pour le déploiement ?").expect("fr").hint;
    let english_reply = || GeneratedSummaryPayload {
        summary: "The team kept the deployment setup and the checklist.".to_owned(),
        full_summary: None,
        why_it_mattered: None,
        status: None,
        topic_tags: None,
    };
    assert_eq!(assess_generated_payload(english_reply(), Some(french), 0), PayloadVerdict::Retry);
    assert_eq!(
        assess_generated_payload(english_reply(), Some(french), 1),
        PayloadVerdict::Fail(AiSummaryError::LanguageMismatch)
    );
}

#[test]
fn reply_content_and_payload_keys() {
    assert_eq!(content_text(&MessageContent::Text("{}".to_owned())).as_deref(), Some("{}"));
    let parts = MessageContent::Parts(vec![
        (Some("text".to_owned()), Some("{\"a\"".to_owned())),
        (Some("image".to_owned()), Some("x".to_owned())),
        (None, Some("y".to_owned())),
        (Some("text".to_owned()), Some(":1}".to_owned())),
    ]);
    assert_eq!(content_text(&parts).as_deref(), Some("{\"a\":1}"));
    assert_eq!(content_text(&MessageContent::Parts(vec![])), None);
    assert_eq!(content_text(&MessageContent::Other), None);
    let keys = vec!["full-summary".to_owned(), "summary: ".to_owned(), "Summary".to_owned(), "status".to_owned()];
    let plan = plan_payload_keys(&keys);
    assert_eq!(
        plan,
        vec![(0, "full_summary".to_owned()), (1, "summary".to_owned()), (3, "status".to_owned())]
    );
}

#[test]
fn repair_generated_summary_payload_normalizes_common_bad_keys() {
    let raw = r###"{
  "summary: ": "A concise summary.",
  "full-summary": "## Details\nA longer recap.",
  "why_it_mattered": null,
  "status": "unresolved",
  "topic_tags": ["ollama", "configuration"]
}"###;

    let repaired = repair_generated_summary_payload(raw);
    let payload: serde_json::Value = serde_json::from_str(&repaired).expect("payload should parse");

    assert_eq!(payload["summary"], "A concise summary.");
    assert_eq!(payload["full_summary"].as_str(), Some("## Details\nA longer recap."));
    assert_eq!(payload["status"].as_str(), Some("unresolved"));
    assert_eq!(
        payload["topic_tags"].as_array().expect("topic tags").iter().map(|tag| tag.as_str().unwrap().to_owned()).collect::<Vec<_>>(),
        vec!["ollama".to_owned(), "configuration".to_owned()]
    );
}

#[test]
fn repair_keeps_the_first_of_clashing_keys_and_other_text() {
    let repaired = repair_generated_summary_payload(r#"{"Summary": "first", "summary:": "second"}"#);
    let payload: serde_json::Value = serde_json::from_str(&repaired).expect("object");
    assert_eq!(payload["summary"], "first");
    assert_eq!(payload.as_object().expect("object").len(), 1);
    assert_eq!(repair_generated_summary_payload("not json"), "not json");
    assert_eq!(repair_generated_summary_payload("[1, 2]"), "[1, 2]");
}
