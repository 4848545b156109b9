use arkivist::domain::{File, Message, Reaction};
use arkivist::rows::{SearchDocumentRow, ThreadSummaryRow};
use arkivist::search_index::refresh_search_documents;
use arkivist::thread_card::{build_thread_card, build_thread_cards, normalize_thread_card_text, truncate_text};
use arkivist::thread_summary::build_thread_summaries;

fn message(channel_id: &str, ts: &str, thread_ts: Option<&str>, user_id: Option<&str>, text: &str) -> Message {
    Message {
        channel_id: channel_id.to_owned(),
        ts: ts.to_owned(),
        thread_ts: thread_ts.map(str::to_owned),
        user_id: user_id.map(str::to_owned),
        text: text.to_owned(),
    }
}

fn document<'a>(docs: &'a [SearchDocumentRow], channel_id: &str, message_ts: &str) -> Option<&'a SearchDocumentRow> {
    docs.iter().find(|d| d.channel_id == channel_id && d.message_ts == message_ts)
}

fn summary_of<'a>(rows: &'a [ThreadSummaryRow], channel_id: &str, root_ts: &str) -> Option<&'a ThreadSummaryRow> {
    rows.iter().find(|r| r.channel_id == channel_id && r.root_ts == root_ts)
}

#[test]
fn refresh_search_documents_uses_root_titles_for_entire_threads() {
    let messages = vec![
        message("C123", "1700000000.000001", None, Some("U123"), "root summary"),
        message("C123", "1700000000.000002", Some("1700000000.000001"), Some("U456"), "reply details"),
    ];
    let mut search_documents = Vec::new();

    refresh_search_documents(&mut search_documents, &messages, "C123", "1700000000.000001");

    assert_eq!(search_documents.len(), 2);
    assert_eq!(
        document(&search_documents, "C123", "1700000000.000002").and_then(|d| d.title.as_deref()),
        Some("root summary")
    );
}

#[test]
fn refresh_search_documents_keeps_channel_roots_isolated() {
    let messages = vec![
        message("C123", "1700000000.000001", None, Some("U123"), "team one root"),
        message("C123", "1700000000.000002", Some("1700000000.000001"), Some("U456"), "channel one reply"),
        message("C999", "1700000000.000001", None, Some("U999"), "other channel root"),
    ];
    let mut search_documents = Vec::new();

    refresh_search_documents(&mut search_documents, &messages, "C123", "1700000000.000001");

    assert_eq!(
        document(&search_documents, "C123", "1700000000.000002").and_then(|d| d.title.as_deref()),
        Some("team one root")
    );
    assert!(document(&search_documents, "C999", "1700000000.000001").is_none());
}

#[test]
fn refresh_search_documents_replaces_stale_documents_of_the_thread() {
    let messages = vec![message("C1", "1.000001", None, None, "  new title  ")];
    let mut docs = vec![
        SearchDocumentRow {
            channel_id: "C1".to_owned(),
            root_ts: "1.000001".to_owned(),
            message_ts: "1.000001".to_owned(),
            title: Some("old".to_owned()),
            body: "old".to_owned(),
            message_occurred_at: "1.000001".to_owned(),
        },
        SearchDocumentRow {
            channel_id: "C2".to_owned(),
            root_ts: "2.000001".to_owned(),
            message_ts: "2.000001".to_owned(),
            title: None,
            body: "other".to_owned(),
            message_occurred_at: "2.000001".to_owned(),
        },
    ];

    refresh_search_documents(&mut docs, &messages, "C1", "1.000001");

    assert_eq!(docs.len(), 2);
    assert_eq!(docs[0].channel_id, "C2");
    assert_eq!(docs[1].title.as_deref(), Some("new title"));
    assert_eq!(docs[1].body, "  new title  ");
}

#[test]
fn build_thread_card_uses_root_author_and_rollup_counts() {
    let root = message("C123", "1700000000.000001", None, Some("U123"), "Thread root");
    let summary = ThreadSummaryRow {
        channel_id: "C123".to_owned(),
        root_ts: "1700000000.000001".to_owned(),
        reply_count: 3,
        participant_count: 4,
        reaction_count: 2,
        file_count: 1,
        root_message_at: "1700000000.000001".to_owned(),
        last_activity_ts: "1700000005.000001".to_owned(),
    };

    let card = build_thread_card(&root, &summary);

    assert_eq!(card.author_user_id.as_deref(), Some("U123"));
    assert_eq!(card.title, "Thread root");
    assert_eq!(card.preview, "Thread root");
    assert_eq!(card.reply_count, 3);
    assert_eq!(card.participant_count, 4);
    assert_eq!(card.reaction_count, 2);
    assert_eq!(card.file_count, 1);
    assert_eq!(card.last_activity_ts, "1700000005.000001");
}

#[test]
fn build_thread_cards_skips_threads_without_a_root_message() {
    let messages = vec![message("C123", "1700000001.000001", Some("1700000000.000001"), Some("U123"), "reply")];
    let summaries = vec![ThreadSummaryRow {
        channel_id: "C123".to_owned(),
        root_ts: "1700000000.000001".to_owned(),
        reply_count: 1,
        participant_count: 1,
        reaction_count: 0,
        file_count: 0,
        root_message_at: "1700000000.000001".to_owned(),
        last_activity_ts: "1700000001.000001".to_owned(),
    }];

    let cards = build_thread_cards(&messages, &summaries);

    assert!(cards.is_empty());
}

#[test]
fn build_thread_card_uses_placeholder_for_empty_text() {
    let root = message("C123", "1700000000.000001", None, None, "   ");
    let summary = ThreadSummaryRow {
        channel_id: "C123".to_owned(),
        root_ts: "1700000000.000001".to_owned(),
        reply_count: 0,
        participant_count: 0,
        reaction_count: 0,
        file_count: 0,
        root_message_at: "1700000000.000001".to_owned(),
        last_activity_ts: "1700000000.000001".to_owned(),
    };

    let card = build_thread_card(&root, &summary);

    assert_eq!(card.title, "(no text)");
    assert_eq!(card.preview, "(no text)");
}

#[test]
fn thread_card_text_normalizes_line_ends_and_truncates() {
    assert_eq!(normalize_thread_card_text(" a\r\nb "), "a\nb");
    let long = "x".repeat(701);
    let card = normalize_thread_card_text(&long);
    assert_eq!(card.chars().count(), 701);
    assert!(card.ends_with('…'));
    let exact = "y".repeat(700);
    assert_eq!(normalize_thread_card_text(&exact), exact);
    assert_eq!(truncate_text("abcdef", 3), "abc…");
    assert_eq!(truncate_text("abc", 3), "abc");
}

#[test]
fn rebuild_thread_summaries_rolls_up_thread_activity() {
    let messages = vec![
        message("C123", "1700000000.000001", None, Some("U123"), "root summary"),
        message("C123", "1700000000.000002", Some("1700000000.000001"), Some("U456"), "reply details"),
    ];
    let reactions = vec![Reaction {
        channel_id: "C123".to_owned(),
        message_ts: "1700000000.000002".to_owned(),
        user_id: "U789".to_owned(),
        name: "eyes".to_owned(),
    }];
    let files = vec![File {
        id: "F123".to_owned(),
        channel_id: "C123".to_owned(),
        message_ts: "1700000000.000002".to_owned(),
        name: "brief.pdf".to_owned(),
        mimetype: Some("application/pdf".to_owned()),
        permalink: None,
        size: Some(42),
    }];
    let thread_summaries = build_thread_summaries(&messages, &reactions, &files);

    let summary = summary_of(&thread_summaries, "C123", "1700000000.000001").expect("summary");
    assert_eq!(summary.reply_count, 1);
    assert_eq!(summary.participant_count, 3);
    assert_eq!(summary.reaction_count, 1);
    assert_eq!(summary.file_count, 1);
    assert_eq!(summary.last_activity_ts, "1700000000.000002");
}

#[test]
fn rebuild_thread_summaries_keeps_channel_threads_separated() {
    let messages = vec![
        message("C123", "1700000000.000001", None, Some("U123"), "channel one root"),
        message("C123", "1700000000.000002", Some("1700000000.000001"), Some("U456"), "channel one reply"),
        message("C999", "1700000000.000001", None, Some("U999"), "channel two root"),
    ];

    let thread_summaries = build_thread_summaries(&messages, &Vec::new(), &Vec::new());

    assert_eq!(thread_summaries.len(), 2);
    assert_eq!(
        summary_of(&thread_summaries, "C123", "1700000000.000001").map(|s| s.reply_count),
        Some(1)
    );
    assert_eq!(
        summary_of(&thread_summaries, "C999", "1700000000.000001").map(|s| s.reply_count),
        Some(0)
    );
}

#[test]
fn rebuild_thread_summaries_treats_thread_ts_equal_to_ts_as_root() {
    let messages = vec![
        message("C123", "1700000000.000001", Some("1700000000.000001"), Some("U123"), "root summary"),
        message("C123", "1700000000.000002", Some("1700000000.000001"), Some("U456"), "reply details"),
    ];

    let thread_summaries = build_thread_summaries(&messages, &Vec::new(), &Vec::new());

    assert_eq!(
        summary_of(&thread_summaries, "C123", "1700000000.000001").map(|s| s.reply_count),
        Some(1)
    );
}

#[test]
fn rebuild_thread_summaries_keeps_microsecond_precision_for_last_activity() {
    let messages = vec![
        message("C123", "1700000000.100001", None, Some("U123"), "root summary"),
        message("C123", "1700000000.100009", Some("1700000000.100001"), Some("U456"), "later reply in same second"),
    ];

    let thread_summaries = build_thread_summaries(&messages, &Vec::new(), &Vec::new());

    assert_eq!(
        summary_of(&thread_summaries, "C123", "1700000000.100001").map(|s| s.last_activity_ts.as_str()),
        Some("1700000000.100009")
    );
}

#[test]
fn thread_summaries_ignore_replies_without_a_stored_root() {
    let messages = vec![message("C1", "5.000002", Some("5.000001"), Some("U1"), "orphan")];
    let thread_summaries = build_thread_summaries(&messages, &Vec::new(), &Vec::new());
    assert!(thread_summaries.is_empty());
}
