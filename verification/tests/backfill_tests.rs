use arkivist::backfill::{
    apply_batch_stats, archive_candidates, file_archive_step, FileArchiveStep, check_backfill_range, oldest_ts_for, ExpandedMessages, build_backfill_jobs, build_channel_job, group_missing_files,
    include_oldest, next_page_cursor, plan_user_sync, public_channel_catalog,
    replies_without_root, resolve_channel, should_fetch_thread_replies, BackfillTotals,
    SlackConversation, SlackHistoryFile, SlackHistoryMessage, SlackHistoryReaction, SlackUser,
    SlackUserProfile,
};
use arkivist::domain::{ChannelKind, EventPayload, File};
use arkivist::store::BackfillBatchStats;

fn history_message(ts: &str, thread_ts: Option<&str>, reply_count: Option<u64>) -> SlackHistoryMessage {
    SlackHistoryMessage {
        ts: ts.to_owned(),
        user: Some("U123".to_owned()),
        text: Some("hello from backfill".to_owned()),
        thread_ts: thread_ts.map(str::to_owned),
        reply_count,
        reactions: vec![],
        files: vec![],
    }
}

fn conversation(id: &str, name: Option<&str>, archived: Option<bool>) -> SlackConversation {
    SlackConversation { id: id.to_owned(), name: name.map(str::to_owned), is_archived: archived }
}

#[test]
fn channel_jobs_carry_names_and_archive_flags() {
    let general = conversation("C123", Some("  general "), None);
    let job = build_channel_job("C123", Some(&general), 1700000000, "T123").expect("job");
    assert_eq!(job.team_id, "T123");
    assert_eq!(job.event_id, "backfill:channel:C123:metadata:1700000000");
    assert_eq!(job.event_time, 1700000000);
    assert_eq!(job.received_at, 1700000000);
    assert_eq!(job.channel_kind, ChannelKind::Public);
    assert_eq!(
        job.payload,
        EventPayload::ChannelUpdated { name: Some("general".to_owned()), is_archived: Some(false) }
    );
    let blank = conversation("G1", Some("  "), Some(false));
    assert!(build_channel_job("G1", Some(&blank), 5, "T123").is_none());
    assert!(build_channel_job("G1", None, 5, "T123").is_none());
    let archived = conversation("G1", None, Some(true));
    let job = build_channel_job("G1", Some(&archived), -3, "T123").expect("job");
    assert_eq!(job.event_id, "backfill:channel:G1:metadata:-3");
    assert_eq!(job.channel_kind, ChannelKind::Private);
}

#[test]
fn history_pages_become_message_and_reaction_jobs() {
    let mut root = history_message("1700000000.000001", Some("1700000000.000001"), Some(1));
    root.reactions = vec![SlackHistoryReaction { name: "eyes".to_owned(), users: vec!["U999".to_owned(), "U123".to_owned()] }];
    root.files = vec![SlackHistoryFile {
        id: "F123".to_owned(),
        name: Some("  ".to_owned()),
        mimetype: Some("application/pdf".to_owned()),
        permalink: None,
        size: Some(42),
        url_private_download: None,
        url_private: Some("https://files.slack.com/F123".to_owned()),
    }];
    let reply = history_message("1700000000.000002", Some("1700000000.000001"), None);
    let (messages, reactions) = build_backfill_jobs("C123", &[root, reply], 99, "T123");
    assert!(messages.iter().chain(reactions.iter()).all(|job| job.team_id == "T123"));

    assert_eq!(messages.len(), 2);
    assert_eq!(messages[0].event_id, "backfill:C123:1700000000.000001");
    assert_eq!(messages[0].event_time, 1700000000);
    assert_eq!(messages[0].received_at, 99);
    match &messages[0].payload {
        EventPayload::Message { thread_ts, files, text, .. } => {
            assert_eq!(*thread_ts, None);
            assert_eq!(files[0].name, "F123");
            assert_eq!(text.as_deref(), Some("hello from backfill"));
        }
        other => panic!("unexpected payload {other:?}"),
    }
    match &messages[1].payload {
        EventPayload::Message { thread_ts, .. } => assert_eq!(thread_ts.as_deref(), Some("1700000000.000001")),
        other => panic!("unexpected payload {other:?}"),
    }
    assert_eq!(reactions.len(), 2);
    assert_eq!(reactions[0].event_id, "backfill:C123:1700000000.000001:reaction:eyes:U999");
    assert_eq!(reactions[1].event_id, "backfill:C123:1700000000.000001:reaction:eyes:U123");
    assert_eq!(
        reactions[1].payload,
        EventPayload::ReactionAdded {
            user_id: "U123".to_owned(),
            reaction: "eyes".to_owned(),
            item_ts: "1700000000.000001".to_owned()
        }
    );
}

#[test]
fn backfill_bookkeeping() {
    let mut totals = BackfillTotals::new();
    apply_batch_stats(&mut totals, BackfillBatchStats {
        messages_inserted: 2,
        messages_duplicate: 1,
        reactions_inserted: 3,
        reactions_duplicate: 4,
        refreshed_threads: 9,
    });
    apply_batch_stats(&mut totals, BackfillBatchStats {
        messages_inserted: 1,
        messages_duplicate: 0,
        reactions_inserted: 0,
        reactions_duplicate: 1,
        refreshed_threads: 0,
    });
    assert_eq!((totals.messages_inserted, totals.messages_duplicate), (3, 1));
    assert_eq!((totals.reactions_inserted, totals.reactions_duplicate), (3, 5));
    assert_eq!(totals.files_seen, 0);
    assert!(include_oldest(true, None, Some("1.0")));
    assert!(!include_oldest(true, Some("c"), Some("1.0")));
    assert!(!include_oldest(false, None, Some("1.0")));
    assert_eq!(next_page_cursor(Some("cursor_2".to_owned())).as_deref(), Some("cursor_2"));
    assert_eq!(next_page_cursor(Some("  ".to_owned())), None);
    assert_eq!(next_page_cursor(None), None);
}

#[test]
fn thread_replies_are_fetched_for_roots_with_replies() {
    assert!(should_fetch_thread_replies(&history_message("1.0", None, Some(2))));
    assert!(should_fetch_thread_replies(&history_message("1.0", Some("1.0"), Some(2))));
    assert!(!should_fetch_thread_replies(&history_message("1.1", Some("1.0"), Some(2))));
    assert!(!should_fetch_thread_replies(&history_message("1.0", None, Some(0))));
    assert!(!should_fetch_thread_replies(&history_message("1.0", None, None)));
    let page = vec![history_message("1.0", None, Some(1)), history_message("1.1", Some("1.0"), None), history_message("1.2", Some("1.0"), None)];
    let replies = replies_without_root(page, "1.0");
    let ts: Vec<&str> = replies.iter().map(|m| m.ts.as_str()).collect();
    assert_eq!(ts, vec!["1.1", "1.2"]);
}

#[test]
fn channel_catalog_keeps_open_channels_once_by_id() {
    let listed = vec![
        conversation("C2", Some("second"), None),
        conversation("C1", Some("first"), Some(false)),
        conversation("C3", Some("archived"), Some(true)),
        conversation("C2", Some("duplicate"), None),
    ];
    let catalog = public_channel_catalog(listed);
    let names: Vec<&str> = catalog.iter().map(|c| c.name.as_deref().unwrap_or("")).collect();
    assert_eq!(names, vec!["first", "second"]);
    let found = resolve_channel("C2", &catalog).expect("channel");
    assert_eq!(found.name.as_deref(), Some("second"));
    assert!(resolve_channel("C9", &catalog).is_none());
}

fn file(id: &str, channel_id: &str, message_ts: &str, permalink: Option<&str>) -> File {
    File {
        id: id.to_owned(),
        channel_id: channel_id.to_owned(),
        message_ts: message_ts.to_owned(),
        name: format!("{id}.pdf"),
        mimetype: None,
        permalink: permalink.map(str::to_owned),
        size: None,
    }
}

#[test]
fn missing_files_are_grouped_by_message() {
    let files = vec![
        file("F3", "C2", "1.0", None),
        file("F1", "C1", "2.0", None),
        file("F2", "C1", "2.0", Some("https://slack.example.com/F2")),
        file("F4", "C1", "1.0", Some("https://r2.example.com/archive/F4")),
        file("F5", "C1", "2.0", None),
    ];
    let (groups, skipped) = group_missing_files(files.clone(), None, "https://r2.example.com/archive/");
    assert_eq!(skipped, 1);
    let keys: Vec<(&str, &str)> = groups.iter().map(|g| (g.channel_id.as_str(), g.message_ts.as_str())).collect();
    assert_eq!(keys, vec![("C1", "2.0"), ("C2", "1.0")]);
    let ids: Vec<&str> = groups[0].files.iter().map(|f| f.id.as_str()).collect();
    assert_eq!(ids, vec!["F1", "F2", "F5"]);
    let (only_c2, skipped_c2) = group_missing_files(files, Some("C2"), "https://r2.example.com/archive/");
    assert_eq!(only_c2.len(), 1);
    assert_eq!(skipped_c2, 0);
}

fn user(id: &str, bot: Option<bool>, display: Option<&str>, real: Option<&str>) -> SlackUser {
    SlackUser {
        id: id.to_owned(),
        deleted: None,
        is_bot: bot,
        updated: Some(1),
        profile: SlackUserProfile {
            email: Some(" a@example.com ".to_owned()),
            display_name: display.map(str::to_owned),
            real_name: real.map(str::to_owned),
            image_72: Some("  ".to_owned()),
        },
    }
}

#[test]
fn user_sync_skips_bots_duplicates_and_stale_users() {
    let users = vec![
        user("U1", None, Some(" Ann "), Some("Ann Real")),
        user("USLACKBOT", None, None, None),
        user("B1", Some(true), None, None),
        user("U2", Some(false), Some("  "), Some(" Bob ")),
        user("U1", None, Some("again"), None),
        user("U3", None, None, None),
    ];
    let plan = plan_user_sync(&users, &vec![true, true, true, true, true, false]);
    assert_eq!(plan.skipped_bots, 2);
    assert_eq!(plan.skipped_duplicates, 1);
    assert_eq!(plan.skipped_stale, 1);
    assert_eq!(plan.updates.len(), 2);
    assert_eq!(plan.updates[0].user_id, "U1");
    assert_eq!(plan.updates[0].display_name.as_deref(), Some("Ann"));
    assert_eq!(plan.updates[0].email.as_deref(), Some("a@example.com"));
    assert_eq!(plan.updates[0].avatar_url, None);
    assert!(plan.updates[0].is_active);
    assert_eq!(plan.updates[1].display_name.as_deref(), Some("Bob"));
}

#[test]
fn page_files_are_archived_once_each() {
    let file = |id: &str, name: Option<&str>, download: Option<&str>| SlackHistoryFile {
        id: id.to_owned(),
        name: name.map(str::to_owned),
        mimetype: None,
        permalink: None,
        size: None,
        url_private_download: download.map(str::to_owned),
        url_private: Some(format!("https://files.slack.com/{id}")),
    };
    let mut first = history_message("1.0", None, None);
    first.files = vec![file("F1", Some("a.pdf"), Some("https://dl/F1")), file("F2", None, None)];
    let mut second = history_message("2.0", None, None);
    second.files = vec![file("F1", Some("again.pdf"), None)];
    let candidates = archive_candidates(&[first, second]);
    assert_eq!(candidates.len(), 2);
    assert_eq!(candidates[0].filename, "a.pdf");
    assert_eq!(candidates[0].download_url.as_deref(), Some("https://dl/F1"));
    assert_eq!(candidates[1].filename, "F2");
    assert_eq!(candidates[1].download_url.as_deref(), Some("https://files.slack.com/F2"));
    assert_eq!(candidates[1].message_ts, "1.0");
}

#[test]
fn backfill_ranges_and_replies() {
    assert!(check_backfill_range(true, Some("1.0")).is_err());
    assert!(check_backfill_range(true, None).is_ok());
    assert!(check_backfill_range(false, Some("1.0")).is_ok());
    assert_eq!(oldest_ts_for(true, Some("5.0".to_owned()), Some("1.0".to_owned())).as_deref(), Some("5.0"));
    assert_eq!(oldest_ts_for(false, Some("5.0".to_owned()), Some("1.0".to_owned())).as_deref(), Some("1.0"));
    let mut expanded = ExpandedMessages::new();
    assert!(expanded.push_if_new(history_message("1.0", None, None)));
    assert!(!expanded.push_if_new(history_message("1.0", None, None)));
    assert!(expanded.push_if_new(history_message("1.1", Some("1.0"), None)));
    assert_eq!(expanded.into_messages().len(), 2);
}

#[test]
fn file_with_download_url_is_downloaded() {
    let url = Some("https://files.slack.com/f.png".to_string());
    assert_eq!(file_archive_step(&url, false), FileArchiveStep::Download);
    assert_eq!(file_archive_step(&url, true), FileArchiveStep::Download);
}

#[test]
fn file_without_download_url_reuses_existing_archive() {
    assert_eq!(file_archive_step(&None, true), FileArchiveStep::CountExisting);
}

#[test]
fn file_without_download_url_or_archive_is_refused() {
    assert_eq!(file_archive_step(&None, false), FileArchiveStep::MissingDownloadUrl);
}
