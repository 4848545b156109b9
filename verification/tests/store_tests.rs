use arkivist::domain::{ChannelKind, EventPayload, ProcessEventJob, SharedFile};
use arkivist::rows::GeneratedThreadSummaryRow;
use arkivist::store::{InMemoryEventStore, RepositoryMode, StoreOutcome};

fn message_job(event_id: &str, ts: &str, thread_ts: Option<&str>, user: &str, text: &str, files: Vec<SharedFile>) -> ProcessEventJob {
    ProcessEventJob {
        event_id: event_id.to_owned(),
        team_id: "T123".to_owned(),
        event_time: 1,
        received_at: 2,
        channel_id: "C123".to_owned(),
        channel_kind: ChannelKind::Public,
        payload: EventPayload::Message {
            user_id: Some(user.to_owned()),
            text: Some(text.to_owned()),
            ts: ts.to_owned(),
            thread_ts: thread_ts.map(str::to_owned),
            files,
        },
    }
}

fn brief() -> SharedFile {
    SharedFile {
        id: "F123".to_owned(),
        name: "brief.pdf".to_owned(),
        mimetype: Some("application/pdf".to_owned()),
        permalink: Some("https://files.example.com/brief.pdf".to_owned()),
        size: Some(42),
    }
}

#[test]
fn in_memory_store_deduplicates_and_tracks_entities() {
    let mut store = InMemoryEventStore::new();
    let rename = ProcessEventJob {
        event_id: "evt_channel".to_owned(),
        team_id: "T123".to_owned(),
        event_time: 1,
        received_at: 2,
        channel_id: "C123".to_owned(),
        channel_kind: ChannelKind::Public,
        payload: EventPayload::ChannelUpdated {
            name: Some("announcements".to_owned()),
            is_archived: Some(false),
        },
    };
    let message = ProcessEventJob {
        event_id: "evt_message".to_owned(),
        team_id: "T123".to_owned(),
        event_time: 3,
        received_at: 4,
        channel_id: "C123".to_owned(),
        channel_kind: ChannelKind::Public,
        payload: EventPayload::Message {
            user_id: Some("U123".to_owned()),
            text: Some("hello".to_owned()),
            ts: "1700000000.000001".to_owned(),
            thread_ts: None,
            files: vec![brief()],
        },
    };

    assert_eq!(store.record_process_event(&rename), StoreOutcome::Inserted);
    assert_eq!(store.record_process_event(&message), StoreOutcome::Inserted);
    assert_eq!(store.record_process_event(&message), StoreOutcome::Duplicate);

    let health = store.health();
    let files = store.files();
    let channels = store.channels();

    assert_eq!(health.tracked_events, 2);
    assert_eq!(health.tracked_messages, 1);
    assert_eq!(health.tracked_files, 1);
    assert_eq!(health.tracked_channels, 1);
    assert_eq!(files[0].name, "brief.pdf");
    assert_eq!(channels[0].name.as_deref(), Some("announcements"));
}

#[test]
fn in_memory_store_tracks_reactions() {
    let mut store = InMemoryEventStore::new();
    let reaction = ProcessEventJob {
        event_id: "evt_reaction".to_owned(),
        team_id: "T123".to_owned(),
        event_time: 1,
        received_at: 2,
        channel_id: "C123".to_owned(),
        channel_kind: ChannelKind::Public,
        payload: EventPayload::ReactionAdded {
            user_id: "U123".to_owned(),
            reaction: "thumbsup".to_owned(),
            item_ts: "1700000000.000001".to_owned(),
        },
    };

    assert_eq!(store.record_process_event(&reaction), StoreOutcome::Inserted);

    let reactions = store.reactions();
    let health = store.health();

    assert_eq!(reactions.len(), 1);
    assert_eq!(reactions[0].name, "thumbsup");
    assert_eq!(health.tracked_reactions, 1);
}

#[test]
fn in_memory_store_refreshes_search_documents_for_threads() {
    let mut store = InMemoryEventStore::new();
    let reply = message_job("evt_reply", "1700000000.000002", Some("1700000000.000001"), "U456", "reply details", vec![]);
    let root = message_job("evt_root", "1700000000.000001", None, "U123", "root summary", vec![]);

    assert_eq!(store.record_process_event(&reply), StoreOutcome::Inserted);
    assert_eq!(store.record_process_event(&root), StoreOutcome::Inserted);

    let search_documents = store.search_documents();

    assert_eq!(search_documents.len(), 2);
    assert!(search_documents
        .iter()
        .all(|document| document.title.as_deref() == Some("root summary")));
    assert_eq!(search_documents[0].message_ts, "1700000000.000001");
}

#[test]
fn store_rolls_up_threads_and_cards_after_each_job() {
    let mut store = InMemoryEventStore::new();
    let mut file = brief();
    file.permalink = None;
    let reply = message_job("evt_reply", "1700000000.000002", Some("1700000000.000001"), "U456", "reply details", vec![file]);
    let root = message_job("evt_root", "1700000000.000001", None, "U123", "root summary", vec![]);
    let reaction = ProcessEventJob {
        event_id: "evt_reaction".to_owned(),
        team_id: "T123".to_owned(),
        event_time: 9,
        received_at: 10,
        channel_id: "C123".to_owned(),
        channel_kind: ChannelKind::Public,
        payload: EventPayload::ReactionAdded {
            user_id: "U789".to_owned(),
            reaction: "eyes".to_owned(),
            item_ts: "1700000000.000002".to_owned(),
        },
    };

    assert_eq!(store.record_process_event(&reply), StoreOutcome::Inserted);
    assert_eq!(store.record_process_event(&root), StoreOutcome::Inserted);
    assert_eq!(store.record_process_event(&reaction), StoreOutcome::Inserted);

    let thread_summaries = store.thread_summaries();
    assert_eq!(thread_summaries.len(), 1);
    assert_eq!(thread_summaries[0].reply_count, 1);
    assert_eq!(thread_summaries[0].participant_count, 3);
    assert_eq!(thread_summaries[0].reaction_count, 1);
    assert_eq!(thread_summaries[0].file_count, 1);
    let cards = store.thread_cards();
    assert_eq!(cards.len(), 1);
    assert_eq!(cards[0].title, "root summary");
    assert_eq!(store.refresh_thread_summaries(), 1);
}

#[test]
fn store_upserts_messages_by_channel_and_timestamp() {
    let mut store = InMemoryEventStore::new();
    assert_eq!(store.record_process_event(&message_job("evt_1", "1700000000.000001", None, "U123", "hello", vec![])), StoreOutcome::Inserted);
    assert_eq!(store.record_process_event(&message_job("evt_2", "1700000000.000001", None, "U123", "hello again", vec![])), StoreOutcome::Inserted);

    let messages = store.messages();
    assert_eq!(messages.len(), 1);
    assert_eq!(messages[0].text, "hello again");
    let health = store.health();
    assert_eq!(health.tracked_events, 2);
    assert_eq!(health.tracked_messages, 1);
}

#[test]
fn store_keeps_messages_ordered_by_channel_and_timestamp() {
    let mut store = InMemoryEventStore::new();
    store.record_process_event(&message_job("evt_b", "1700000000.000003", None, "U1", "c", vec![]));
    store.record_process_event(&message_job("evt_a", "1700000000.000001", None, "U1", "a", vec![]));
    store.record_process_event(&message_job("evt_c", "1700000000.000002", None, "U1", "b", vec![]));
    let texts: Vec<String> = store.messages().into_iter().map(|m| m.text).collect();
    assert_eq!(texts, vec!["a".to_owned(), "b".to_owned(), "c".to_owned()]);
    assert_eq!(store.latest_message_ts("C123").as_deref(), Some("1700000000.000003"));
    assert_eq!(store.latest_message_ts("C999"), None);
}

#[test]
fn store_channel_updates_keep_the_latest_name_and_archive_state() {
    let mut store = InMemoryEventStore::new();
    let rename_job = ProcessEventJob {
        event_id: "evt_channel_rename".to_owned(),
        team_id: "T123".to_owned(),
        event_time: 7,
        received_at: 8,
        channel_id: "C123".to_owned(),
        channel_kind: ChannelKind::Public,
        payload: EventPayload::ChannelUpdated { name: Some("announcements".to_owned()), is_archived: None },
    };
    let archive_job = ProcessEventJob {
        event_id: "evt_channel_archive".to_owned(),
        team_id: "T123".to_owned(),
        event_time: 9,
        received_at: 10,
        payload: EventPayload::ChannelUpdated { name: None, is_archived: Some(true) },
        ..rename_job.clone()
    };

    store.record_process_event(&rename_job);
    store.record_process_event(&archive_job);

    let channels = store.channels();
    assert_eq!(channels.len(), 1);
    assert_eq!(channels[0].name.as_deref(), Some("announcements"));
    assert!(channels[0].is_archived);
    assert_eq!(channels[0].kind, ChannelKind::Public);
    assert_eq!(store.health().tracked_channels, 1);
}

#[test]
fn store_sets_file_archive_addresses() {
    let mut store = InMemoryEventStore::new();
    store.record_process_event(&message_job("evt_1", "1700000000.000001", None, "U123", "hello", vec![brief()]));
    store.set_file_archive("F123", "T1/C123/F123/brief.pdf", "https://r2.example.com/T1/C123/F123/brief.pdf");
    store.set_file_archive("F999", "x", "y");
    let files = store.files();
    assert_eq!(files.len(), 1);
    assert_eq!(files[0].permalink.as_deref(), Some("https://r2.example.com/T1/C123/F123/brief.pdf"));
}

fn generated(root_ts: &str, summary: &str) -> GeneratedThreadSummaryRow {
    GeneratedThreadSummaryRow {
        channel_id: "C123".to_owned(),
        root_ts: root_ts.to_owned(),
        summary: summary.to_owned(),
        full_summary: None,
        why_it_mattered: None,
        status: "discussion".to_owned(),
        topic_tags: vec!["launch".to_owned()],
        source_last_activity_ts: root_ts.to_owned(),
        model: "m".to_owned(),
        generated_at: 7,
    }
}

#[test]
fn store_replaces_generated_summaries_by_thread() {
    let mut store = InMemoryEventStore::new();
    store.upsert_generated_thread_summary(&generated("2.000001", "second"));
    store.upsert_generated_thread_summary(&generated("1.000001", "first"));
    store.upsert_generated_thread_summary(&generated("2.000001", "second again"));
    let rows = store.generated_thread_summaries();
    assert_eq!(rows.len(), 2);
    assert_eq!(rows[0].summary, "first");
    assert_eq!(rows[1].summary, "second again");
    assert_eq!(rows[1].topic_tags, vec!["launch".to_owned()]);
}

#[test]
fn store_counts_backfilled_jobs() {
    let mut store = InMemoryEventStore::new();
    let channel_job = ProcessEventJob {
        event_id: "backfill:channel:C123:metadata:5".to_owned(),
        team_id: "T123".to_owned(),
        event_time: 5,
        received_at: 5,
        channel_id: "C123".to_owned(),
        channel_kind: ChannelKind::Public,
        payload: EventPayload::ChannelUpdated { name: Some("general".to_owned()), is_archived: Some(false) },
    };
    let m1 = message_job("m1", "1.000001", None, "U1", "a", vec![]);
    let m2 = message_job("m2", "1.000002", None, "U1", "b", vec![]);
    let r1 = ProcessEventJob {
        event_id: "r1".to_owned(),
        payload: EventPayload::ReactionAdded { user_id: "U2".to_owned(), reaction: "eyes".to_owned(), item_ts: "1.000001".to_owned() },
        ..m1.clone()
    };
    let stats = store.backfill_channel_jobs(Some(&channel_job), &[m1.clone(), m2.clone(), m1.clone()], &[r1.clone()]);
    assert_eq!(stats.messages_inserted, 2);
    assert_eq!(stats.messages_duplicate, 1);
    assert_eq!(stats.reactions_inserted, 1);
    assert_eq!(stats.reactions_duplicate, 0);
    assert_eq!(stats.refreshed_threads, 0);
    let again = store.backfill_channel_jobs(None, &[m2], &[r1]);
    assert_eq!(again.messages_duplicate, 1);
    assert_eq!(again.reactions_duplicate, 1);
    assert_eq!(store.health().tracked_events, 4);
}

#[test]
fn replayed_jobs_rebuild_the_store() {
    let mut store = InMemoryEventStore::new();
    store.replay_job(&message_job("evt_root", "1.000001", None, "U1", "root", vec![]));
    store.replay_job(&message_job("evt_reply", "1.000002", Some("1.000001"), "U2", "reply", vec![]));
    assert_eq!(store.refresh_thread_summaries(), 1);
    assert_eq!(store.thread_summaries()[0].reply_count, 1);
    assert_eq!(store.health().tracked_events, 2);
    assert_eq!(RepositoryMode::TestJsonl.as_str(), "test_jsonl");
    assert_eq!(RepositoryMode::Postgres.as_str(), "postgres");
}

#[test]
fn replaying_recorded_jobs_stores_the_same_rows() {
    let jobs = vec![
        message_job("evt_root", "1.000001", None, "U1", "root", vec![brief()]),
        message_job("evt_reply", "1.000002", Some("1.000001"), "U2", "reply", vec![]),
        ProcessEventJob {
            event_id: "evt_reaction".to_owned(),
            payload: EventPayload::ReactionAdded { user_id: "U3".to_owned(), reaction: "eyes".to_owned(), item_ts: "1.000001".to_owned() },
            ..message_job("x", "1.000001", None, "U1", "", vec![])
        },
    ];
    let mut recorded = InMemoryEventStore::new();
    let mut replayed = InMemoryEventStore::new();
    for job in &jobs {
        assert_eq!(recorded.record_process_event(job), StoreOutcome::Inserted);
        replayed.replay_job(job);
    }
    assert_eq!(recorded.messages(), replayed.messages());
    assert_eq!(recorded.files(), replayed.files());
    assert_eq!(recorded.reactions(), replayed.reactions());
    assert_eq!(recorded.channels(), replayed.channels());
    assert_eq!(recorded.health(), replayed.health());
    assert_eq!(recorded.search_documents(), replayed.search_documents());
    assert_eq!(recorded.search_documents().len(), 2);
    replayed.refresh_thread_summaries();
    assert_eq!(recorded.thread_summaries(), replayed.thread_summaries());
    assert_eq!(recorded.thread_cards(), replayed.thread_cards());
    assert_eq!(recorded.thread_summaries()[0].reaction_count, 1);
}
