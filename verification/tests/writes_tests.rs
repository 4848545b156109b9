use arkivist::backfill::{sort_by_event_time, SlackHistoryMessage};
use arkivist::domain::{ChannelKind, EventPayload, File, Message, ProcessEventJob, Reaction, SharedFile};
use arkivist::views::{all_views, thread_views};
use arkivist::writes::{
    batch_channel, distinct_attachments, distinct_file_writes, file_from_row, keep_flagged,
    message_event_ids, plan_event_writes, prepare_messages, prepare_reactions, touched_roots,
    unseen_flags, TouchedThread,
};

fn shared(id: &str, size: Option<u64>) -> SharedFile {
    SharedFile {
        id: id.to_owned(),
        name: format!("{id}.txt"),
        mimetype: Some("text/plain".to_owned()),
        permalink: None,
        size,
    }
}

fn message_job(event_id: &str, ts: &str, thread_ts: Option<&str>, files: Vec<SharedFile>) -> ProcessEventJob {
    ProcessEventJob {
        event_id: event_id.to_owned(),
        team_id: "T123".to_owned(),
        event_time: 1_700_000_000,
        received_at: 1_700_000_001,
        channel_id: "C1".to_owned(),
        channel_kind: ChannelKind::Public,
        payload: EventPayload::Message {
            user_id: Some("U1".to_owned()),
            text: None,
            ts: ts.to_owned(),
            thread_ts: thread_ts.map(str::to_owned),
            files,
        },
    }
}

fn reaction_job(event_id: &str, item_ts: &str) -> ProcessEventJob {
    ProcessEventJob {
        event_id: event_id.to_owned(),
        team_id: "T123".to_owned(),
        event_time: 1_700_000_002,
        received_at: 1_700_000_003,
        channel_id: "C1".to_owned(),
        channel_kind: ChannelKind::Public,
        payload: EventPayload::ReactionAdded {
            user_id: "U2".to_owned(),
            reaction: "eyes".to_owned(),
            item_ts: item_ts.to_owned(),
        },
    }
}

fn message(ts: &str, thread_ts: Option<&str>, text: &str) -> Message {
    Message {
        channel_id: "C1".to_owned(),
        ts: ts.to_owned(),
        thread_ts: thread_ts.map(str::to_owned),
        user_id: Some("U1".to_owned()),
        text: text.to_owned(),
    }
}

fn history(ts: &str, text: &str) -> SlackHistoryMessage {
    SlackHistoryMessage {
        ts: ts.to_owned(),
        user: None,
        text: Some(text.to_owned()),
        thread_ts: None,
        reply_count: None,
        reactions: Vec::new(),
        files: Vec::new(),
    }
}

#[test]
fn message_event_plan_writes_message_files_and_thread() {
    let job = message_job("e1", "200.1", Some("100.1"), vec![shared("F1", Some(12))]);
    let plan = plan_event_writes(&job);
    assert_eq!(plan.event_type, "message");
    assert_eq!(plan.channel.id, "C1");
    assert_eq!(plan.channel.name, None);
    assert!(!plan.channel.is_archived);
    let written = plan.message.expect("message row");
    assert_eq!(written.root_ts, "100.1");
    assert_eq!(written.text, "");
    assert_eq!(plan.files.len(), 1);
    assert_eq!(plan.files[0].size_bytes, Some(12));
    assert_eq!(plan.touched, TouchedThread::Root("100.1".to_owned()));
}

#[test]
fn reaction_and_channel_plans_touch_the_right_thread() {
    let plan = plan_event_writes(&reaction_job("r1", "100.1"));
    assert_eq!(plan.event_type, "reaction_added");
    assert!(plan.message.is_none());
    assert_eq!(plan.touched, TouchedThread::RootOfMessage("100.1".to_owned()));

    let channel = ProcessEventJob {
        event_id: "c1".to_owned(),
        team_id: "T123".to_owned(),
        event_time: 1,
        received_at: 1,
        channel_id: "C1".to_owned(),
        channel_kind: ChannelKind::Public,
        payload: EventPayload::ChannelUpdated { name: Some("general".to_owned()), is_archived: None },
    };
    let plan = plan_event_writes(&channel);
    let update = plan.channel_update.expect("channel update");
    assert_eq!(update.name.as_deref(), Some("general"));
    assert!(!update.is_archived);
    assert_eq!(plan.touched, TouchedThread::Nothing);
}

#[test]
fn batch_keeps_only_unrecorded_jobs_and_distinct_rows() {
    let jobs = vec![
        message_job("m1", "100.1", None, vec![shared("F1", Some(3)), shared("F1", Some(3))]),
        reaction_job("r1", "100.1"),
        message_job("m2", "101.1", Some("100.1"), vec![shared("F1", Some(3))]),
    ];
    let messages = prepare_messages(&jobs);
    let reactions = prepare_reactions(&jobs);
    assert_eq!(messages.len(), 2);
    assert_eq!(reactions.len(), 1);
    assert_eq!(messages[1].root_ts, "100.1");

    let ids = message_event_ids(&messages);
    let flags = unseen_flags(&ids, &vec!["m1".to_owned()]);
    assert_eq!(flags, vec![false, true]);
    let fresh = keep_flagged(messages, &flags);
    assert_eq!(fresh.len(), 1);
    assert_eq!(fresh[0].event_id, "m2");

    let all = prepare_messages(&jobs);
    assert_eq!(distinct_file_writes(&all).len(), 1);
    let links = distinct_attachments(&all);
    assert_eq!(links.len(), 2);
    assert_eq!(links[0].message_ts, "100.1");
    assert_eq!(links[1].message_ts, "101.1");
    assert_eq!(batch_channel(&all, &reactions).as_deref(), Some("C1"));
    assert_eq!(batch_channel(&Vec::new(), &Vec::new()), None);
}

#[test]
fn touched_roots_are_sorted_and_distinct() {
    let roots = touched_roots(
        &vec!["300.1".to_owned(), "100.1".to_owned(), "300.1".to_owned()],
        &vec!["200.1".to_owned(), "100.1".to_owned()],
    );
    assert_eq!(roots, vec!["100.1".to_owned(), "200.1".to_owned(), "300.1".to_owned()]);
}

#[test]
fn file_rows_prefer_the_archived_copy() {
    let file = file_from_row(
        "F1".to_owned(),
        "C1".to_owned(),
        "100.1".to_owned(),
        "a.txt".to_owned(),
        None,
        Some("https://slack/F1".to_owned()),
        Some(0),
        Some("  https://r2/F1  ".to_owned()),
    );
    assert_eq!(file.permalink.as_deref(), Some("https://r2/F1"));
    assert_eq!(file.size, None);
    let plain = file_from_row(
        "F2".to_owned(),
        "C1".to_owned(),
        "100.1".to_owned(),
        "b.txt".to_owned(),
        None,
        Some("https://slack/F2".to_owned()),
        Some(9),
        None,
    );
    assert_eq!(plain.permalink.as_deref(), Some("https://slack/F2"));
    assert_eq!(plain.size, Some(9));
}

#[test]
fn thread_views_wait_for_the_root_message() {
    let reply_only = vec![message("200.1", Some("100.1"), "reply")];
    assert!(thread_views(&reply_only, &Vec::<Reaction>::new(), &Vec::<File>::new(), "C1", "100.1").is_none());

    let thread = vec![message("100.1", None, "Root title"), message("200.1", Some("100.1"), "reply")];
    let reactions = vec![Reaction {
        channel_id: "C1".to_owned(),
        message_ts: "200.1".to_owned(),
        user_id: "U9".to_owned(),
        name: "eyes".to_owned(),
    }];
    let (documents, summary) =
        thread_views(&thread, &reactions, &Vec::<File>::new(), "C1", "100.1").expect("views");
    assert_eq!(documents.len(), 2);
    assert_eq!(documents[1].title.as_deref(), Some("Root title"));
    let summary = summary.expect("summary");
    assert_eq!(summary.reply_count, 1);
    assert_eq!(summary.reaction_count, 1);
    assert_eq!(summary.participant_count, 2);
    assert_eq!(summary.last_activity_ts, "200.1");
}

#[test]
fn all_views_cover_every_thread() {
    let messages = vec![
        message("100.1", None, "first"),
        message("150.1", Some("100.1"), "reply"),
        message("300.1", None, "second"),
    ];
    let (summaries, documents) = all_views(&messages, &Vec::<Reaction>::new(), &Vec::<File>::new());
    assert_eq!(summaries.len(), 2);
    assert_eq!(documents.len(), 3);
    assert_eq!(documents[2].root_ts, "300.1");
}

#[test]
fn history_sorts_by_second_and_keeps_ties_in_order() {
    let sorted = sort_by_event_time(vec![
        history("200.9", "late"),
        history("100.5", "first tie"),
        history("100.2", "second tie"),
        history("50.0", "earliest"),
    ]);
    let texts: Vec<_> = sorted.iter().map(|m| m.text.clone().unwrap()).collect();
    assert_eq!(texts, vec!["earliest", "first tie", "second tie", "late"]);
}

#[test]
fn one_thread_refresh_matches_the_full_rebuild() {
    let messages = vec![
        message("100.1", None, "first"),
        message("150.1", Some("100.1"), "reply"),
        message("300.1", None, "second"),
    ];
    let reactions = vec![Reaction {
        channel_id: "C1".to_owned(),
        message_ts: "150.1".to_owned(),
        user_id: "U7".to_owned(),
        name: "tada".to_owned(),
    }];
    let (_, single) = thread_views(&messages, &reactions, &Vec::<File>::new(), "C1", "100.1").expect("views");
    let (all, _) = all_views(&messages, &reactions, &Vec::<File>::new());
    assert_eq!(single.expect("summary"), all[0]);
}
