use arkivist::domain::{payload_kind, ChannelKind, EventPayload, ProcessEventJob, WorkspaceMode};
use arkivist::ts::{parse_event_time, parse_ts_micros};

#[test]
fn channel_kinds_follow_ids_and_types() {
    assert_eq!(ChannelKind::from_channel_id("C123"), ChannelKind::Public);
    assert_eq!(ChannelKind::from_channel_id("G123"), ChannelKind::Private);
    assert_eq!(ChannelKind::from_channel_id("D123"), ChannelKind::Direct);
    assert_eq!(ChannelKind::from_channel_id(""), ChannelKind::Unknown);
    assert_eq!(ChannelKind::from_channel_type("public_channel"), ChannelKind::Public);
    assert_eq!(ChannelKind::from_channel_type("group"), ChannelKind::Private);
    assert_eq!(ChannelKind::from_channel_type("mpim"), ChannelKind::Direct);
    assert_eq!(ChannelKind::from_channel_type("other"), ChannelKind::Unknown);
    assert_eq!(ChannelKind::Public.as_str(), "public");
    assert!(ChannelKind::Public.is_public());
    assert!(!ChannelKind::Direct.is_public());
    assert_eq!(WorkspaceMode::SingleWorkspace.as_str(), "single_workspace");
}

#[test]
fn jobs_name_their_payload_kind() {
    let job = ProcessEventJob {
        event_id: "e".to_owned(),
        team_id: "T123".to_owned(),
        event_time: 1,
        received_at: 2,
        channel_id: "C1".to_owned(),
        channel_kind: ChannelKind::Public,
        payload: EventPayload::ChannelUpdated { name: None, is_archived: None },
    };
    assert_eq!(payload_kind(&job), "channel_updated");
    assert!(job.targets_public_channel());
}

#[test]
fn slack_timestamps_are_read() {
    assert_eq!(parse_event_time("1700000000.000001"), 1700000000);
    assert_eq!(parse_event_time("abc.1"), 0);
    assert_eq!(parse_ts_micros("1700000000.100009"), 1700000000100009);
    assert_eq!(parse_ts_micros("1700000000.1"), 1700000000100000);
}
