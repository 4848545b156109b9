use arkivist::rows::{
    AnalyticsEventRow, ChannelRow, FileRow, MessageRow, ReactionRow, SavedItemRow,
    SearchDocumentRow, ThreadSummaryRow, UserRow,
};
use arkivist::sql::{
    backfill_search_documents_query, create_generated_thread_summaries_table_query,
    create_saved_items_table_query, create_search_documents_table_query,
    create_thread_summaries_table_query, delete_saved_item_query, initial_catch_up_query,
    insert_analytics_event_query, upsert_channel_query, upsert_file_query, upsert_message_query,
    upsert_reaction_query, upsert_saved_item_query, upsert_search_document_query,
    upsert_thread_summary_query, upsert_user_query,
};

#[test]
fn sqlx_rows_cover_core_entities() {
    let message = MessageRow {
        channel_id: "C123".to_owned(),
        ts: "1700000000.000001".to_owned(),
        root_ts: "1700000000.000001".to_owned(),
        user_id: Some("U123".to_owned()),
        text: "hello".to_owned(),
        occurred_at: "2026-03-10T12:00:00Z".to_owned(),
    };
    let reaction = ReactionRow {
        channel_id: "C123".to_owned(),
        message_ts: message.ts.clone(),
        user_id: "U123".to_owned(),
        name: "thumbsup".to_owned(),
        occurred_at: "2026-03-10T12:01:00Z".to_owned(),
    };
    let file = FileRow {
        id: "F123".to_owned(),
        channel_id: "C123".to_owned(),
        message_ts: message.ts.clone(),
        name: "brief.pdf".to_owned(),
        mimetype: Some("application/pdf".to_owned()),
        permalink: Some("https://files.example.com/brief.pdf".to_owned()),
        size_bytes: Some(42),
    };
    let channel = ChannelRow {
        id: "C123".to_owned(),
        kind: "public".to_owned(),
        name: Some("general".to_owned()),
        is_archived: false,
    };
    let user = UserRow {
        id: "U123".to_owned(),
        display_name: Some("Thomas".to_owned()),
        avatar_url: Some("https://example.com/avatar.png".to_owned()),
        is_active: true,
    };
    let search_document = SearchDocumentRow {
        channel_id: "C123".to_owned(),
        root_ts: message.ts.clone(),
        message_ts: message.ts.clone(),
        title: Some("General".to_owned()),
        body: "hello".to_owned(),
        message_occurred_at: "2026-03-10T12:00:00Z".to_owned(),
    };
    let analytics_event = AnalyticsEventRow {
        event_type: "thread_viewed".to_owned(),
        user_id: Some("U123".to_owned()),
        metadata: "{}".to_owned(),
        created_at: "2026-03-10T12:10:00Z".to_owned(),
    };
    let saved_item = SavedItemRow {
        user_id: "U123".to_owned(),
        channel_id: "C123".to_owned(),
        root_ts: message.ts.clone(),
        saved_at: "2026-03-09T12:00:00Z".to_owned(),
    };
    let thread_summary = ThreadSummaryRow {
        channel_id: "C123".to_owned(),
        root_ts: message.ts.clone(),
        reply_count: 1,
        participant_count: 2,
        reaction_count: 1,
        file_count: 1,
        root_message_at: "2026-03-10T12:00:00Z".to_owned(),
        last_activity_ts: "1700000000.000002".to_owned(),
    };

    assert_eq!(reaction.name, "thumbsup");
    assert_eq!(file.name, "brief.pdf");
    assert_eq!(channel.name.as_deref(), Some("general"));
    assert!(user.is_active);
    assert_eq!(search_document.body, "hello");
    assert_eq!(saved_item.user_id, "U123");
    assert_eq!(thread_summary.participant_count, 2);
    assert_eq!(analytics_event.event_type, "thread_viewed");
}

#[test]
fn query_helpers_target_expected_tables() {
    assert!(upsert_message_query().contains("INSERT INTO messages"));
    assert!(upsert_reaction_query().contains("INSERT INTO reactions"));
    assert!(upsert_file_query().contains("INSERT INTO files"));
    assert!(upsert_channel_query().contains("INSERT INTO channels"));
    assert!(upsert_user_query().contains("INSERT INTO users"));
    assert!(upsert_search_document_query().contains("INSERT INTO search_documents"));
    assert!(upsert_thread_summary_query().contains("INSERT INTO thread_summaries"));
    assert!(upsert_saved_item_query().contains("INSERT INTO saved_items"));
    assert!(delete_saved_item_query().contains("DELETE FROM saved_items"));
    assert!(initial_catch_up_query().contains("FROM thread_summaries"));
    assert!(initial_catch_up_query().contains("LEFT JOIN channels"));
    assert!(insert_analytics_event_query().contains("INSERT INTO analytics_events"));
}

#[test]
fn search_document_schema_creates_tsvector_indexes() {
    let schema = create_search_documents_table_query();

    assert!(schema.contains("CREATE TABLE IF NOT EXISTS search_documents"));
    assert!(schema.contains("document TSVECTOR NOT NULL"));
    assert!(schema.contains("message_occurred_at TIMESTAMPTZ NOT NULL"));
    assert!(schema.contains("USING GIN (document)"));
    assert!(schema.contains("search_documents_channel_ts_idx"));
}

#[test]
fn search_document_backfill_rebuilds_from_messages_and_roots() {
    let query = backfill_search_documents_query();

    assert!(query.contains("WITH root_messages AS"));
    assert!(query.contains("INSERT INTO search_documents"));
    assert!(query.contains("FROM messages"));
    assert!(query.contains("COALESCE(root_messages.root_text, messages.text) AS title"));
    assert!(query.contains("ON CONFLICT (channel_id, message_ts) DO UPDATE"));
}

#[test]
fn thread_summary_schema_creates_activity_indexes() {
    let schema = create_thread_summaries_table_query();

    assert!(schema.contains("CREATE TABLE IF NOT EXISTS thread_summaries"));
    assert!(schema.contains("reply_count BIGINT NOT NULL"));
    assert!(schema.contains("participant_count BIGINT NOT NULL"));
    assert!(schema.contains("root_message_at TIMESTAMPTZ NOT NULL"));
    assert!(schema.contains("last_activity_at TIMESTAMPTZ NOT NULL"));
    assert!(schema.contains("thread_summaries_last_activity_idx"));
    assert!(schema.contains("thread_summaries_channel_activity_idx"));
}

#[test]
fn saved_items_schema_tracks_saved_threads_per_user() {
    let schema = create_saved_items_table_query();

    assert!(schema.contains("CREATE TABLE IF NOT EXISTS saved_items"));
    assert!(schema.contains("user_id TEXT NOT NULL"));
    assert!(schema.contains("saved_at TIMESTAMPTZ NOT NULL DEFAULT now()"));
    assert!(schema.contains("saved_items_user_saved_at_idx"));
}

#[test]
fn generated_thread_summary_schema_tracks_model_output_per_thread() {
    let schema = create_generated_thread_summaries_table_query();

    assert!(schema.contains("CREATE TABLE IF NOT EXISTS generated_thread_summaries"));
    assert!(schema.contains("summary TEXT NOT NULL"));
    assert!(schema.contains("full_summary TEXT"));
    assert!(schema.contains("topic_tags TEXT[] NOT NULL DEFAULT '{}'"));
    assert!(schema.contains("source_last_activity_ts TEXT NOT NULL"));
    assert!(schema.contains("ADD COLUMN IF NOT EXISTS full_summary TEXT"));
    assert!(schema.contains("generated_thread_summaries_generated_at_idx"));
}
