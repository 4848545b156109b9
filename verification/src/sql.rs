//! SQL text of the Postgres schema and of the statements the store runs.
use vstd::prelude::*;

verus! {

pub const UPSERT_MESSAGE_SQL: &'static str = r#"
INSERT INTO messages (channel_id, ts, root_ts, user_id, text, occurred_at)
VALUES ($1, $2, $3, $4, $5, $6)
ON CONFLICT (channel_id, ts) DO UPDATE
SET root_ts = EXCLUDED.root_ts,
    user_id = EXCLUDED.user_id,
    text = EXCLUDED.text,
    occurred_at = EXCLUDED.occurred_at
"#;

/// Inserts a message or updates it in place, keyed by channel and timestamp.
pub fn upsert_message_query() -> (r: &'static str)
    ensures
        r@ == UPSERT_MESSAGE_SQL@,
{
    UPSERT_MESSAGE_SQL
}

pub const UPSERT_REACTION_SQL: &'static str = r#"
INSERT INTO reactions (channel_id, message_ts, user_id, name, occurred_at)
VALUES ($1, $2, $3, $4, $5)
ON CONFLICT (channel_id, message_ts, user_id, name) DO NOTHING
"#;

/// Inserts a reaction once per channel, message, user and name.
pub fn upsert_reaction_query() -> (r: &'static str)
    ensures
        r@ == UPSERT_REACTION_SQL@,
{
    UPSERT_REACTION_SQL
}

pub const UPSERT_FILE_SQL: &'static str = r#"
INSERT INTO files (id, name, mimetype, permalink, size_bytes)
VALUES ($1, $2, $3, $4, $5)
ON CONFLICT (id) DO UPDATE
SET name = EXCLUDED.name,
    mimetype = EXCLUDED.mimetype,
    permalink = EXCLUDED.permalink,
    size_bytes = EXCLUDED.size_bytes
"#;

/// Inserts a file or updates its metadata, keyed by file id.
pub fn upsert_file_query() -> (r: &'static str)
    ensures
        r@ == UPSERT_FILE_SQL@,
{
    UPSERT_FILE_SQL
}

pub const ATTACH_FILE_SQL: &'static str = r#"
INSERT INTO message_files (channel_id, message_ts, file_id)
VALUES ($1, $2, $3)
ON CONFLICT (channel_id, message_ts, file_id) DO NOTHING
"#;

/// Links a file to the message that shared it.
pub fn attach_file_query() -> (r: &'static str)
    ensures
        r@ == ATTACH_FILE_SQL@,
{
    ATTACH_FILE_SQL
}

pub const UPSERT_CHANNEL_SQL: &'static str = r#"
INSERT INTO channels (id, kind, name, is_archived)
VALUES ($1, $2, $3, $4)
ON CONFLICT (id) DO UPDATE
SET kind = EXCLUDED.kind,
    name = EXCLUDED.name,
    is_archived = EXCLUDED.is_archived
"#;

/// Inserts a channel or updates its kind, name and archive state.
pub fn upsert_channel_query() -> (r: &'static str)
    ensures
        r@ == UPSERT_CHANNEL_SQL@,
{
    UPSERT_CHANNEL_SQL
}

pub const UPSERT_USER_SQL: &'static str = r#"
INSERT INTO users (id, email, display_name, avatar_url, is_active)
VALUES ($1, $2, $3, $4, $5)
ON CONFLICT (id) DO UPDATE
SET email = EXCLUDED.email,
    display_name = EXCLUDED.display_name,
    avatar_url = EXCLUDED.avatar_url,
    is_active = EXCLUDED.is_active
"#;

/// Inserts a user or updates the profile.
pub fn upsert_user_query() -> (r: &'static str)
    ensures
        r@ == UPSERT_USER_SQL@,
{
    UPSERT_USER_SQL
}

pub const UPSERT_SEARCH_DOCUMENT_SQL: &'static str = r#"
INSERT INTO search_documents (
    channel_id,
    root_ts,
    message_ts,
    title,
    body,
    document,
    message_occurred_at
)
VALUES ($1, $2, $3, $4, $5, $6, $7)
ON CONFLICT (channel_id, message_ts) DO UPDATE
SET title = EXCLUDED.title,
    body = EXCLUDED.body,
    document = EXCLUDED.document,
    message_occurred_at = EXCLUDED.message_occurred_at
"#;

/// Inserts or refreshes the search document of a message.
pub fn upsert_search_document_query() -> (r: &'static str)
    ensures
        r@ == UPSERT_SEARCH_DOCUMENT_SQL@,
{
    UPSERT_SEARCH_DOCUMENT_SQL
}

pub const UPSERT_THREAD_SUMMARY_SQL: &'static str = r#"
INSERT INTO thread_summaries (
    channel_id,
    root_ts,
    reply_count,
    participant_count,
    reaction_count,
    file_count,
    root_message_at,
    last_activity_at
)
VALUES ($1, $2, $3, $4, $5, $6, $7, $8)
ON CONFLICT (channel_id, root_ts) DO UPDATE
SET reply_count = EXCLUDED.reply_count,
    participant_count = EXCLUDED.participant_count,
    reaction_count = EXCLUDED.reaction_count,
    file_count = EXCLUDED.file_count,
    root_message_at = EXCLUDED.root_message_at,
    last_activity_at = EXCLUDED.last_activity_at
"#;

/// Inserts or refreshes the roll-up of a thread.
pub fn upsert_thread_summary_query() -> (r: &'static str)
    ensures
        r@ == UPSERT_THREAD_SUMMARY_SQL@,
{
    UPSERT_THREAD_SUMMARY_SQL
}

pub const UPSERT_SAVED_ITEM_SQL: &'static str = r#"
INSERT INTO saved_items (user_id, channel_id, root_ts)
VALUES ($1, $2, $3)
ON CONFLICT (user_id, channel_id, root_ts) DO UPDATE
SET saved_at = now()
"#;

/// Saves a thread for a user, refreshing the save time.
pub fn upsert_saved_item_query() -> (r: &'static str)
    ensures
        r@ == UPSERT_SAVED_ITEM_SQL@,
{
    UPSERT_SAVED_ITEM_SQL
}

pub const DELETE_SAVED_ITEM_SQL: &'static str = r#"
DELETE FROM saved_items
WHERE user_id = $1
  AND channel_id = $2
  AND root_ts = $3
"#;

/// Removes a saved thread of a user.
pub fn delete_saved_item_query() -> (r: &'static str)
    ensures
        r@ == DELETE_SAVED_ITEM_SQL@,
{
    DELETE_SAVED_ITEM_SQL
}

pub const INITIAL_CATCH_UP_SQL: &'static str = r#"
SELECT
    thread_summaries.channel_id,
    thread_summaries.root_ts,
    thread_summaries.reply_count,
    thread_summaries.participant_count,
    thread_summaries.reaction_count,
    thread_summaries.file_count,
    thread_summaries.root_message_at,
    thread_summaries.last_activity_at,
    channels.name AS channel_name,
    channels.kind AS channel_kind,
    channels.is_archived
FROM thread_summaries
LEFT JOIN channels
    ON channels.id = thread_summaries.channel_id
WHERE thread_summaries.last_activity_at >= $1
ORDER BY thread_summaries.last_activity_at DESC,
         thread_summaries.channel_id ASC,
         thread_summaries.root_ts ASC
"#;

/// Threads active since `$1`, newest first, with their channel.
pub fn initial_catch_up_query() -> (r: &'static str)
    ensures
        r@ == INITIAL_CATCH_UP_SQL@,
{
    INITIAL_CATCH_UP_SQL
}

pub const INSERT_ANALYTICS_EVENT_SQL: &'static str = r#"
INSERT INTO analytics_events (event_type, user_id, metadata)
VALUES ($1, $2, $3)
"#;

/// Records an analytics event.
pub fn insert_analytics_event_query() -> (r: &'static str)
    ensures
        r@ == INSERT_ANALYTICS_EVENT_SQL@,
{
    INSERT_ANALYTICS_EVENT_SQL
}

pub const CREATE_SEARCH_DOCUMENTS_TABLE_SQL: &'static str = r#"
CREATE TABLE IF NOT EXISTS search_documents (
    channel_id TEXT NOT NULL,
    root_ts TEXT NOT NULL,
    message_ts TEXT NOT NULL,
    title TEXT,
    body TEXT NOT NULL,
    document TSVECTOR NOT NULL,
    message_occurred_at TIMESTAMPTZ NOT NULL,
    PRIMARY KEY (channel_id, message_ts)
);

CREATE INDEX IF NOT EXISTS search_documents_document_idx
ON search_documents
USING GIN (document);

CREATE INDEX IF NOT EXISTS search_documents_channel_ts_idx
ON search_documents (channel_id, root_ts, message_occurred_at DESC);
"#;

/// Creates the search document table and its indexes.
pub fn create_search_documents_table_query() -> (r: &'static str)
    ensures
        r@ == CREATE_SEARCH_DOCUMENTS_TABLE_SQL@,
{
    CREATE_SEARCH_DOCUMENTS_TABLE_SQL
}

pub const CREATE_THREAD_SUMMARIES_TABLE_SQL: &'static str = r#"
CREATE TABLE IF NOT EXISTS thread_summaries (
    channel_id TEXT NOT NULL,
    root_ts TEXT NOT NULL,
    reply_count BIGINT NOT NULL,
    participant_count BIGINT NOT NULL,
    reaction_count BIGINT NOT NULL,
    file_count BIGINT NOT NULL,
    root_message_at TIMESTAMPTZ NOT NULL,
    last_activity_at TIMESTAMPTZ NOT NULL,
    PRIMARY KEY (channel_id, root_ts)
);

CREATE INDEX IF NOT EXISTS thread_summaries_last_activity_idx
ON thread_summaries (last_activity_at DESC);

CREATE INDEX IF NOT EXISTS thread_summaries_channel_activity_idx
ON thread_summaries (channel_id, last_activity_at DESC);
"#;

/// Creates the thread roll-up table and its indexes.
pub fn create_thread_summaries_table_query() -> (r: &'static str)
    ensures
        r@ == CREATE_THREAD_SUMMARIES_TABLE_SQL@,
{
    CREATE_THREAD_SUMMARIES_TABLE_SQL
}

pub const CREATE_GENERATED_THREAD_SUMMARIES_TABLE_SQL: &'static str = r#"
CREATE TABLE IF NOT EXISTS generated_thread_summaries (
    channel_id TEXT NOT NULL,
    root_ts TEXT NOT NULL,
    summary TEXT NOT NULL,
    full_summary TEXT,
    why_it_mattered TEXT,
    status TEXT NOT NULL,
    topic_tags TEXT[] NOT NULL DEFAULT '{}',
    source_last_activity_ts TEXT NOT NULL,
    model TEXT NOT NULL,
    generated_at TIMESTAMPTZ NOT NULL,
    created_at TIMESTAMPTZ NOT NULL DEFAULT now(),
    updated_at TIMESTAMPTZ NOT NULL DEFAULT now(),
    PRIMARY KEY (channel_id, root_ts)
);

ALTER TABLE generated_thread_summaries
ADD COLUMN IF NOT EXISTS full_summary TEXT;

UPDATE generated_thread_summaries
SET full_summary = summary
WHERE full_summary IS NULL;

CREATE INDEX IF NOT EXISTS generated_thread_summaries_generated_at_idx
ON generated_thread_summaries (generated_at DESC);

CREATE INDEX IF NOT EXISTS generated_thread_summaries_channel_generated_at_idx
ON generated_thread_summaries (channel_id, generated_at DESC);
"#;

/// Creates the generated summary table, adds the full summary column and its indexes.
pub fn create_generated_thread_summaries_table_query() -> (r: &'static str)
    ensures
        r@ == CREATE_GENERATED_THREAD_SUMMARIES_TABLE_SQL@,
{
    CREATE_GENERATED_THREAD_SUMMARIES_TABLE_SQL
}

pub const CREATE_SAVED_ITEMS_TABLE_SQL: &'static str = r#"
CREATE TABLE IF NOT EXISTS saved_items (
    user_id TEXT NOT NULL,
    channel_id TEXT NOT NULL,
    root_ts TEXT NOT NULL,
    saved_at TIMESTAMPTZ NOT NULL DEFAULT now(),
    PRIMARY KEY (user_id, channel_id, root_ts)
);

CREATE INDEX IF NOT EXISTS saved_items_user_saved_at_idx
ON saved_items (user_id, saved_at DESC);
"#;

/// Creates the saved item table and its index.
pub fn create_saved_items_table_query() -> (r: &'static str)
    ensures
        r@ == CREATE_SAVED_ITEMS_TABLE_SQL@,
{
    CREATE_SAVED_ITEMS_TABLE_SQL
}

pub const BACKFILL_SEARCH_DOCUMENTS_SQL: &'static str = r#"
WITH root_messages AS (
    SELECT channel_id, ts AS root_ts, text AS root_text
    FROM messages
    WHERE root_ts = ts
)
INSERT INTO search_documents (
    channel_id,
    root_ts,
    message_ts,
    title,
    body,
    document,
    message_occurred_at
)
SELECT
    messages.channel_id,
    messages.root_ts,
    messages.ts AS message_ts,
    COALESCE(root_messages.root_text, messages.text) AS title,
    messages.text AS body,
    to_tsvector(
        'english',
        btrim(
            coalesce(COALESCE(root_messages.root_text, messages.text), '')
            || ' '
            || messages.text
        )
    ) AS document,
    messages.occurred_at AS message_occurred_at
FROM messages
LEFT JOIN root_messages
    ON root_messages.channel_id = messages.channel_id
   AND root_messages.root_ts = messages.root_ts
ON CONFLICT (channel_id, message_ts) DO UPDATE
SET title = EXCLUDED.title,
    body = EXCLUDED.body,
    document = EXCLUDED.document,
    message_occurred_at = EXCLUDED.message_occurred_at
"#;

/// Rebuilds the search documents from the stored messages and their thread roots.
pub fn backfill_search_documents_query() -> (r: &'static str)
    ensures
        r@ == BACKFILL_SEARCH_DOCUMENTS_SQL@,
{
    BACKFILL_SEARCH_DOCUMENTS_SQL
}

} // verus!
