//! Rows of the archive tables and of the derived indexes.
use vstd::prelude::*;
use crate::domain::clone_opt_string;

verus! {

#[derive(Debug, Clone, PartialEq, Eq)]
pub struct MessageRow {
    pub channel_id: String,
    pub ts: String,
    pub root_ts: String,
    pub user_id: Option<String>,
    pub text: String,
    pub occurred_at: String,
}

#[derive(Debug, Clone, PartialEq, Eq)]
pub struct ReactionRow {
    pub channel_id: String,
    pub message_ts: String,
    pub user_id: String,
    pub name: String,
    pub occurred_at: String,
}

#[derive(Debug, Clone, PartialEq, Eq)]
pub struct FileRow {
    pub id: String,
    pub channel_id: String,
    pub message_ts: String,
    pub name: String,
    pub mimetype: Option<String>,
    pub permalink: Option<String>,
    pub size_bytes: Option<i64>,
}

#[derive(Debug, Clone, PartialEq, Eq)]
pub struct ChannelRow {
    pub id: String,
    pub kind: String,
    pub name: Option<String>,
    pub is_archived: bool,
}

#[derive(Debug, Clone, PartialEq, Eq)]
pub struct UserRow {
    pub id: String,
    pub display_name: Option<String>,
    pub avatar_url: Option<String>,
    pub is_active: bool,
}

/// The search document of one message: the thread root's text as title, the
/// message's own text as body.
#[derive(Debug, PartialEq, Eq)]
pub struct SearchDocumentRow {
    pub channel_id: String,
    pub root_ts: String,
    pub message_ts: String,
    pub title: Option<String>,
    pub body: String,
    pub message_occurred_at: String,
}

impl Clone for SearchDocumentRow {
    fn clone(&self) -> (r: Self)
        ensures
            r == *self,
    {
        SearchDocumentRow {
            channel_id: self.channel_id.clone(),
            root_ts: self.root_ts.clone(),
            message_ts: self.message_ts.clone(),
            title: clone_opt_string(&self.title),
            body: self.body.clone(),
            message_occurred_at: self.message_occurred_at.clone(),
        }
    }
}

/// The roll-up of one thread.
#[derive(Debug, PartialEq, Eq)]
pub struct ThreadSummaryRow {
    pub channel_id: String,
    pub root_ts: String,
    pub reply_count: i64,
    pub participant_count: i64,
    pub reaction_count: i64,
    pub file_count: i64,
    pub root_message_at: String,
    pub last_activity_ts: String,
}

impl Clone for ThreadSummaryRow {
    fn clone(&self) -> (r: Self)
        ensures
            r == *self,
    {
        ThreadSummaryRow {
            channel_id: self.channel_id.clone(),
            root_ts: self.root_ts.clone(),
            reply_count: self.reply_count,
            participant_count: self.participant_count,
            reaction_count: self.reaction_count,
            file_count: self.file_count,
            root_message_at: self.root_message_at.clone(),
            last_activity_ts: self.last_activity_ts.clone(),
        }
    }
}

/// The card of one thread as the thread list shows it.
#[derive(Debug, PartialEq, Eq)]
pub struct ThreadCardRow {
    pub channel_id: String,
    pub root_ts: String,
    pub author_user_id: Option<String>,
    pub title: String,
    pub preview: String,
    pub reply_count: i64,
    pub participant_count: i64,
    pub reaction_count: i64,
    pub file_count: i64,
    pub root_message_at: String,
    pub last_activity_ts: String,
}

impl Clone for ThreadCardRow {
    fn clone(&self) -> (r: Self)
        ensures
            r == *self,
    {
        ThreadCardRow {
            channel_id: self.channel_id.clone(),
            root_ts: self.root_ts.clone(),
            author_user_id: clone_opt_string(&self.author_user_id),
            title: self.title.clone(),
            preview: self.preview.clone(),
            reply_count: self.reply_count,
            participant_count: self.participant_count,
            reaction_count: self.reaction_count,
            file_count: self.file_count,
            root_message_at: self.root_message_at.clone(),
            last_activity_ts: self.last_activity_ts.clone(),
        }
    }
}

/// A model-written summary of a thread.
#[derive(Debug, PartialEq, Eq)]
pub struct GeneratedThreadSummaryRow {
    pub channel_id: String,
    pub root_ts: String,
    pub summary: String,
    pub full_summary: Option<String>,
    pub why_it_mattered: Option<String>,
    pub status: String,
    pub topic_tags: Vec<String>,
    pub source_last_activity_ts: String,
    pub model: String,
    pub generated_at: i64,
}

/// A copy of a list of strings, equal to the original.
pub fn clone_strings(v: &Vec<String>) -> (r: Vec<String>)
    ensures
        r@ == v@,
{
    let mut out: Vec<String> = Vec::new();
    let mut i: usize = 0;
    while i < v.len()
        invariant
            i <= v.len(),
            out@ == v@.take(i as int),
        decreases v.len() - i,
    {
        out.push(v[i].clone());
        proof {
            assert(v@.take(i + 1) =~= v@.take(i as int).push(v@[i as int]));
        }
        i = i + 1;
    }
    proof {
        assert(v@.take(v@.len() as int) =~= v@);
    }
    out
}

/// `b` is a copy of `a`: the same fields, and topic tags of the same text.
pub open spec fn generated_copy(b: GeneratedThreadSummaryRow, a: GeneratedThreadSummaryRow) -> bool {
    &&& b.channel_id == a.channel_id
    &&& b.root_ts == a.root_ts
    &&& b.summary == a.summary
    &&& b.full_summary == a.full_summary
    &&& b.why_it_mattered == a.why_it_mattered
    &&& b.status == a.status
    &&& b.topic_tags@ == a.topic_tags@
    &&& b.source_last_activity_ts == a.source_last_activity_ts
    &&& b.model == a.model
    &&& b.generated_at == a.generated_at
}

impl Clone for GeneratedThreadSummaryRow {
    fn clone(&self) -> (r: Self)
        ensures
            generated_copy(r, *self),
    {
        GeneratedThreadSummaryRow {
            channel_id: self.channel_id.clone(),
            root_ts: self.root_ts.clone(),
            summary: self.summary.clone(),
            full_summary: crate::domain::clone_opt_string(&self.full_summary),
            why_it_mattered: crate::domain::clone_opt_string(&self.why_it_mattered),
            status: self.status.clone(),
            topic_tags: clone_strings(&self.topic_tags),
            source_last_activity_ts: self.source_last_activity_ts.clone(),
            model: self.model.clone(),
            generated_at: self.generated_at,
        }
    }
}

#[derive(Debug, Clone, PartialEq, Eq)]
pub struct AnalyticsEventRow {
    pub event_type: String,
    pub user_id: Option<String>,
    pub metadata: String,
    pub created_at: String,
}

#[derive(Debug, Clone, PartialEq, Eq)]
pub struct SavedItemRow {
    pub user_id: String,
    pub channel_id: String,
    pub root_ts: String,
    pub saved_at: String,
}

} // verus!
