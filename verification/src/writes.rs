//! The rows that the database store writes: those of one recorded event, and
//! those of a backfill batch; and how a stored file row reads back.
use vstd::prelude::*;
use crate::domain::{clone_opt_string, payload_kind_name, ChannelKind, EventPayload, File, ProcessEventJob, SharedFile};
use crate::ordered::{chars_view, has_key, key_map, lemma_entry_is_member, lemma_entry_of_member, sorted_by_key, upsert_sorted, Keyed};
use crate::summary_text::present;
use crate::text::{chars_of, int_text, push_int, str_eq};
use crate::thread_summary::opt_view;

verus! {

/// A channel row to insert or update; without a name the stored name stays.
#[derive(Debug, PartialEq, Eq)]
pub struct ChannelWrite {
    pub id: String,
    pub kind: ChannelKind,
    pub name: Option<String>,
    pub is_archived: bool,
}

/// A message row to insert or update, keyed by channel and timestamp.
#[derive(Debug, PartialEq, Eq)]
pub struct MessageWrite {
    pub ts: String,
    pub root_ts: String,
    pub user_id: Option<String>,
    pub text: String,
}

/// A file row to insert or update, keyed by file id.
#[derive(Debug, PartialEq, Eq)]
pub struct FileWrite {
    pub id: String,
    pub name: String,
    pub mimetype: Option<String>,
    pub permalink: Option<String>,
    pub size_bytes: Option<i64>,
}

/// A reaction row, stored once per channel, message, user and name.
#[derive(Debug, PartialEq, Eq)]
pub struct ReactionWrite {
    pub message_ts: String,
    pub user_id: String,
    pub name: String,
}

/// The thread whose search documents and roll-up an event changes.
#[derive(Debug, PartialEq, Eq)]
pub enum TouchedThread {
    /// The thread with this root.
    Root(String),
    /// The thread of the stored message with this timestamp, if it is stored.
    RootOfMessage(String),
    /// No thread.
    Nothing,
}

/// What recording one new event writes, beside the event row itself: the
/// channel row, then the message and its files, or the reaction, or the
/// channel's new name and archive state; then the views of the touched thread.
pub struct EventWritePlan {
    pub event_type: &'static str,
    pub channel: ChannelWrite,
    pub message: Option<MessageWrite>,
    pub files: Vec<FileWrite>,
    pub reaction: Option<ReactionWrite>,
    pub channel_update: Option<ChannelWrite>,
    pub touched: TouchedThread,
}

/// A file size as the database keeps it.
pub open spec fn size_bytes(size: Option<u64>) -> Option<i64> {
    match size {
        Some(v) => Some(v as i64),
        None => None,
    }
}

/// The file row of a shared file, by the characters of its fields.
pub open spec fn file_write_view(f: FileWrite) -> (Seq<char>, Seq<char>, Option<Seq<char>>, Option<Seq<char>>, Option<i64>) {
    (f.id@, f.name@, opt_view(f.mimetype), opt_view(f.permalink), f.size_bytes)
}

/// The file row that a shared file is written as.
pub open spec fn shared_file_row(f: SharedFile) -> (Seq<char>, Seq<char>, Option<Seq<char>>, Option<Seq<char>>, Option<i64>) {
    (f.id@, f.name@, opt_view(f.mimetype), opt_view(f.permalink), size_bytes(f.size))
}

/// The root of the thread of message `ts`: the thread it names, or itself.
pub open spec fn root_or_self(ts: Seq<char>, thread_ts: Option<String>) -> Seq<char> {
    match thread_ts {
        Some(t) => t@,
        None => ts,
    }
}

/// A message's text, empty when it has none.
pub open spec fn text_or_empty(text: Option<String>) -> Seq<char> {
    match text {
        Some(t) => t@,
        None => Seq::empty(),
    }
}

fn size_of(size: Option<u64>) -> (r: Option<i64>)
    ensures
        r == size_bytes(size),
{
    match size {
        Some(v) => Some(v as i64),
        None => None,
    }
}

fn file_write(f: &SharedFile) -> (r: FileWrite)
    ensures
        file_write_view(r) == shared_file_row(*f),
{
    FileWrite {
        id: f.id.clone(),
        name: f.name.clone(),
        mimetype: clone_opt_string(&f.mimetype),
        permalink: clone_opt_string(&f.permalink),
        size_bytes: size_of(f.size),
    }
}

fn file_writes(files: &Vec<SharedFile>) -> (r: Vec<FileWrite>)
    ensures
        r@.map_values(|w: FileWrite| file_write_view(w)) == files@.map_values(|f: SharedFile| shared_file_row(f)),
{
    let mut out: Vec<FileWrite> = Vec::new();
    let mut i: usize = 0;
    while i < files.len()
        invariant
            i <= files@.len(),
            out@.map_values(|w: FileWrite| file_write_view(w)) == files@.take(i as int).map_values(|f: SharedFile| shared_file_row(f)),
        decreases files@.len() - i,
    {
        let ghost before = out@;
        let w = file_write(&files[i]);
        out.push(w);
        proof {
            assert(files@.take(i + 1) =~= files@.take(i as int).push(files@[i as int]));
            let lhs = out@.map_values(|w: FileWrite| file_write_view(w));
            let rhs = files@.take(i + 1).map_values(|f: SharedFile| shared_file_row(f));
            assert(out@ == before.push(w));
            assert(before.map_values(|w: FileWrite| file_write_view(w)).len() == before.len());
            assert(files@.take(i as int).map_values(|f: SharedFile| shared_file_row(f)).len() == i);
            assert(lhs.len() == rhs.len());
            assert forall|k: int| 0 <= k < lhs.len() implies lhs[k] == rhs[k] by {
                assert(lhs[k] == file_write_view(out@[k]));
                assert(rhs[k] == shared_file_row(files@.take(i + 1)[k]));
                if k < i {
                    assert(out@[k] == before[k]);
                    assert(before.map_values(|w: FileWrite| file_write_view(w))[k] == file_write_view(before[k]));
                    assert(files@.take(i as int).map_values(|f: SharedFile| shared_file_row(f))[k] == shared_file_row(files@.take(i as int)[k]));
                }
            }
            assert(lhs =~= rhs);
        }
        i = i + 1;
    }
    proof {
        assert(files@.take(files@.len() as int) =~= files@);
    }
    out
}

fn text_or_default(text: &Option<String>) -> (r: String)
    ensures
        r@ == text_or_empty(*text),
{
    match text {
        Some(t) => t.clone(),
        None => String::new(),
    }
}

/// What the database store writes when it records `job` as a new event.
pub fn plan_event_writes(job: &ProcessEventJob) -> (r: EventWritePlan)
    ensures
        r.event_type@ == payload_kind_name(job.payload),
        r.channel.id == job.channel_id,
        r.channel.kind == job.channel_kind,
        r.channel.name is None,
        !r.channel.is_archived,
        match job.payload {
            EventPayload::Message { user_id, text, ts, thread_ts, files } => {
                &&& r.message matches Some(m) && m.ts == ts && m.root_ts@ == root_or_self(ts@, thread_ts)
                    && m.user_id == user_id && m.text@ == text_or_empty(text)
                &&& r.files@.map_values(|w: FileWrite| file_write_view(w)) == files@.map_values(|f: SharedFile| shared_file_row(f))
                &&& r.reaction is None
                &&& r.channel_update is None
                &&& r.touched matches TouchedThread::Root(t) && t@ == root_or_self(ts@, thread_ts)
            },
            EventPayload::ReactionAdded { user_id, reaction, item_ts } => {
                &&& r.message is None
                &&& r.files@.len() == 0
                &&& r.reaction == Some(ReactionWrite { message_ts: item_ts, user_id, name: reaction })
                &&& r.channel_update is None
                &&& r.touched == TouchedThread::RootOfMessage(item_ts)
            },
            EventPayload::ChannelUpdated { name, is_archived } => {
                &&& r.message is None
                &&& r.files@.len() == 0
                &&& r.reaction is None
                &&& r.channel_update == Some(ChannelWrite {
                    id: job.channel_id,
                    kind: job.channel_kind,
                    name,
                    is_archived: match is_archived {
                        Some(b) => b,
                        None => false,
                    },
                })
                &&& r.touched == TouchedThread::Nothing
            },
        },
{
    let channel = ChannelWrite { id: job.channel_id.clone(), kind: job.channel_kind, name: None, is_archived: false };
    let event_type = crate::domain::event_type(&job.payload);
    match &job.payload {
        EventPayload::Message { user_id, text, ts, thread_ts, files } => {
            let root = crate::worker::thread_root_ts(ts.as_str(), match thread_ts {
                Some(t) => Some(t.as_str()),
                None => None,
            });
            let root_again = root.clone();
            EventWritePlan {
                event_type,
                channel,
                message: Some(MessageWrite {
                    ts: ts.clone(),
                    root_ts: root,
                    user_id: clone_opt_string(user_id),
                    text: text_or_default(text),
                }),
                files: file_writes(files),
                reaction: None,
                channel_update: None,
                touched: TouchedThread::Root(root_again),
            }
        },
        EventPayload::ReactionAdded { user_id, reaction, item_ts } => {
            EventWritePlan {
                event_type,
                channel,
                message: None,
                files: Vec::new(),
                reaction: Some(ReactionWrite { message_ts: item_ts.clone(), user_id: user_id.clone(), name: reaction.clone() }),
                channel_update: None,
                touched: TouchedThread::RootOfMessage(item_ts.clone()),
            }
        },
        EventPayload::ChannelUpdated { name, is_archived } => {
            let archived = match is_archived {
                Some(b) => *b,
                None => false,
            };
            EventWritePlan {
                event_type,
                channel,
                message: None,
                files: Vec::new(),
                reaction: None,
                channel_update: Some(ChannelWrite {
                    id: job.channel_id.clone(),
                    kind: job.channel_kind,
                    name: clone_opt_string(name),
                    is_archived: archived,
                }),
                touched: TouchedThread::Nothing,
            }
        },
    }
}

/// The file a stored row describes: its address is the archived copy when
/// there is one, else the Slack permalink, trimmed and none when blank; a
/// size that is not positive is none.
pub fn file_from_row(
    id: String,
    channel_id: String,
    message_ts: String,
    name: String,
    mimetype: Option<String>,
    permalink: Option<String>,
    size_bytes: Option<i64>,
    storage_url: Option<String>,
) -> (r: File)
    ensures
        r.id == id,
        r.channel_id == channel_id,
        r.message_ts == message_ts,
        r.name == name,
        r.mimetype == mimetype,
        opt_view(r.permalink) == present(match storage_url {
            Some(u) => Some(u@),
            None => opt_view(permalink),
        }),
        r.size == (match size_bytes {
            Some(v) => if v > 0 { Some(v as u64) } else { None },
            None => None,
        }),
{
    let address = match storage_url {
        Some(u) => Some(u),
        None => permalink,
    };
    let size = match size_bytes {
        Some(v) => if v > 0 { Some(v as u64) } else { None },
        None => None,
    };
    File {
        id,
        channel_id,
        message_ts,
        name,
        mimetype,
        permalink: crate::worker::non_empty(address),
        size,
    }
}

/// A message job of a backfill batch, as the batch writes it.
pub struct PreparedMessage {
    pub event_id: String,
    pub channel_id: String,
    pub channel_kind: ChannelKind,
    pub event_time: i64,
    pub received_at: i64,
    pub ts: String,
    pub root_ts: String,
    pub user_id: Option<String>,
    pub text: String,
    pub payload: EventPayload,
    pub files: Vec<SharedFile>,
}

/// A reaction job of a backfill batch, as the batch writes it.
pub struct PreparedReaction {
    pub event_id: String,
    pub channel_id: String,
    pub channel_kind: ChannelKind,
    pub event_time: i64,
    pub received_at: i64,
    pub item_ts: String,
    pub user_id: String,
    pub reaction: String,
    pub payload: EventPayload,
}

/// The message jobs of `jobs`, in order.
pub open spec fn message_jobs(jobs: Seq<ProcessEventJob>) -> Seq<ProcessEventJob>
    decreases jobs.len(),
{
    if jobs.len() == 0 {
        Seq::empty()
    } else if jobs.last().payload is Message {
        message_jobs(jobs.drop_last()).push(jobs.last())
    } else {
        message_jobs(jobs.drop_last())
    }
}

/// The reaction jobs of `jobs`, in order.
pub open spec fn reaction_jobs(jobs: Seq<ProcessEventJob>) -> Seq<ProcessEventJob>
    decreases jobs.len(),
{
    if jobs.len() == 0 {
        Seq::empty()
    } else if jobs.last().payload is ReactionAdded {
        reaction_jobs(jobs.drop_last()).push(jobs.last())
    } else {
        reaction_jobs(jobs.drop_last())
    }
}

/// `p` is message job `job` as a batch writes it.
pub open spec fn prepared_message_of(job: ProcessEventJob, p: PreparedMessage) -> bool {
    match job.payload {
        EventPayload::Message { user_id, text, ts, thread_ts, files } => {
            &&& p.event_id == job.event_id
            &&& p.channel_id == job.channel_id
            &&& p.channel_kind == job.channel_kind
            &&& p.event_time == job.event_time
            &&& p.received_at == job.received_at
            &&& p.ts == ts
            &&& p.root_ts@ == root_or_self(ts@, thread_ts)
            &&& p.user_id == user_id
            &&& p.text@ == text_or_empty(text)
            &&& p.files@ == files@
            &&& p.payload matches EventPayload::Message { user_id: u, text: t, ts: s, thread_ts: th, files: fs }
                && u == user_id && t == text && s == ts && th == thread_ts && fs@ == files@
        },
        _ => false,
    }
}

/// `p` is reaction job `job` as a batch writes it.
pub open spec fn prepared_reaction_of(job: ProcessEventJob, p: PreparedReaction) -> bool {
    match job.payload {
        EventPayload::ReactionAdded { user_id, reaction, item_ts } => {
            &&& p.event_id == job.event_id
            &&& p.channel_id == job.channel_id
            &&& p.channel_kind == job.channel_kind
            &&& p.event_time == job.event_time
            &&& p.received_at == job.received_at
            &&& p.item_ts == item_ts
            &&& p.user_id == user_id
            &&& p.reaction == reaction
            &&& p.payload == job.payload
        },
        _ => false,
    }
}

fn clone_shared_files(files: &Vec<SharedFile>) -> (r: Vec<SharedFile>)
    ensures
        r@ == files@,
{
    let mut out: Vec<SharedFile> = Vec::new();
    let mut i: usize = 0;
    while i < files.len()
        invariant
            i <= files@.len(),
            out@ == files@.take(i as int),
        decreases files@.len() - i,
    {
        out.push(files[i].clone());
        proof {
            assert(out@ =~= files@.take(i + 1));
        }
        i = i + 1;
    }
    proof {
        assert(files@.take(files@.len() as int) =~= files@);
    }
    out
}

/// The message jobs of a batch, as the batch writes them.
pub fn prepare_messages(jobs: &[ProcessEventJob]) -> (r: Vec<PreparedMessage>)
    ensures
        r@.len() == message_jobs(jobs@).len(),
        forall|k: int| 0 <= k < r@.len() ==> prepared_message_of(message_jobs(jobs@)[k], #[trigger] r@[k]),
{
    let mut out: Vec<PreparedMessage> = Vec::new();
    let mut i: usize = 0;
    proof {
        assert(jobs@.take(0) =~= Seq::<ProcessEventJob>::empty());
    }
    while i < jobs.len()
        invariant
            i <= jobs@.len(),
            out@.len() == message_jobs(jobs@.take(i as int)).len(),
            forall|k: int| 0 <= k < out@.len() ==> prepared_message_of(message_jobs(jobs@.take(i as int))[k], #[trigger] out@[k]),
        decreases jobs@.len() - i,
    {
        proof {
            assert(jobs@.take(i + 1).drop_last() =~= jobs@.take(i as int));
            assert(jobs@.take(i + 1).last() == jobs@[i as int]);
        }
        let job = &jobs[i];
        match &job.payload {
            EventPayload::Message { user_id, text, ts, thread_ts, files } => {
                let root = crate::worker::thread_root_ts(ts.as_str(), match thread_ts {
                    Some(t) => Some(t.as_str()),
                    None => None,
                });
                let p = PreparedMessage {
                    event_id: job.event_id.clone(),
                    channel_id: job.channel_id.clone(),
                    channel_kind: job.channel_kind,
                    event_time: job.event_time,
                    received_at: job.received_at,
                    ts: ts.clone(),
                    root_ts: root,
                    user_id: clone_opt_string(user_id),
                    text: text_or_default(text),
                    payload: EventPayload::Message {
                        user_id: clone_opt_string(user_id),
                        text: clone_opt_string(text),
                        ts: ts.clone(),
                        thread_ts: clone_opt_string(thread_ts),
                        files: clone_shared_files(files),
                    },
                    files: clone_shared_files(files),
                };
                let ghost before = out@;
                out.push(p);
                proof {
                    assert forall|k: int| 0 <= k < out@.len() implies prepared_message_of(message_jobs(jobs@.take(i + 1))[k], #[trigger] out@[k]) by {
                        if k < before.len() {
                            assert(out@[k] == before[k]);
                        }
                    }
                }
            },
            _ => {},
        }
        i = i + 1;
    }
    proof {
        assert(jobs@.take(jobs@.len() as int) =~= jobs@);
    }
    out
}

/// The reaction jobs of a batch, as the batch writes them.
pub fn prepare_reactions(jobs: &[ProcessEventJob]) -> (r: Vec<PreparedReaction>)
    ensures
        r@.len() == reaction_jobs(jobs@).len(),
        forall|k: int| 0 <= k < r@.len() ==> prepared_reaction_of(reaction_jobs(jobs@)[k], #[trigger] r@[k]),
{
    let mut out: Vec<PreparedReaction> = Vec::new();
    let mut i: usize = 0;
    proof {
        assert(jobs@.take(0) =~= Seq::<ProcessEventJob>::empty());
    }
    while i < jobs.len()
        invariant
            i <= jobs@.len(),
            out@.len() == reaction_jobs(jobs@.take(i as int)).len(),
            forall|k: int| 0 <= k < out@.len() ==> prepared_reaction_of(reaction_jobs(jobs@.take(i as int))[k], #[trigger] out@[k]),
        decreases jobs@.len() - i,
    {
        proof {
            assert(jobs@.take(i + 1).drop_last() =~= jobs@.take(i as int));
            assert(jobs@.take(i + 1).last() == jobs@[i as int]);
        }
        let job = &jobs[i];
        match &job.payload {
            EventPayload::ReactionAdded { user_id, reaction, item_ts } => {
                let p = PreparedReaction {
                    event_id: job.event_id.clone(),
                    channel_id: job.channel_id.clone(),
                    channel_kind: job.channel_kind,
                    event_time: job.event_time,
                    received_at: job.received_at,
                    item_ts: item_ts.clone(),
                    user_id: user_id.clone(),
                    reaction: reaction.clone(),
                    payload: EventPayload::ReactionAdded {
                        user_id: user_id.clone(),
                        reaction: reaction.clone(),
                        item_ts: item_ts.clone(),
                    },
                };
                let ghost before = out@;
                out.push(p);
                proof {
                    assert forall|k: int| 0 <= k < out@.len() implies prepared_reaction_of(reaction_jobs(jobs@.take(i + 1))[k], #[trigger] out@[k]) by {
                        if k < before.len() {
                            assert(out@[k] == before[k]);
                        }
                    }
                }
            },
            _ => {},
        }
        i = i + 1;
    }
    proof {
        assert(jobs@.take(jobs@.len() as int) =~= jobs@);
    }
    out
}

/// The event ids of a batch's prepared messages, in order.
pub fn message_event_ids(rows: &Vec<PreparedMessage>) -> (r: Vec<String>)
    ensures
        r@.len() == rows@.len(),
        forall|k: int| 0 <= k < r@.len() ==> #[trigger] r@[k] == rows@[k].event_id,
{
    let mut out: Vec<String> = Vec::new();
    let mut i: usize = 0;
    while i < rows.len()
        invariant
            i <= rows@.len(),
            out@.len() == i,
            forall|k: int| 0 <= k < i ==> #[trigger] out@[k] == rows@[k].event_id,
        decreases rows@.len() - i,
    {
        out.push(rows[i].event_id.clone());
        i = i + 1;
    }
    out
}

/// The event ids of a batch's prepared reactions, in order.
pub fn reaction_event_ids(rows: &Vec<PreparedReaction>) -> (r: Vec<String>)
    ensures
        r@.len() == rows@.len(),
        forall|k: int| 0 <= k < r@.len() ==> #[trigger] r@[k] == rows@[k].event_id,
{
    let mut out: Vec<String> = Vec::new();
    let mut i: usize = 0;
    while i < rows.len()
        invariant
            i <= rows@.len(),
            out@.len() == i,
            forall|k: int| 0 <= k < i ==> #[trigger] out@[k] == rows@[k].event_id,
        decreases rows@.len() - i,
    {
        out.push(rows[i].event_id.clone());
        i = i + 1;
    }
    out
}

fn contains_str(v: &Vec<String>, s: &str) -> (r: bool)
    ensures
        r == exists|k: int| 0 <= k < v@.len() && (#[trigger] v@[k])@ == s@,
{
    let mut i: usize = 0;
    while i < v.len()
        invariant
            i <= v@.len(),
            forall|k: int| 0 <= k < i ==> (#[trigger] v@[k])@ != s@,
        decreases v@.len() - i,
    {
        if str_eq(v[i].as_str(), s) {
            return true;
        }
        i = i + 1;
    }
    false
}

/// For each id, whether the store has not recorded it yet.
pub fn unseen_flags(ids: &Vec<String>, recorded: &Vec<String>) -> (r: Vec<bool>)
    ensures
        r@.len() == ids@.len(),
        forall|k: int| 0 <= k < r@.len() ==> #[trigger] r@[k] == !(exists|j: int| 0 <= j < recorded@.len() && (#[trigger] recorded@[j])@ == ids@[k]@),
{
    let mut out: Vec<bool> = Vec::new();
    let mut i: usize = 0;
    while i < ids.len()
        invariant
            i <= ids@.len(),
            out@.len() == i,
            forall|k: int| 0 <= k < i ==> #[trigger] out@[k] == !(exists|j: int| 0 <= j < recorded@.len() && (#[trigger] recorded@[j])@ == ids@[k]@),
        decreases ids@.len() - i,
    {
        let seen = contains_str(recorded, ids[i].as_str());
        out.push(!seen);
        i = i + 1;
    }
    out
}

/// The elements of `v` whose flag is set, in order.
pub open spec fn flagged<T>(v: Seq<T>, keep: Seq<bool>) -> Seq<T>
    decreases v.len(),
{
    if v.len() == 0 || keep.len() == 0 {
        Seq::empty()
    } else if keep[0] {
        seq![v[0]] + flagged(v.skip(1), keep.skip(1))
    } else {
        flagged(v.skip(1), keep.skip(1))
    }
}

/// Keeps the elements of `v` whose flag is set, in order.
pub fn keep_flagged<T>(v: Vec<T>, keep: &Vec<bool>) -> (r: Vec<T>)
    requires
        keep@.len() == v@.len(),
    ensures
        r@ == flagged(v@, keep@),
{
    let ghost all = v@;
    let mut rest = v;
    let mut picked: Vec<T> = Vec::new();
    let mut i: usize = rest.len();
    proof {
        assert(all.skip(i as int) =~= Seq::<T>::empty());
        assert(keep@.skip(i as int) =~= Seq::<bool>::empty());
    }
    while i > 0
        invariant
            i <= all.len(),
            keep@.len() == all.len(),
            rest@ == all.take(i as int),
            picked@ == flagged(all.skip(i as int), keep@.skip(i as int)),
        decreases i,
    {
        let ghost before = rest@;
        let x = rest.pop().unwrap();
        i = i - 1;
        proof {
            assert(before =~= rest@.push(x));
            assert(rest@ =~= all.take(i as int));
            assert(all.skip(i as int)[0] == x);
            assert(all.skip(i as int).skip(1) =~= all.skip(i + 1));
            assert(keep@.skip(i as int)[0] == keep@[i as int]);
            assert(keep@.skip(i as int).skip(1) =~= keep@.skip(i + 1));
        }
        if keep[i] {
            let ghost p = picked@;
            picked.insert(0, x);
            proof {
                assert(picked@ =~= seq![x] + p);
            }
        }
    }
    proof {
        assert(all.skip(0) =~= all);
        assert(keep@.skip(0) =~= keep@);
    }
    picked
}

/// An optional text as part of a key: nothing when absent, else marked.
pub open spec fn opt_key(o: Option<Seq<char>>) -> Seq<char> {
    match o {
        Some(t) => seq!['+'] + t,
        None => Seq::empty(),
    }
}

/// An optional size as part of a key: nothing when absent, else marked.
pub open spec fn size_key(o: Option<i64>) -> Seq<char> {
    match o {
        Some(v) => seq!['+'] + int_text(v as int),
        None => Seq::empty(),
    }
}

/// The key that tells file rows apart: every field of the row.
pub open spec fn file_row_key(v: (Seq<char>, Seq<char>, Option<Seq<char>>, Option<Seq<char>>, Option<i64>)) -> Seq<Seq<char>> {
    seq![v.0, v.1, opt_key(v.2), opt_key(v.3), size_key(v.4)]
}

proof fn lemma_opt_key_injective(a: Option<Seq<char>>, b: Option<Seq<char>>)
    requires
        opt_key(a) == opt_key(b),
    ensures
        a == b,
{
    match (a, b) {
        (Some(x), Some(y)) => {
            assert((seq!['+'] + x).skip(1) =~= x);
            assert((seq!['+'] + y).skip(1) =~= y);
        },
        (Some(x), None) => {
            assert(opt_key(a).len() > 0);
        },
        (None, Some(y)) => {
            assert(opt_key(b).len() > 0);
        },
        (None, None) => {},
    }
}

/// File rows with the same key are the same row: the key keeps every field.
pub proof fn lemma_file_row_key_injective(
    a: (Seq<char>, Seq<char>, Option<Seq<char>>, Option<Seq<char>>, Option<i64>),
    b: (Seq<char>, Seq<char>, Option<Seq<char>>, Option<Seq<char>>, Option<i64>),
)
    requires
        file_row_key(a) == file_row_key(b),
    ensures
        a == b,
{
    let ka = file_row_key(a);
    let kb = file_row_key(b);
    assert(ka[0] == kb[0] && ka[1] == kb[1] && ka[2] == kb[2] && ka[3] == kb[3] && ka[4] == kb[4]);
    lemma_opt_key_injective(a.2, b.2);
    lemma_opt_key_injective(a.3, b.3);
    match (a.4, b.4) {
        (Some(x), Some(y)) => {
            assert((seq!['+'] + int_text(x as int)).skip(1) =~= int_text(x as int));
            assert((seq!['+'] + int_text(y as int)).skip(1) =~= int_text(y as int));
            crate::text::lemma_int_text_injective(x as int, y as int);
        },
        (Some(x), None) => {
            assert(size_key(a.4).len() > 0);
        },
        (None, Some(y)) => {
            assert(size_key(b.4).len() > 0);
        },
        (None, None) => {},
    }
}

fn opt_key_chars(o: &Option<String>) -> (r: Vec<char>)
    ensures
        r@ == opt_key(opt_view(*o)),
{
    match o {
        Some(t) => {
            let mut r: Vec<char> = Vec::new();
            r.push('+');
            crate::text::extend_str(&mut r, t.as_str());
            proof {
                assert(r@ =~= seq!['+'] + t@);
            }
            r
        },
        None => Vec::new(),
    }
}

impl Keyed for FileWrite {
    open spec fn key(&self) -> Seq<Seq<char>> {
        file_row_key(file_write_view(*self))
    }

    fn key_chars(&self) -> (r: Vec<Vec<char>>) {
        let mut size: Vec<char> = Vec::new();
        match self.size_bytes {
            Some(v) => {
                size.push('+');
                push_int(&mut size, v);
                proof {
                    assert(size@ =~= seq!['+'] + int_text(v as int));
                }
            },
            None => {},
        }
        let mut r: Vec<Vec<char>> = Vec::new();
        r.push(chars_of(self.id.as_str()));
        r.push(chars_of(self.name.as_str()));
        r.push(opt_key_chars(&self.mimetype));
        r.push(opt_key_chars(&self.permalink));
        r.push(size);
        proof {
            assert(chars_view(r@) =~= self.key());
        }
        r
    }
}

/// A link from a message to a file it shares.
#[derive(Debug, PartialEq, Eq)]
pub struct AttachmentWrite {
    pub channel_id: String,
    pub message_ts: String,
    pub file_id: String,
}

impl Keyed for AttachmentWrite {
    open spec fn key(&self) -> Seq<Seq<char>> {
        seq![self.channel_id@, self.message_ts@, self.file_id@]
    }

    fn key_chars(&self) -> (r: Vec<Vec<char>>) {
        let mut r: Vec<Vec<char>> = Vec::new();
        r.push(chars_of(self.channel_id.as_str()));
        r.push(chars_of(self.message_ts.as_str()));
        r.push(chars_of(self.file_id.as_str()));
        proof {
            assert(chars_view(r@) =~= self.key());
        }
        r
    }
}

impl Keyed for String {
    open spec fn key(&self) -> Seq<Seq<char>> {
        seq![self@]
    }

    fn key_chars(&self) -> (r: Vec<Vec<char>>) {
        let mut r: Vec<Vec<char>> = Vec::new();
        r.push(chars_of(self.as_str()));
        proof {
            assert(chars_view(r@) =~= self.key());
        }
        r
    }
}

/// Some file shared by some prepared message has row key `k`.
pub open spec fn batch_has_file_key(rows: Seq<PreparedMessage>, k: Seq<Seq<char>>) -> bool {
    exists|i: int, j: int| 0 <= i < rows.len() && 0 <= j < rows[i].files@.len()
        && #[trigger] file_row_key(shared_file_row(rows[i].files@[j])) == k
}

/// Some prepared message shares a file with attachment key `k`.
pub open spec fn batch_has_attachment_key(rows: Seq<PreparedMessage>, k: Seq<Seq<char>>) -> bool {
    exists|i: int, j: int| 0 <= i < rows.len() && 0 <= j < rows[i].files@.len()
        && k == #[trigger] seq![rows[i].channel_id@, rows[i].ts@, rows[i].files@[j].id@]
}

/// The file rows of a batch's messages, each distinct row once.
pub fn distinct_file_writes(rows: &Vec<PreparedMessage>) -> (r: Vec<FileWrite>)
    ensures
        sorted_by_key(r@),
        forall|k: Seq<Seq<char>>| has_key(r@, k) <==> batch_has_file_key(rows@, k),
        forall|w: FileWrite| #[trigger] r@.contains(w) ==> exists|i: int, j: int| 0 <= i < rows@.len() && 0 <= j < rows@[i].files@.len()
            && file_write_view(w) == shared_file_row(rows@[i].files@[j]),
{
    let mut out: Vec<FileWrite> = Vec::new();
    let mut i: usize = 0;
    while i < rows.len()
        invariant
            i <= rows@.len(),
            sorted_by_key(out@),
            forall|k: Seq<Seq<char>>| has_key(out@, k) <==> batch_has_file_key(rows@.take(i as int), k),
            forall|w: FileWrite| #[trigger] out@.contains(w) ==> exists|a: int, b: int| 0 <= a < rows@.len() && 0 <= b < rows@[a].files@.len()
                && file_write_view(w) == shared_file_row(rows@[a].files@[b]),
        decreases rows@.len() - i,
    {
        let files = &rows[i].files;
        let mut j: usize = 0;
        while j < files.len()
            invariant
                i < rows@.len(),
                files == rows@[i as int].files,
                j <= files@.len(),
                sorted_by_key(out@),
                forall|k: Seq<Seq<char>>| has_key(out@, k) <==> (batch_has_file_key(rows@.take(i as int), k)
                    || exists|b: int| 0 <= b < j && #[trigger] file_row_key(shared_file_row(files@[b])) == k),
                forall|w: FileWrite| #[trigger] out@.contains(w) ==> exists|a: int, b: int| 0 <= a < rows@.len() && 0 <= b < rows@[a].files@.len()
                    && file_write_view(w) == shared_file_row(rows@[a].files@[b]),
            decreases files@.len() - j,
        {
            let w = file_write(&files[j]);
            let ghost old_out = out@;
            let ghost wv = w;
            upsert_sorted(&mut out, w);
            proof {
                assert(wv.key() == file_row_key(shared_file_row(files@[j as int])));
                assert forall|k: Seq<Seq<char>>| has_key(out@, k) <==> (batch_has_file_key(rows@.take(i as int), k)
                    || exists|b: int| 0 <= b < j + 1 && #[trigger] file_row_key(shared_file_row(files@[b])) == k) by {
                    assert(has_key(out@, k) == key_map(out@).dom().contains(k));
                    assert(has_key(old_out, k) == key_map(old_out).dom().contains(k));
                    if exists|b: int| 0 <= b < j + 1 && #[trigger] file_row_key(shared_file_row(files@[b])) == k {
                        let b = choose|b: int| 0 <= b < j + 1 && #[trigger] file_row_key(shared_file_row(files@[b])) == k;
                        if b < j {
                            assert(exists|b: int| 0 <= b < j && #[trigger] file_row_key(shared_file_row(files@[b])) == k);
                        }
                    }
                }
                assert forall|x: FileWrite| #[trigger] out@.contains(x) implies exists|a: int, b: int| 0 <= a < rows@.len() && 0 <= b < rows@[a].files@.len()
                    && file_write_view(x) == shared_file_row(rows@[a].files@[b]) by {
                    lemma_entry_of_member(out@, x);
                    if x.key() == wv.key() {
                        assert(x == wv);
                        assert(file_write_view(x) == shared_file_row(rows@[i as int].files@[j as int]));
                    } else {
                        assert(key_map(out@)[x.key()] == key_map(old_out)[x.key()]);
                        assert(key_map(old_out).dom().contains(x.key()));
                        lemma_entry_is_member(old_out, x.key());
                        assert(old_out.contains(x));
                    }
                }
            }
            j = j + 1;
        }
        proof {
            assert forall|k: Seq<Seq<char>>| has_key(out@, k) <==> batch_has_file_key(rows@.take(i + 1), k) by {
                let t = rows@.take(i + 1);
                if batch_has_file_key(t, k) {
                    let (a, b) = choose|a: int, b: int| 0 <= a < t.len() && 0 <= b < t[a].files@.len()
                        && #[trigger] file_row_key(shared_file_row(t[a].files@[b])) == k;
                    if a < i {
                        assert(rows@.take(i as int)[a] == t[a]);
                        assert(batch_has_file_key(rows@.take(i as int), k));
                    } else {
                        assert(t[a] == rows@[i as int]);
                        assert(file_row_key(shared_file_row(files@[b])) == k);
                    }
                }
                if batch_has_file_key(rows@.take(i as int), k) {
                    let (a, b) = choose|a: int, b: int| 0 <= a < rows@.take(i as int).len() && 0 <= b < rows@.take(i as int)[a].files@.len()
                        && #[trigger] file_row_key(shared_file_row(rows@.take(i as int)[a].files@[b])) == k;
                    assert(t[a] == rows@.take(i as int)[a]);
                    assert(file_row_key(shared_file_row(t[a].files@[b])) == k);
                }
                if exists|b: int| 0 <= b < files@.len() && #[trigger] file_row_key(shared_file_row(files@[b])) == k {
                    let b = choose|b: int| 0 <= b < files@.len() && #[trigger] file_row_key(shared_file_row(files@[b])) == k;
                    assert(t[i as int] == rows@[i as int]);
                    assert(file_row_key(shared_file_row(t[i as int].files@[b])) == k);
                }
            }
        }
        i = i + 1;
    }
    proof {
        assert(rows@.take(rows@.len() as int) =~= rows@);
    }
    out
}

/// The links from a batch's messages to their files, each distinct link once.
pub fn distinct_attachments(rows: &Vec<PreparedMessage>) -> (r: Vec<AttachmentWrite>)
    ensures
        sorted_by_key(r@),
        forall|k: Seq<Seq<char>>| has_key(r@, k) <==> batch_has_attachment_key(rows@, k),
{
    let mut out: Vec<AttachmentWrite> = Vec::new();
    let mut i: usize = 0;
    while i < rows.len()
        invariant
            i <= rows@.len(),
            sorted_by_key(out@),
            forall|k: Seq<Seq<char>>| has_key(out@, k) <==> batch_has_attachment_key(rows@.take(i as int), k),
        decreases rows@.len() - i,
    {
        let row = &rows[i];
        let files = &row.files;
        let mut j: usize = 0;
        while j < files.len()
            invariant
                i < rows@.len(),
                *row == rows@[i as int],
                files == rows@[i as int].files,
                j <= files@.len(),
                sorted_by_key(out@),
                forall|k: Seq<Seq<char>>| has_key(out@, k) <==> (batch_has_attachment_key(rows@.take(i as int), k)
                    || exists|b: int| 0 <= b < j && k == #[trigger] seq![row.channel_id@, row.ts@, files@[b].id@]),
            decreases files@.len() - j,
        {
            let a = AttachmentWrite { channel_id: row.channel_id.clone(), message_ts: row.ts.clone(), file_id: files[j].id.clone() };
            let ghost old_out = out@;
            let ghost av = a;
            upsert_sorted(&mut out, a);
            proof {
                assert(av.key() == seq![row.channel_id@, row.ts@, files@[j as int].id@]);
                assert forall|k: Seq<Seq<char>>| has_key(out@, k) <==> (batch_has_attachment_key(rows@.take(i as int), k)
                    || exists|b: int| 0 <= b < j + 1 && k == #[trigger] seq![row.channel_id@, row.ts@, files@[b].id@]) by {
                    assert(has_key(out@, k) == key_map(out@).dom().contains(k));
                    assert(has_key(old_out, k) == key_map(old_out).dom().contains(k));
                    if exists|b: int| 0 <= b < j + 1 && k == #[trigger] seq![row.channel_id@, row.ts@, files@[b].id@] {
                        let b = choose|b: int| 0 <= b < j + 1 && k == #[trigger] seq![row.channel_id@, row.ts@, files@[b].id@];
                        if b < j {
                            assert(exists|b: int| 0 <= b < j && k == #[trigger] seq![row.channel_id@, row.ts@, files@[b].id@]);
                        }
                    }
                }
            }
            j = j + 1;
        }
        proof {
            assert forall|k: Seq<Seq<char>>| has_key(out@, k) <==> batch_has_attachment_key(rows@.take(i + 1), k) by {
                let t = rows@.take(i + 1);
                if batch_has_attachment_key(t, k) {
                    let (a, b) = choose|a: int, b: int| 0 <= a < t.len() && 0 <= b < t[a].files@.len()
                        && k == #[trigger] seq![t[a].channel_id@, t[a].ts@, t[a].files@[b].id@];
                    if a < i {
                        assert(rows@.take(i as int)[a] == t[a]);
                        assert(batch_has_attachment_key(rows@.take(i as int), k));
                    } else {
                        assert(t[a] == rows@[i as int]);
                        assert(k == seq![row.channel_id@, row.ts@, files@[b].id@]);
                    }
                }
                if batch_has_attachment_key(rows@.take(i as int), k) {
                    let (a, b) = choose|a: int, b: int| 0 <= a < rows@.take(i as int).len() && 0 <= b < rows@.take(i as int)[a].files@.len()
                        && k == #[trigger] seq![rows@.take(i as int)[a].channel_id@, rows@.take(i as int)[a].ts@, rows@.take(i as int)[a].files@[b].id@];
                    assert(t[a] == rows@.take(i as int)[a]);
                    assert(k == seq![t[a].channel_id@, t[a].ts@, t[a].files@[b].id@]);
                }
                if exists|b: int| 0 <= b < files@.len() && k == #[trigger] seq![row.channel_id@, row.ts@, files@[b].id@] {
                    let b = choose|b: int| 0 <= b < files@.len() && k == #[trigger] seq![row.channel_id@, row.ts@, files@[b].id@];
                    assert(t[i as int] == rows@[i as int]);
                    assert(k == seq![t[i as int].channel_id@, t[i as int].ts@, t[i as int].files@[b].id@]);
                }
            }
        }
        i = i + 1;
    }
    proof {
        assert(rows@.take(rows@.len() as int) =~= rows@);
    }
    out
}

/// The text of some element of `v` is `t`.
pub open spec fn has_text(v: Seq<String>, t: Seq<char>) -> bool {
    exists|i: int| 0 <= i < v.len() && (#[trigger] v[i])@ == t
}

fn add_texts(out: &mut Vec<String>, v: &Vec<String>)
    requires
        sorted_by_key(old(out)@),
        forall|k: Seq<Seq<char>>| has_key(old(out)@, k) ==> k.len() == 1,
    ensures
        sorted_by_key(final(out)@),
        forall|k: Seq<Seq<char>>| has_key(final(out)@, k) ==> k.len() == 1,
        forall|t: Seq<char>| #[trigger] has_key(final(out)@, seq![t]) <==> (has_key(old(out)@, seq![t]) || has_text(v@, t)),
{
    let ghost start = out@;
    let mut i: usize = 0;
    while i < v.len()
        invariant
            i <= v@.len(),
            sorted_by_key(out@),
            forall|k: Seq<Seq<char>>| has_key(out@, k) ==> k.len() == 1,
            forall|t: Seq<char>| has_key(out@, seq![t]) <==> (has_key(start, seq![t])
                || exists|a: int| 0 <= a < i && (#[trigger] v@[a])@ == t),
        decreases v@.len() - i,
    {
        let x = v[i].clone();
        let ghost old_out = out@;
        let ghost xv = x;
        upsert_sorted(out, x);
        proof {
            assert forall|t: Seq<char>| has_key(out@, seq![t]) <==> (has_key(start, seq![t])
                || exists|a: int| 0 <= a < i + 1 && (#[trigger] v@[a])@ == t) by {
                assert(has_key(out@, seq![t]) == key_map(out@).dom().contains(seq![t]));
                assert(has_key(old_out, seq![t]) == key_map(old_out).dom().contains(seq![t]));
                if seq![t] == xv.key() {
                    assert(seq![t][0] == xv@);
                    assert(v@[i as int]@ == t);
                }
                if v@[i as int]@ == t {
                    assert(xv.key() == seq![t]);
                }
                if exists|a: int| 0 <= a < i + 1 && (#[trigger] v@[a])@ == t {
                    let a = choose|a: int| 0 <= a < i + 1 && (#[trigger] v@[a])@ == t;
                    if a < i {
                        assert(exists|a: int| 0 <= a < i && (#[trigger] v@[a])@ == t);
                    }
                }
            }
            assert forall|k: Seq<Seq<char>>| has_key(out@, k) implies k.len() == 1 by {
                assert(has_key(out@, k) == key_map(out@).dom().contains(k));
                assert(has_key(old_out, k) == key_map(old_out).dom().contains(k));
            }
        }
        i = i + 1;
    }
}

/// The threads a batch touched: the roots of its messages and of the messages
/// its reactions are on, each once, in order.
pub fn touched_roots(message_roots: &Vec<String>, reaction_roots: &Vec<String>) -> (r: Vec<String>)
    ensures
        forall|i: int, j: int| 0 <= i < j < r@.len() ==> crate::ordered::str_lt((#[trigger] r@[i])@, (#[trigger] r@[j])@),
        forall|t: Seq<char>| has_text(r@, t) <==> (has_text(message_roots@, t) || has_text(reaction_roots@, t)),
{
    let mut out: Vec<String> = Vec::new();
    add_texts(&mut out, message_roots);
    let ghost mid = out@;
    add_texts(&mut out, reaction_roots);
    proof {
        assert forall|a: int, b: int| 0 <= a < b < out@.len() implies crate::ordered::str_lt((#[trigger] out@[a])@, (#[trigger] out@[b])@) by {
            assert(crate::ordered::key_lt(out@[a].key(), out@[b].key()));
            crate::ordered::lemma_key_lt_singletons(out@[a]@, out@[b]@);
        }
        assert forall|t: Seq<char>| has_text(out@, t) <==> (has_text(message_roots@, t) || has_text(reaction_roots@, t)) by {
            assert(!has_key(Seq::<String>::empty(), seq![t]));
            assert(has_key(mid, seq![t]) <==> has_text(message_roots@, t));
            assert(has_key(out@, seq![t]) <==> (has_key(mid, seq![t]) || has_text(reaction_roots@, t)));
            if has_text(out@, t) {
                let k = choose|k: int| 0 <= k < out@.len() && (#[trigger] out@[k])@ == t;
                assert(out@[k].key() == seq![t]);
                assert(has_key(out@, seq![t]));
            }
            if has_key(out@, seq![t]) {
                let k = choose|k: int| 0 <= k < out@.len() && #[trigger] out@[k].key() == seq![t];
                assert(out@[k].key()[0] == out@[k]@);
                assert(out@[k]@ == t);
                assert(has_text(out@, t));
            }
        }
    }
    out
}

/// The channel of a batch: that of its first new message, else of its first
/// new reaction.
pub fn batch_channel(messages: &Vec<PreparedMessage>, reactions: &Vec<PreparedReaction>) -> (r: Option<String>)
    ensures
        r == (if messages@.len() > 0 {
            Some(messages@[0].channel_id)
        } else if reactions@.len() > 0 {
            Some(reactions@[0].channel_id)
        } else {
            None
        }),
{
    if messages.len() > 0 {
        Some(messages[0].channel_id.clone())
    } else if reactions.len() > 0 {
        Some(reactions[0].channel_id.clone())
    } else {
        None
    }
}

} // verus!
