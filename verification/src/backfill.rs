//! Backfill: turning pages of Slack history into process-event jobs, and the
//! bookkeeping of a backfill run.
use vstd::prelude::*;
use crate::domain::{clone_opt_string, kind_of_channel_id, ChannelKind, EventPayload, File, ProcessEventJob, SharedFile};
use crate::ordered::{chars_view, find_by_key, key_map, sorted_by_key, upsert_sorted, Keyed};
use crate::store::BackfillBatchStats;
use crate::summary_text::present;
use crate::text::{chars_of, extend_str, int_text, push_int, str_eq, string_of, trimmed};
use crate::thread_summary::opt_view;
use crate::ts::{event_time, parse_event_time};

verus! {

/// A channel as Slack lists it.
#[derive(Debug, PartialEq, Eq)]
pub struct SlackConversation {
    pub id: String,
    pub name: Option<String>,
    pub is_archived: Option<bool>,
}

impl Clone for SlackConversation {
    fn clone(&self) -> (r: Self)
        ensures
            r == *self,
    {
        SlackConversation { id: self.id.clone(), name: clone_opt_string(&self.name), is_archived: self.is_archived }
    }
}

/// A file attached to a message of Slack history.
#[derive(Debug, PartialEq, Eq)]
pub struct SlackHistoryFile {
    pub id: String,
    pub name: Option<String>,
    pub mimetype: Option<String>,
    pub permalink: Option<String>,
    pub size: Option<u64>,
    pub url_private_download: Option<String>,
    pub url_private: Option<String>,
}

impl Clone for SlackHistoryFile {
    fn clone(&self) -> (r: Self)
        ensures
            r == *self,
    {
        SlackHistoryFile {
            id: self.id.clone(),
            name: clone_opt_string(&self.name),
            mimetype: clone_opt_string(&self.mimetype),
            permalink: clone_opt_string(&self.permalink),
            size: self.size,
            url_private_download: clone_opt_string(&self.url_private_download),
            url_private: clone_opt_string(&self.url_private),
        }
    }
}

/// A reaction on a message of Slack history, with the users who gave it.
#[derive(Debug, PartialEq, Eq)]
pub struct SlackHistoryReaction {
    pub name: String,
    pub users: Vec<String>,
}

/// A message of Slack history.
#[derive(Debug, PartialEq, Eq)]
pub struct SlackHistoryMessage {
    pub ts: String,
    pub user: Option<String>,
    pub text: Option<String>,
    pub thread_ts: Option<String>,
    pub reply_count: Option<u64>,
    pub reactions: Vec<SlackHistoryReaction>,
    pub files: Vec<SlackHistoryFile>,
}

/// The channel of `channels` with id `channel_id`, the first one if several.
pub open spec fn channel_with_id(channels: Seq<SlackConversation>, id: Seq<char>) -> Option<SlackConversation>
    decreases channels.len(),
{
    if channels.len() == 0 {
        None
    } else if channels[0].id@ == id {
        Some(channels[0])
    } else {
        channel_with_id(channels.skip(1), id)
    }
}

pub fn resolve_channel(channel_id: &str, channels: &[SlackConversation]) -> (r: Option<SlackConversation>)
    ensures
        r == channel_with_id(channels@, channel_id@),
{
    let mut i: usize = 0;
    proof {
        assert(channels@.skip(0) =~= channels@);
    }
    while i < channels.len()
        invariant
            i <= channels@.len(),
            channel_with_id(channels@, channel_id@) == channel_with_id(channels@.skip(i as int), channel_id@),
        decreases channels@.len() - i,
    {
        proof {
            assert(channels@.skip(i as int)[0] == channels@[i as int]);
            assert(channels@.skip(i as int).skip(1) =~= channels@.skip(i + 1));
        }
        if str_eq(channels[i].id.as_str(), channel_id) {
            return Some(channels[i].clone());
        }
        i = i + 1;
    }
    None
}

/// The event id of the metadata job of a backfilled channel.
pub open spec fn channel_job_id(channel_id: Seq<char>, event_time: i64) -> Seq<char> {
    "backfill:channel:"@ + channel_id + ":metadata:"@ + int_text(event_time as int)
}

/// `build_channel_job`: a channel-update job of workspace `team` carrying the
/// channel's trimmed name and its archive flag, made only when there is a name
/// or the channel is archived.
pub open spec fn channel_job_holds(
    r: Option<ProcessEventJob>,
    channel_id: Seq<char>,
    channel: Option<SlackConversation>,
    event_time: i64,
    team: Seq<char>,
) -> bool {
    let name = match channel {
        Some(c) => present(opt_view(c.name)),
        None => None,
    };
    let archived = match channel {
        Some(c) => match c.is_archived {
            Some(a) => a,
            None => false,
        },
        None => false,
    };
    if name is None && !archived {
        r is None
    } else {
        match r {
            Some(job) => {
                &&& job.event_id@ == channel_job_id(channel_id, event_time)
                &&& job.team_id@ == team
                &&& job.event_time == event_time
                &&& job.received_at == event_time
                &&& job.channel_id@ == channel_id
                &&& job.channel_kind == kind_of_channel_id(channel_id)
                &&& job.payload matches EventPayload::ChannelUpdated { name: n, is_archived: a }
                    && opt_view(n) == name && a == Some(archived)
            },
            None => false,
        }
    }
}

fn present_string(o: &Option<String>) -> (r: Option<String>)
    ensures
        opt_view(r) == present(opt_view(*o)),
{
    match o {
        Some(v) => {
            let t = trimmed(v.as_str());
            if t.len() > 0 {
                Some(string_of(&t))
            } else {
                None
            }
        },
        None => None,
    }
}

pub fn build_channel_job(channel_id: &str, channel: Option<&SlackConversation>, event_time: i64, team_id: &str) -> (r: Option<ProcessEventJob>)
    ensures
        channel_job_holds(
            r,
            channel_id@,
            match channel {
                Some(c) => Some(*c),
                None => None,
            },
            event_time,
            team_id@,
        ),
{
    let name = match channel {
        Some(c) => present_string(&c.name),
        None => None,
    };
    let archived = match channel {
        Some(c) => match c.is_archived {
            Some(a) => a,
            None => false,
        },
        None => false,
    };
    if name.is_none() && !archived {
        return None;
    }
    let mut id: Vec<char> = Vec::new();
    extend_str(&mut id, "backfill:channel:");
    extend_str(&mut id, channel_id);
    extend_str(&mut id, ":metadata:");
    push_int(&mut id, event_time);
    Some(ProcessEventJob {
        event_id: string_of(&id),
        team_id: team_id.to_owned(),
        event_time,
        received_at: event_time,
        channel_id: channel_id.to_owned(),
        channel_kind: ChannelKind::from_channel_id(channel_id),
        payload: EventPayload::ChannelUpdated { name, is_archived: Some(archived) },
    })
}

/// The shared file made of a history file: its name trimmed, or its id when
/// it has no usable name.
pub open spec fn shared_file_of(f: SlackHistoryFile, s: SharedFile) -> bool {
    &&& s.id == f.id
    &&& s.name@ == (match present(opt_view(f.name)) {
        Some(n) => n,
        None => f.id@,
    })
    &&& s.mimetype == f.mimetype
    &&& s.permalink == f.permalink
    &&& s.size == f.size
}

/// The job of one backfilled message of channel `ch` of workspace `team`.
pub open spec fn message_job_of(team: Seq<char>, ch: Seq<char>, m: SlackHistoryMessage, received_at: i64, job: ProcessEventJob) -> bool {
    &&& job.event_id@ == "backfill:"@ + ch + ":"@ + m.ts@
    &&& job.team_id@ == team
    &&& job.event_time == event_time(m.ts@)
    &&& job.received_at == received_at
    &&& job.channel_id@ == ch
    &&& job.channel_kind == kind_of_channel_id(ch)
    &&& job.payload matches EventPayload::Message { user_id, text, ts, thread_ts, files }
        && user_id == m.user
        && text == m.text
        && ts == m.ts
        && thread_ts == (match m.thread_ts {
            Some(t) => if t@ == m.ts@ { None } else { Some(t) },
            None => None,
        })
        && files@.len() == m.files@.len()
        && forall|i: int| 0 <= i < files@.len() ==> shared_file_of(m.files@[i], #[trigger] files@[i])
}

/// The reactions of a message as (reaction name, user) pairs: each reaction
/// once per user, in order.
pub open spec fn reaction_pairs(rs: Seq<SlackHistoryReaction>) -> Seq<(Seq<char>, Seq<char>)>
    decreases rs.len(),
{
    if rs.len() == 0 {
        Seq::empty()
    } else {
        reaction_pairs(rs.drop_last()) + rs.last().users@.map_values(|u: String| (rs.last().name@, u@))
    }
}

/// The reactions of the backfilled messages as (message ts, reaction name,
/// user) triples, message by message.
pub open spec fn reaction_triples(msgs: Seq<SlackHistoryMessage>) -> Seq<(Seq<char>, Seq<char>, Seq<char>)>
    decreases msgs.len(),
{
    if msgs.len() == 0 {
        Seq::empty()
    } else {
        let m = msgs.last();
        reaction_triples(msgs.drop_last()) + reaction_pairs(m.reactions@).map_values(
            |p: (Seq<char>, Seq<char>)| (m.ts@, p.0, p.1),
        )
    }
}

/// The job of one backfilled reaction of channel `ch`.
pub open spec fn reaction_job_of(team: Seq<char>, ch: Seq<char>, t: (Seq<char>, Seq<char>, Seq<char>), received_at: i64, job: ProcessEventJob) -> bool {
    &&& job.event_id@ == "backfill:"@ + ch + ":"@ + t.0 + ":reaction:"@ + t.1 + ":"@ + t.2
    &&& job.team_id@ == team
    &&& job.event_time == event_time(t.0)
    &&& job.received_at == received_at
    &&& job.channel_id@ == ch
    &&& job.channel_kind == kind_of_channel_id(ch)
    &&& job.payload matches EventPayload::ReactionAdded { user_id, reaction, item_ts }
        && user_id@ == t.2
        && reaction@ == t.1
        && item_ts@ == t.0
}

fn clone_history_files(files: &Vec<SlackHistoryFile>) -> (r: Vec<SharedFile>)
    ensures
        r@.len() == files@.len(),
        forall|i: int| 0 <= i < r@.len() ==> shared_file_of(files@[i], #[trigger] r@[i]),
{
    let mut out: Vec<SharedFile> = Vec::new();
    let mut i: usize = 0;
    while i < files.len()
        invariant
            i <= files.len(),
            out@.len() == i,
            forall|j: int| 0 <= j < i ==> shared_file_of(files@[j], #[trigger] out@[j]),
        decreases files.len() - i,
    {
        let f = &files[i];
        let name = match present_string(&f.name) {
            Some(n) => n,
            None => f.id.clone(),
        };
        out.push(SharedFile {
            id: f.id.clone(),
            name,
            mimetype: clone_opt_string(&f.mimetype),
            permalink: clone_opt_string(&f.permalink),
            size: f.size,
        });
        i = i + 1;
    }
    out
}

fn message_job(channel_id: &str, m: &SlackHistoryMessage, received_at: i64, team_id: &str) -> (r: ProcessEventJob)
    ensures
        message_job_of(team_id@, channel_id@, *m, received_at, r),
{
    let mut id: Vec<char> = Vec::new();
    extend_str(&mut id, "backfill:");
    extend_str(&mut id, channel_id);
    extend_str(&mut id, ":");
    extend_str(&mut id, m.ts.as_str());
    let thread_ts = match &m.thread_ts {
        Some(t) => if str_eq(t.as_str(), m.ts.as_str()) { None } else { Some(t.clone()) },
        None => None,
    };
    let files = clone_history_files(&m.files);
    ProcessEventJob {
        event_id: string_of(&id),
        team_id: team_id.to_owned(),
        event_time: parse_event_time(m.ts.as_str()),
        received_at,
        channel_id: channel_id.to_owned(),
        channel_kind: ChannelKind::from_channel_id(channel_id),
        payload: EventPayload::Message {
            user_id: clone_opt_string(&m.user),
            text: clone_opt_string(&m.text),
            ts: m.ts.clone(),
            thread_ts,
            files,
        },
    }
}

fn reaction_job(channel_id: &str, ts: &String, name: &String, user: &String, received_at: i64, team_id: &str) -> (r: ProcessEventJob)
    ensures
        reaction_job_of(team_id@, channel_id@, (ts@, name@, user@), received_at, r),
{
    let mut id: Vec<char> = Vec::new();
    extend_str(&mut id, "backfill:");
    extend_str(&mut id, channel_id);
    extend_str(&mut id, ":");
    extend_str(&mut id, ts.as_str());
    extend_str(&mut id, ":reaction:");
    extend_str(&mut id, name.as_str());
    extend_str(&mut id, ":");
    extend_str(&mut id, user.as_str());
    ProcessEventJob {
        event_id: string_of(&id),
        team_id: team_id.to_owned(),
        event_time: parse_event_time(ts.as_str()),
        received_at,
        channel_id: channel_id.to_owned(),
        channel_kind: ChannelKind::from_channel_id(channel_id),
        payload: EventPayload::ReactionAdded { user_id: user.clone(), reaction: name.clone(), item_ts: ts.clone() },
    }
}

/// The jobs of a page of backfilled history: one message job per message,
/// in order, and one reaction job per reaction and user, message by message.
/// Every job is stamped `received_at` and belongs to workspace `team_id`.
pub fn build_backfill_jobs(channel_id: &str, messages: &[SlackHistoryMessage], received_at: i64, team_id: &str) -> (r: (Vec<ProcessEventJob>, Vec<ProcessEventJob>))
    ensures
        r.0@.len() == messages@.len(),
        forall|i: int| 0 <= i < r.0@.len() ==> message_job_of(team_id@, channel_id@, messages@[i], received_at, #[trigger] r.0@[i]),
        r.1@.len() == reaction_triples(messages@).len(),
        forall|i: int| 0 <= i < r.1@.len() ==> reaction_job_of(team_id@, channel_id@, reaction_triples(messages@)[i], received_at, #[trigger] r.1@[i]),
{
    let mut message_jobs: Vec<ProcessEventJob> = Vec::new();
    let mut reaction_jobs: Vec<ProcessEventJob> = Vec::new();
    let mut i: usize = 0;
    proof {
        assert(messages@.take(0) =~= Seq::<SlackHistoryMessage>::empty());
    }
    while i < messages.len()
        invariant
            i <= messages@.len(),
            message_jobs@.len() == i,
            forall|k: int| 0 <= k < i ==> message_job_of(team_id@, channel_id@, messages@[k], received_at, #[trigger] message_jobs@[k]),
            reaction_jobs@.len() == reaction_triples(messages@.take(i as int)).len(),
            forall|k: int| 0 <= k < reaction_jobs@.len() ==> reaction_job_of(
                team_id@,
                channel_id@,
                reaction_triples(messages@.take(i as int))[k],
                received_at,
                #[trigger] reaction_jobs@[k],
            ),
        decreases messages@.len() - i,
    {
        let m = &messages[i];
        message_jobs.push(message_job(channel_id, m, received_at, team_id));
        let ghost base = reaction_triples(messages@.take(i as int));
        let ghost jobs0 = reaction_jobs@;
        let mut a: usize = 0;
        proof {
            assert(m.reactions@.take(0) =~= Seq::<SlackHistoryReaction>::empty());
        }
        while a < m.reactions.len()
            invariant
                a <= m.reactions@.len(),
                reaction_jobs@.len() == base.len() + reaction_pairs(m.reactions@.take(a as int)).len(),
                reaction_jobs@.take(base.len() as int) == jobs0,
                jobs0.len() == base.len(),
                forall|k: int| 0 <= k < base.len() ==> reaction_job_of(team_id@, channel_id@, base[k], received_at, #[trigger] jobs0[k]),
                forall|k: int| 0 <= k < reaction_pairs(m.reactions@.take(a as int)).len() ==> reaction_job_of(
                    team_id@,
                    channel_id@,
                    (m.ts@, reaction_pairs(m.reactions@.take(a as int))[k].0, reaction_pairs(m.reactions@.take(a as int))[k].1),
                    received_at,
                    #[trigger] reaction_jobs@[base.len() + k],
                ),
            decreases m.reactions@.len() - a,
        {
            let rx = &m.reactions[a];
            let ghost pairs0 = reaction_pairs(m.reactions@.take(a as int));
            let ghost len0 = reaction_jobs@.len();
            proof {
                assert(m.reactions@.take(a + 1).drop_last() =~= m.reactions@.take(a as int));
                assert(m.reactions@.take(a + 1).last() == *rx);
            }
            let mut u: usize = 0;
            while u < rx.users.len()
                invariant
                    u <= rx.users@.len(),
                    len0 == base.len() + pairs0.len(),
                    reaction_jobs@.len() == len0 + u,
                    reaction_jobs@.take(base.len() as int) == jobs0,
                    forall|k: int| 0 <= k < pairs0.len() ==> reaction_job_of(
                        team_id@,
                        channel_id@,
                        (m.ts@, pairs0[k].0, pairs0[k].1),
                        received_at,
                        #[trigger] reaction_jobs@[base.len() + k],
                    ),
                    forall|k: int| 0 <= k < u ==> reaction_job_of(
                        team_id@,
                        channel_id@,
                        (m.ts@, rx.name@, rx.users@[k]@),
                        received_at,
                        #[trigger] reaction_jobs@[len0 + k],
                    ),
                decreases rx.users@.len() - u,
            {
                let job = reaction_job(channel_id, &m.ts, &rx.name, &rx.users[u], received_at, team_id);
                let ghost before = reaction_jobs@;
                reaction_jobs.push(job);
                proof {
                    assert(reaction_jobs@.take(base.len() as int) =~= before.take(base.len() as int));
                }
                u = u + 1;
            }
            proof {
                let pairs1 = reaction_pairs(m.reactions@.take(a + 1));
                let extra = rx.users@.map_values(|x: String| (rx.name@, x@));
                assert(pairs1 =~= pairs0 + extra);
                assert forall|k: int| 0 <= k < pairs1.len() implies reaction_job_of(
                    team_id@,
                    channel_id@,
                    (m.ts@, pairs1[k].0, pairs1[k].1),
                    received_at,
                    #[trigger] reaction_jobs@[base.len() + k],
                ) by {
                    if k >= pairs0.len() {
                        assert(pairs1[k] == extra[k - pairs0.len()]);
                        assert(reaction_jobs@[base.len() + k] == reaction_jobs@[len0 + (k - pairs0.len())]);
                    }
                }
            }
            a = a + 1;
        }
        proof {
            assert(m.reactions@.take(m.reactions@.len() as int) =~= m.reactions@);
            assert(messages@.take(i + 1).drop_last() =~= messages@.take(i as int));
            assert(messages@.take(i + 1).last() == *m);
            let t1 = reaction_triples(messages@.take(i + 1));
            let pm = reaction_pairs(m.reactions@).map_values(|p: (Seq<char>, Seq<char>)| (m.ts@, p.0, p.1));
            assert(t1 =~= base + pm);
            assert forall|k: int| 0 <= k < reaction_jobs@.len() implies reaction_job_of(
                team_id@,
                channel_id@,
                t1[k],
                received_at,
                #[trigger] reaction_jobs@[k],
            ) by {
                if k < base.len() {
                    assert(reaction_jobs@[k] == reaction_jobs@.take(base.len() as int)[k]);
                } else {
                    assert(t1[k] == pm[k - base.len()]);
                    assert(reaction_jobs@[k] == reaction_jobs@[base.len() + (k - base.len())]);
                }
            }
        }
        i = i + 1;
    }
    proof {
        assert(messages@.take(messages@.len() as int) =~= messages@);
    }
    (message_jobs, reaction_jobs)
}

/// The running counts of a backfill run.
#[derive(Debug, Clone, Copy, PartialEq, Eq)]
pub struct BackfillTotals {
    pub messages_inserted: usize,
    pub messages_duplicate: usize,
    pub reactions_inserted: usize,
    pub reactions_duplicate: usize,
    pub files_seen: usize,
    pub files_archived: usize,
}

impl BackfillTotals {
    pub fn new() -> (r: BackfillTotals)
        ensures
            r.messages_inserted == 0 && r.messages_duplicate == 0 && r.reactions_inserted == 0
                && r.reactions_duplicate == 0 && r.files_seen == 0 && r.files_archived == 0,
    {
        BackfillTotals {
            messages_inserted: 0,
            messages_duplicate: 0,
            reactions_inserted: 0,
            reactions_duplicate: 0,
            files_seen: 0,
            files_archived: 0,
        }
    }
}

/// Adds what a batch did to the run's counts.
pub fn apply_batch_stats(totals: &mut BackfillTotals, stats: BackfillBatchStats)
    requires
        old(totals).messages_inserted + stats.messages_inserted <= usize::MAX,
        old(totals).messages_duplicate + stats.messages_duplicate <= usize::MAX,
        old(totals).reactions_inserted + stats.reactions_inserted <= usize::MAX,
        old(totals).reactions_duplicate + stats.reactions_duplicate <= usize::MAX,
    ensures
        final(totals).messages_inserted == old(totals).messages_inserted + stats.messages_inserted,
        final(totals).messages_duplicate == old(totals).messages_duplicate + stats.messages_duplicate,
        final(totals).reactions_inserted == old(totals).reactions_inserted + stats.reactions_inserted,
        final(totals).reactions_duplicate == old(totals).reactions_duplicate + stats.reactions_duplicate,
        final(totals).files_seen == old(totals).files_seen,
        final(totals).files_archived == old(totals).files_archived,
{
    totals.messages_inserted = totals.messages_inserted + stats.messages_inserted;
    totals.messages_duplicate = totals.messages_duplicate + stats.messages_duplicate;
    totals.reactions_inserted = totals.reactions_inserted + stats.reactions_inserted;
    totals.reactions_duplicate = totals.reactions_duplicate + stats.reactions_duplicate;
}

/// A message whose replies are fetched: it has replies and starts its thread.
pub open spec fn fetches_replies(m: SlackHistoryMessage) -> bool {
    &&& m.reply_count matches Some(n) && n > 0
    &&& match m.thread_ts {
        Some(t) => t@ == m.ts@,
        None => true,
    }
}

pub fn should_fetch_thread_replies(message: &SlackHistoryMessage) -> (r: bool)
    ensures
        r == fetches_replies(*message),
{
    let has_replies = match message.reply_count {
        Some(n) => n > 0,
        None => false,
    };
    if !has_replies {
        return false;
    }
    match &message.thread_ts {
        Some(t) => str_eq(t.as_str(), message.ts.as_str()),
        None => true,
    }
}

/// Whether a history page is asked to include the oldest timestamp itself: in
/// resume mode, on the first page, when there is a starting point.
pub fn include_oldest(resume_from_last_message_ts: bool, cursor: Option<&str>, oldest_ts: Option<&str>) -> (r: bool)
    ensures
        r == (resume_from_last_message_ts && cursor is None && oldest_ts is Some),
{
    resume_from_last_message_ts && cursor.is_none() && oldest_ts.is_some()
}

/// The cursor of the next page: the one Slack returned, unless blank.
pub fn next_page_cursor(cursor: Option<String>) -> (r: Option<String>)
    ensures
        match cursor {
            Some(c) => if crate::text::trim(c@).len() > 0 { r == Some(c) } else { r is None },
            None => r is None,
        },
{
    match cursor {
        Some(c) => {
            let t = trimmed(c.as_str());
            if t.len() > 0 {
                Some(c)
            } else {
                None
            }
        },
        None => None,
    }
}

/// The messages of `msgs` that are not the root `root_ts`, in order.
pub open spec fn without_root(msgs: Seq<SlackHistoryMessage>, root_ts: Seq<char>) -> Seq<SlackHistoryMessage>
    decreases msgs.len(),
{
    if msgs.len() == 0 {
        Seq::empty()
    } else if msgs.last().ts@ == root_ts {
        without_root(msgs.drop_last(), root_ts)
    } else {
        without_root(msgs.drop_last(), root_ts).push(msgs.last())
    }
}

/// A page of thread replies without the thread's root.
pub fn replies_without_root(batch: Vec<SlackHistoryMessage>, root_ts: &str) -> (r: Vec<SlackHistoryMessage>)
    ensures
        r@ == without_root(batch@, root_ts@),
{
    let ghost all = batch@;
    let mut rest = batch;
    let mut kept_rev: Vec<SlackHistoryMessage> = Vec::new();
    let mut n: usize = rest.len();
    while n > 0
        invariant
            n <= all.len(),
            rest@ == all.take(n as int),
            kept_rev@.len() <= all.len() - n,
            forall|k: int| 0 <= k < kept_rev@.len() ==> kept_rev@[k] == without_root_tail(all, n as int, root_ts@)[kept_rev@.len() - 1 - k],
            kept_rev@.len() == without_root_tail(all, n as int, root_ts@).len(),
        decreases n,
    {
        let ghost before = rest@;
        let m = rest.pop().unwrap();
        n = n - 1;
        proof {
            assert(before =~= rest@.push(m));
            assert(rest@ =~= all.take(n as int));
            lemma_without_root_tail_step(all, n as int, root_ts@);
        }
        if !str_eq(m.ts.as_str(), root_ts) {
            kept_rev.push(m);
        }
    }
    let mut out: Vec<SlackHistoryMessage> = Vec::new();
    let ghost full = without_root_tail(all, 0, root_ts@);
    while kept_rev.len() > 0
        invariant
            kept_rev@.len() + out@.len() == full.len(),
            forall|k: int| 0 <= k < kept_rev@.len() ==> kept_rev@[k] == full[full.len() - 1 - k],
            out@ == full.take(out@.len() as int),
        decreases kept_rev@.len(),
    {
        let ghost kr = kept_rev@;
        let x = kept_rev.pop().unwrap();
        proof {
            assert(kr =~= kept_rev@.push(x));
            assert(x == full[out@.len() as int]);
        }
        let ghost o = out@;
        out.push(x);
        proof {
            assert(out@ =~= full.take(out@.len() as int));
        }
    }
    proof {
        assert(full.take(full.len() as int) =~= full);
        lemma_without_root_tail_zero(all, root_ts@);
    }
    out
}

/// `without_root` of the suffix of `msgs` from position `n`.
pub open spec fn without_root_tail(msgs: Seq<SlackHistoryMessage>, n: int, root_ts: Seq<char>) -> Seq<SlackHistoryMessage>
    decreases msgs.len() - n,
{
    if n >= msgs.len() || n < 0 {
        Seq::empty()
    } else if msgs[n].ts@ == root_ts {
        without_root_tail(msgs, n + 1, root_ts)
    } else {
        seq![msgs[n]] + without_root_tail(msgs, n + 1, root_ts)
    }
}

proof fn lemma_without_root_tail_step(msgs: Seq<SlackHistoryMessage>, n: int, root_ts: Seq<char>)
    requires
        0 <= n < msgs.len(),
    ensures
        without_root_tail(msgs, n, root_ts) == if msgs[n].ts@ == root_ts {
            without_root_tail(msgs, n + 1, root_ts)
        } else {
            seq![msgs[n]] + without_root_tail(msgs, n + 1, root_ts)
        },
{
}

proof fn lemma_without_root_tail_split(msgs: Seq<SlackHistoryMessage>, n: int, root_ts: Seq<char>)
    requires
        0 <= n <= msgs.len(),
    ensures
        without_root_tail(msgs, 0, root_ts) == without_root(msgs.take(n), root_ts) + without_root_tail(msgs, n, root_ts),
    decreases n,
{
    if n == 0 {
        assert(msgs.take(0) =~= Seq::<SlackHistoryMessage>::empty());
        assert(without_root(msgs.take(0), root_ts) + without_root_tail(msgs, 0, root_ts) =~= without_root_tail(msgs, 0, root_ts));
    } else {
        lemma_without_root_tail_split(msgs, n - 1, root_ts);
        assert(msgs.take(n).drop_last() =~= msgs.take(n - 1));
        assert(msgs.take(n).last() == msgs[n - 1]);
        lemma_without_root_tail_step(msgs, n - 1, root_ts);
        if msgs[n - 1].ts@ == root_ts {
        } else {
            assert(without_root(msgs.take(n - 1), root_ts) + (seq![msgs[n - 1]] + without_root_tail(msgs, n, root_ts))
                =~= without_root(msgs.take(n - 1), root_ts).push(msgs[n - 1]) + without_root_tail(msgs, n, root_ts));
        }
    }
}

proof fn lemma_without_root_tail_zero(msgs: Seq<SlackHistoryMessage>, root_ts: Seq<char>)
    ensures
        without_root_tail(msgs, 0, root_ts) == without_root(msgs, root_ts),
{
    lemma_without_root_tail_split(msgs, msgs.len() as int, root_ts);
    assert(msgs.take(msgs.len() as int) =~= msgs);
    assert(without_root(msgs, root_ts) + without_root_tail(msgs, msgs.len() as int, root_ts) =~= without_root(msgs, root_ts));
}

/// The profile part of a Slack user.
#[derive(Debug, PartialEq, Eq)]
pub struct SlackUserProfile {
    pub email: Option<String>,
    pub display_name: Option<String>,
    pub real_name: Option<String>,
    pub image_72: Option<String>,
}

/// A Slack user as the user list gives it.
#[derive(Debug, PartialEq, Eq)]
pub struct SlackUser {
    pub id: String,
    pub deleted: Option<bool>,
    pub is_bot: Option<bool>,
    pub updated: Option<i64>,
    pub profile: SlackUserProfile,
}

/// The profile stored for a synced user.
#[derive(Debug, PartialEq, Eq)]
pub struct UserProfileUpdate {
    pub user_id: String,
    pub email: Option<String>,
    pub display_name: Option<String>,
    pub avatar_url: Option<String>,
    pub is_active: bool,
}

/// The users to sync, and how many were passed over and why.
#[derive(Debug, PartialEq, Eq)]
pub struct UserSyncPlan {
    pub updates: Vec<UserProfileUpdate>,
    pub skipped_bots: usize,
    pub skipped_duplicates: usize,
    pub skipped_stale: usize,
}

/// The id of Slack's own bot user.
pub const SLACKBOT_ID: &'static str = "USLACKBOT";

/// Bots, and Slack's own bot, are never synced.
pub open spec fn is_bot_user(u: SlackUser) -> bool {
    (match u.is_bot {
        Some(b) => b,
        None => false,
    }) || u.id@ == SLACKBOT_ID@
}

/// The profile that syncing `u` stores, by its characters: the display name
/// (else the real name), the avatar and the email, each trimmed and only if
/// not blank, and whether the user is not deleted.
pub open spec fn update_of(u: SlackUser) -> (Seq<char>, Option<Seq<char>>, Option<Seq<char>>, Option<Seq<char>>, bool) {
    let display = match present(opt_view(u.profile.display_name)) {
        Some(d) => Some(d),
        None => present(opt_view(u.profile.real_name)),
    };
    (
        u.id@,
        present(opt_view(u.profile.email)),
        display,
        present(opt_view(u.profile.image_72)),
        !(match u.deleted {
            Some(d) => d,
            None => false,
        }),
    )
}

pub open spec fn update_view(x: UserProfileUpdate) -> (Seq<char>, Option<Seq<char>>, Option<Seq<char>>, Option<Seq<char>>, bool) {
    (x.user_id@, opt_view(x.email), opt_view(x.display_name), opt_view(x.avatar_url), x.is_active)
}

/// The sync of `users` in order, `fresh[i]` saying whether user `i` changed
/// since the cutoff: bots are skipped; a user whose id was met before (bots
/// aside) is a duplicate; a user not changed since the cutoff is stale (its id
/// still counts as met); every other user is synced. Gives the updates, the
/// ids met, and the bot, duplicate and stale counts.
pub open spec fn sync_state(users: Seq<SlackUser>, fresh: Seq<bool>) -> (
    Seq<(Seq<char>, Option<Seq<char>>, Option<Seq<char>>, Option<Seq<char>>, bool)>,
    Set<Seq<char>>,
    nat,
    nat,
    nat,
)
    decreases users.len(),
{
    if users.len() == 0 {
        (Seq::empty(), Set::empty(), 0, 0, 0)
    } else {
        let (ups, seen, bots, dups, stale) = sync_state(users.drop_last(), fresh);
        let u = users.last();
        let i = users.len() - 1;
        if is_bot_user(u) {
            (ups, seen, bots + 1, dups, stale)
        } else if seen.contains(u.id@) {
            (ups, seen, bots, dups + 1, stale)
        } else if !fresh[i] {
            (ups, seen.insert(u.id@), bots, dups, stale + 1)
        } else {
            (ups.push(update_of(u)), seen.insert(u.id@), bots, dups, stale)
        }
    }
}

fn present_opt(o: &Option<String>) -> (r: Option<String>)
    ensures
        opt_view(r) == present(opt_view(*o)),
{
    present_string(o)
}

fn contains_string(v: &Vec<String>, x: &String) -> (r: bool)
    ensures
        r == crate::thread_summary::users_view(v@).contains(x@),
{
    let mut i: usize = 0;
    while i < v.len()
        invariant
            i <= v.len(),
            forall|j: int| 0 <= j < i ==> (#[trigger] v@[j])@ != x@,
        decreases v.len() - i,
    {
        if str_eq(v[i].as_str(), x.as_str()) {
            proof {
                assert(crate::thread_summary::users_view(v@)[i as int] == x@);
            }
            return true;
        }
        i = i + 1;
    }
    proof {
        if crate::thread_summary::users_view(v@).contains(x@) {
            let vs = crate::thread_summary::users_view(v@);
            let j = choose|j: int| 0 <= j < vs.len() && #[trigger] vs[j] == x@;
            assert(v@[j]@ == x@);
        }
    }
    false
}

/// Plans the sync of the workspace users (see `sync_state`).
pub fn plan_user_sync(users: &Vec<SlackUser>, fresh: &Vec<bool>) -> (r: UserSyncPlan)
    requires
        fresh@.len() == users@.len(),
    ensures
        ({
            let (ups, _, bots, dups, stale) = sync_state(users@, fresh@);
            &&& r.updates@.map_values(|x: UserProfileUpdate| update_view(x)) == ups
            &&& r.skipped_bots == bots
            &&& r.skipped_duplicates == dups
            &&& r.skipped_stale == stale
        }),
{
    let mut updates: Vec<UserProfileUpdate> = Vec::new();
    let mut seen: Vec<String> = Vec::new();
    let mut bots: usize = 0;
    let mut dups: usize = 0;
    let mut stale: usize = 0;
    let mut i: usize = 0;
    proof {
        reveal_strlit("USLACKBOT");
        assert(users@.take(0) =~= Seq::<SlackUser>::empty());
        assert(updates@.map_values(|x: UserProfileUpdate| update_view(x)) =~= Seq::empty());
        assert(crate::thread_summary::users_view(seen@).to_set() =~= Set::<Seq<char>>::empty());
    }
    while i < users.len()
        invariant
            i <= users@.len(),
            fresh@.len() == users@.len(),
            ({
                let (ups, st, b, d, sl) = sync_state(users@.take(i as int), fresh@);
                &&& updates@.map_values(|x: UserProfileUpdate| update_view(x)) == ups
                &&& crate::thread_summary::users_view(seen@).to_set() == st
                &&& bots == b
                &&& dups == d
                &&& stale == sl
            }),
            bots + dups + stale + updates@.len() == i,
        decreases users@.len() - i,
    {
        proof {
            assert(users@.take(i + 1).drop_last() =~= users@.take(i as int));
            assert(users@.take(i + 1).last() == users@[i as int]);
            assert(sync_state(users@.take(i + 1), fresh@) == sync_state(users@.take(i + 1), fresh@));
        }
        let u = &users[i];
        let bot_flag = match u.is_bot {
            Some(b) => b,
            None => false,
        };
        let ghost sv = crate::thread_summary::users_view(seen@);
        if bot_flag || str_eq(u.id.as_str(), SLACKBOT_ID) {
            bots = bots + 1;
        } else if contains_string(&seen, &u.id) {
            proof {
                assert(sv.to_set().contains(u.id@));
            }
            dups = dups + 1;
        } else if !fresh[i] {
            seen.push(u.id.clone());
            proof {
                assert(crate::thread_summary::users_view(seen@) =~= sv.push(u.id@));
                crate::store::lemma_push_to_set(sv, u.id@);
            }
            stale = stale + 1;
        } else {
            let ghost ups0 = updates@.map_values(|x: UserProfileUpdate| update_view(x));
            seen.push(u.id.clone());
            proof {
                assert(crate::thread_summary::users_view(seen@) =~= sv.push(u.id@));
                crate::store::lemma_push_to_set(sv, u.id@);
            }
            let display = match present_opt(&u.profile.display_name) {
                Some(d) => Some(d),
                None => present_opt(&u.profile.real_name),
            };
            let deleted = match u.deleted {
                Some(d) => d,
                None => false,
            };
            let up = UserProfileUpdate {
                user_id: u.id.clone(),
                email: present_opt(&u.profile.email),
                display_name: display,
                avatar_url: present_opt(&u.profile.image_72),
                is_active: !deleted,
            };
            proof {
                assert(update_view(up) == update_of(*u));
            }
            updates.push(up);
            proof {
                assert(updates@.map_values(|x: UserProfileUpdate| update_view(x)) =~= ups0.push(update_of(*u)));
            }
        }
        i = i + 1;
    }
    proof {
        assert(users@.take(users@.len() as int) =~= users@);
    }
    UserSyncPlan { updates, skipped_bots: bots, skipped_duplicates: dups, skipped_stale: stale }
}

/// The files of one message that still need archiving.
#[derive(Debug, PartialEq, Eq)]
pub struct FileGroup {
    pub channel_id: String,
    pub message_ts: String,
    pub files: Vec<File>,
}

impl Keyed for FileGroup {
    open spec fn key(&self) -> Seq<Seq<char>> {
        seq![self.channel_id@, self.message_ts@]
    }

    fn key_chars(&self) -> (r: Vec<Vec<char>>) {
        let mut r: Vec<Vec<char>> = Vec::new();
        r.push(chars_of(self.channel_id.as_str()));
        r.push(chars_of(self.message_ts.as_str()));
        proof {
            assert(chars_view(r@) =~= self.key());
        }
        r
    }
}

/// The key of a file's message.
pub open spec fn file_message_key(f: File) -> Seq<Seq<char>> {
    seq![f.channel_id@, f.message_ts@]
}

/// A file passes the channel filter when there is none or it is the file's.
pub open spec fn in_channel(f: File, filter: Option<Seq<char>>) -> bool {
    match filter {
        Some(c) => f.channel_id@ == c,
        None => true,
    }
}

/// A file already points under the archive's public address.
pub open spec fn already_archived(f: File, prefix: Seq<char>) -> bool {
    match f.permalink {
        Some(p) => prefix.len() <= p@.len() && p@.take(prefix.len() as int) == prefix,
        None => false,
    }
}

/// The files to archive, in order: of the filtered channel, not yet archived.
pub open spec fn files_to_archive(files: Seq<File>, filter: Option<Seq<char>>, prefix: Seq<char>) -> Seq<File>
    decreases files.len(),
{
    if files.len() == 0 {
        Seq::empty()
    } else {
        let prev = files_to_archive(files.drop_last(), filter, prefix);
        let f = files.last();
        if in_channel(f, filter) && !already_archived(f, prefix) { prev.push(f) } else { prev }
    }
}

/// How many files of the filtered channel are already archived.
pub open spec fn archived_count(files: Seq<File>, filter: Option<Seq<char>>, prefix: Seq<char>) -> nat
    decreases files.len(),
{
    if files.len() == 0 {
        0
    } else {
        let f = files.last();
        archived_count(files.drop_last(), filter, prefix) + if in_channel(f, filter) && already_archived(f, prefix) { 1nat } else { 0nat }
    }
}

/// The files of `files` whose message has key `k`, in order.
pub open spec fn files_of_message(files: Seq<File>, k: Seq<Seq<char>>) -> Seq<File>
    decreases files.len(),
{
    if files.len() == 0 {
        Seq::empty()
    } else if file_message_key(files.last()) == k {
        files_of_message(files.drop_last(), k).push(files.last())
    } else {
        files_of_message(files.drop_last(), k)
    }
}

/// `groups` are the files of `files` grouped by message: one group per
/// message key that occurs, ordered by key, each with its files in order.
pub open spec fn grouped_by_message(groups: Seq<FileGroup>, files: Seq<File>) -> bool {
    &&& sorted_by_key(groups)
    &&& forall|k: Seq<Seq<char>>| #[trigger] key_map(groups).dom().contains(k) <==> files_of_message(files, k).len() > 0
    &&& forall|k: Seq<Seq<char>>| #[trigger] key_map(groups).dom().contains(k) ==> key_map(groups)[k].files@ == files_of_message(files, k)
}

fn starts_with_str(s: &str, prefix: &str) -> (r: bool)
    ensures
        r == (prefix@.len() <= s@.len() && s@.take(prefix@.len() as int) == prefix@),
{
    let a = chars_of(s);
    let p = chars_of(prefix);
    crate::text::starts_with(&a, &p)
}

proof fn lemma_files_of_message_push(files: Seq<File>, f: File, k: Seq<Seq<char>>)
    ensures
        files_of_message(files.push(f), k) == if file_message_key(f) == k {
            files_of_message(files, k).push(f)
        } else {
            files_of_message(files, k)
        },
{
    assert(files.push(f).drop_last() =~= files);
}

/// Groups the files that still need archiving by message, and counts the
/// files of the filtered channel that are already archived.
pub fn group_missing_files(files: Vec<File>, channel_id: Option<&str>, archive_public_prefix: &str) -> (r: (Vec<FileGroup>, usize))
    ensures
        grouped_by_message(r.0@, files_to_archive(files@, crate::summary_text::opt_str(channel_id), archive_public_prefix@)),
        r.1 == archived_count(files@, crate::summary_text::opt_str(channel_id), archive_public_prefix@),
{
    let ghost filter = crate::summary_text::opt_str(channel_id);
    let ghost prefix = archive_public_prefix@;
    let mut groups: Vec<FileGroup> = Vec::new();
    let mut skipped: usize = 0;
    let mut i: usize = 0;
    proof {
        assert(files@.take(0) =~= Seq::<File>::empty());
        assert(key_map(groups@) =~= Map::<Seq<Seq<char>>, FileGroup>::empty());
    }
    while i < files.len()
        invariant
            i <= files@.len(),
            filter == crate::summary_text::opt_str(channel_id),
            prefix == archive_public_prefix@,
            grouped_by_message(groups@, files_to_archive(files@.take(i as int), filter, prefix)),
            skipped == archived_count(files@.take(i as int), filter, prefix),
            skipped <= i,
        decreases files@.len() - i,
    {
        let ghost elig = files_to_archive(files@.take(i as int), filter, prefix);
        proof {
            assert(files@.take(i + 1).drop_last() =~= files@.take(i as int));
            assert(files@.take(i + 1).last() == files@[i as int]);
        }
        let f = files[i].clone();
        let passes = match channel_id {
            Some(c) => str_eq(f.channel_id.as_str(), c),
            None => true,
        };
        if passes {
            let archived = match &f.permalink {
                Some(p) => starts_with_str(p.as_str(), archive_public_prefix),
                None => false,
            };
            if archived {
                skipped = skipped + 1;
            } else {
                let ghost kf = file_message_key(f);
                let mut key: Vec<Vec<char>> = Vec::new();
                key.push(chars_of(f.channel_id.as_str()));
                key.push(chars_of(f.message_ts.as_str()));
                proof {
                    assert(chars_view(key@) =~= kf);
                }
                let ghost old_groups = groups@;
                match find_by_key(&groups, &key) {
                    Some(j) => {
                        let mut g = groups.remove(j);
                        let ghost gfiles = g.files@;
                        proof {
                            assert(g == old_groups[j as int]);
                            assert(old_groups.contains(old_groups[j as int]));
                            crate::ordered::lemma_entry_of_member(old_groups, old_groups[j as int]);
                            assert(key_map(old_groups).dom().contains(kf));
                            assert(key_map(old_groups)[kf] == g);
                            assert(gfiles == files_of_message(elig, kf));
                        }
                        g.files.push(f);
                        let ghost gn = g;
                        groups.insert(j, g);
                        proof {
                            assert(groups@ =~= old_groups.update(j as int, gn));
                            assert forall|a: int, b: int| 0 <= a < b < groups@.len() implies crate::ordered::key_lt(
                                #[trigger] groups@[a].key(),
                                #[trigger] groups@[b].key(),
                            ) by {
                                assert(groups@[a].key() == old_groups[a].key());
                                assert(groups@[b].key() == old_groups[b].key());
                            }
                            assert forall|e: FileGroup| old_groups.contains(e) && e.key() != gn.key() implies groups@.contains(e) by {
                                let q = choose|q: int| 0 <= q < old_groups.len() && old_groups[q] == e;
                                assert(q != j);
                                assert(groups@[q] == e);
                            }
                            assert forall|e: FileGroup| groups@.contains(e) implies e == gn || (old_groups.contains(e) && e.key() != gn.key()) by {
                                let q = choose|q: int| 0 <= q < groups@.len() && groups@[q] == e;
                                if q != j {
                                    assert(old_groups[q] == e);
                                    crate::ordered::lemma_key_lt_irreflexive(gn.key());
                                    if q < j {
                                        assert(crate::ordered::key_lt(old_groups[q].key(), old_groups[j as int].key()));
                                    } else {
                                        assert(crate::ordered::key_lt(old_groups[j as int].key(), old_groups[q].key()));
                                    }
                                }
                            }
                            assert(groups@.contains(gn)) by {
                                assert(groups@[j as int] == gn);
                            }
                            crate::ordered::lemma_upsert_is_insert(old_groups, groups@, gn);
                        }
                    },
                    None => {
                        proof {
                            assert(!key_map(old_groups).dom().contains(kf));
                            assert(files_of_message(elig, kf).len() == 0);
                        }
                        let mut fs: Vec<File> = Vec::new();
                        fs.push(f);
                        let g = FileGroup { channel_id: f_channel(&fs), message_ts: f_ts(&fs), files: fs };
                        upsert_sorted(&mut groups, g);
                    },
                }
                proof {
                    let e1 = files_to_archive(files@.take(i + 1), filter, prefix);
                    assert(e1 == elig.push(files@[i as int]));
                    assert forall|k: Seq<Seq<char>>| #[trigger] key_map(groups@).dom().contains(k) <==> files_of_message(e1, k).len() > 0 by {
                        lemma_files_of_message_push(elig, files@[i as int], k);
                    }
                    assert forall|k: Seq<Seq<char>>| #[trigger] key_map(groups@).dom().contains(k) implies key_map(groups@)[k].files@ == files_of_message(e1, k) by {
                        lemma_files_of_message_push(elig, files@[i as int], k);
                        if k == kf {
                            if !crate::ordered::has_key(old_groups, kf) {
                                assert(!key_map(old_groups).dom().contains(kf));
                                assert(files_of_message(elig, k) =~= Seq::<File>::empty());
                            }
                        } else {
                            assert(key_map(groups@)[k] == key_map(old_groups)[k]);
                            assert(key_map(old_groups).dom().contains(k));
                        }
                    }
                }
            }
        }
        i = i + 1;
    }
    proof {
        assert(files@.take(files@.len() as int) =~= files@);
    }
    (groups, skipped)
}

fn f_channel(fs: &Vec<File>) -> (r: String)
    requires
        fs@.len() > 0,
    ensures
        r == fs@[0].channel_id,
{
    fs[0].channel_id.clone()
}

fn f_ts(fs: &Vec<File>) -> (r: String)
    requires
        fs@.len() > 0,
    ensures
        r == fs@[0].message_ts,
{
    fs[0].message_ts.clone()
}

impl Keyed for SlackConversation {
    open spec fn key(&self) -> Seq<Seq<char>> {
        seq![self.id@]
    }

    fn key_chars(&self) -> (r: Vec<Vec<char>>) {
        let mut r: Vec<Vec<char>> = Vec::new();
        r.push(chars_of(self.id.as_str()));
        proof {
            assert(chars_view(r@) =~= self.key());
        }
        r
    }
}

/// A listed channel is kept unless it is marked archived.
pub open spec fn is_open_channel(c: SlackConversation) -> bool {
    !(match c.is_archived {
        Some(a) => a,
        None => false,
    })
}

/// The first open channel of `chs` with key `k`, if any.
pub open spec fn first_open(chs: Seq<SlackConversation>, k: Seq<Seq<char>>) -> Option<SlackConversation>
    decreases chs.len(),
{
    if chs.len() == 0 {
        None
    } else {
        match first_open(chs.drop_last(), k) {
            Some(c) => Some(c),
            None => if is_open_channel(chs.last()) && chs.last().key() == k { Some(chs.last()) } else { None },
        }
    }
}

/// The open channels of a listing, one per id (the first listed), ordered by id.
pub fn public_channel_catalog(channels: Vec<SlackConversation>) -> (r: Vec<SlackConversation>)
    ensures
        sorted_by_key(r@),
        forall|k: Seq<Seq<char>>| #[trigger] key_map(r@).dom().contains(k) <==> first_open(channels@, k) is Some,
        forall|k: Seq<Seq<char>>| #[trigger] key_map(r@).dom().contains(k) ==> Some(key_map(r@)[k]) == first_open(channels@, k),
{
    let mut out: Vec<SlackConversation> = Vec::new();
    let mut i: usize = 0;
    proof {
        assert(channels@.take(0) =~= Seq::<SlackConversation>::empty());
        assert(key_map(out@) =~= Map::<Seq<Seq<char>>, SlackConversation>::empty());
    }
    while i < channels.len()
        invariant
            i <= channels@.len(),
            sorted_by_key(out@),
            forall|k: Seq<Seq<char>>| #[trigger] key_map(out@).dom().contains(k) <==> first_open(channels@.take(i as int), k) is Some,
            forall|k: Seq<Seq<char>>| #[trigger] key_map(out@).dom().contains(k) ==> Some(key_map(out@)[k]) == first_open(channels@.take(i as int), k),
        decreases channels@.len() - i,
    {
        proof {
            assert(channels@.take(i + 1).drop_last() =~= channels@.take(i as int));
            assert(channels@.take(i + 1).last() == channels@[i as int]);
        }
        let c = channels[i].clone();
        let open = match c.is_archived {
            Some(a) => !a,
            None => true,
        };
        let ghost before = out@;
        if open {
            let key = c.key_chars();
            match find_by_key(&out, &key) {
                Some(_) => {
                    proof {
                        assert(key_map(before).dom().contains(c.key()));
                    }
                },
                None => {
                    proof {
                        assert(!key_map(before).dom().contains(c.key()));
                    }
                    upsert_sorted(&mut out, c);
                },
            }
        }
        proof {
            assert forall|k: Seq<Seq<char>>| #[trigger] key_map(out@).dom().contains(k) <==> first_open(channels@.take(i + 1), k) is Some by {
                if k != channels@[i as int].key() || !open {
                    assert(first_open(channels@.take(i + 1), k) == first_open(channels@.take(i as int), k));
                }
            }
            assert forall|k: Seq<Seq<char>>| #[trigger] key_map(out@).dom().contains(k) implies Some(key_map(out@)[k]) == first_open(channels@.take(i + 1), k) by {
                if k != channels@[i as int].key() || !open {
                    assert(first_open(channels@.take(i + 1), k) == first_open(channels@.take(i as int), k));
                }
            }
        }
        i = i + 1;
    }
    proof {
        assert(channels@.take(channels@.len() as int) =~= channels@);
    }
    out
}

/// Why a backfill request is refused.
#[derive(Debug, Clone, Copy, PartialEq, Eq, Structural)]
pub enum BackfillRequestError {
    /// Resuming from the last stored message and an explicit start were both asked.
    ConflictingRange,
}

/// A backfill cannot both resume from the last stored message and start at an
/// explicit timestamp.
pub fn check_backfill_range(resume_from_last_message_ts: bool, oldest_ts: Option<&str>) -> (r: Result<(), BackfillRequestError>)
    ensures
        r is Err <==> (resume_from_last_message_ts && oldest_ts is Some),
        r is Err ==> r == Err::<(), BackfillRequestError>(BackfillRequestError::ConflictingRange),
{
    if resume_from_last_message_ts && oldest_ts.is_some() {
        Err(BackfillRequestError::ConflictingRange)
    } else {
        Ok(())
    }
}

/// Where a channel's backfill starts: in resume mode, at the channel's last
/// stored message (from the start when there is none); else at the requested
/// timestamp, if any.
pub fn oldest_ts_for(resume_from_last_message_ts: bool, latest_stored_ts: Option<String>, requested: Option<String>) -> (r: Option<String>)
    ensures
        r == (if resume_from_last_message_ts { latest_stored_ts } else { requested }),
{
    if resume_from_last_message_ts {
        latest_stored_ts
    } else {
        requested
    }
}

/// The stored threads of a channel that have replies.
pub open spec fn threads_with_replies_spec(summaries: Seq<crate::rows::ThreadSummaryRow>, channel_id: Seq<char>) -> Seq<crate::rows::ThreadSummaryRow>
    decreases summaries.len(),
{
    if summaries.len() == 0 {
        Seq::empty()
    } else {
        let prev = threads_with_replies_spec(summaries.drop_last(), channel_id);
        let s = summaries.last();
        if s.channel_id@ == channel_id && s.reply_count > 0 { prev.push(s) } else { prev }
    }
}

pub fn threads_with_replies(summaries: &Vec<crate::rows::ThreadSummaryRow>, channel_id: &str) -> (r: Vec<crate::rows::ThreadSummaryRow>)
    ensures
        r@ == threads_with_replies_spec(summaries@, channel_id@),
{
    let mut out: Vec<crate::rows::ThreadSummaryRow> = Vec::new();
    let mut i: usize = 0;
    proof {
        assert(summaries@.take(0) =~= Seq::<crate::rows::ThreadSummaryRow>::empty());
    }
    while i < summaries.len()
        invariant
            i <= summaries@.len(),
            out@ == threads_with_replies_spec(summaries@.take(i as int), channel_id@),
        decreases summaries@.len() - i,
    {
        proof {
            assert(summaries@.take(i + 1).drop_last() =~= summaries@.take(i as int));
            assert(summaries@.take(i + 1).last() == summaries@[i as int]);
        }
        let s = &summaries[i];
        if str_eq(s.channel_id.as_str(), channel_id) && s.reply_count > 0 {
            out.push(s.clone());
        }
        i = i + 1;
    }
    proof {
        assert(summaries@.take(summaries@.len() as int) =~= summaries@);
    }
    out
}

/// History messages gathered once each, by timestamp, in the order met.
pub struct ExpandedMessages {
    messages: Vec<SlackHistoryMessage>,
    seen: Vec<String>,
}

impl ExpandedMessages {
    pub closed spec fn spec_messages(&self) -> Seq<SlackHistoryMessage> {
        self.messages@
    }

    /// The timestamps gathered so far.
    pub closed spec fn spec_seen(&self) -> Seq<Seq<char>> {
        crate::thread_summary::users_view(self.seen@)
    }

    /// Every gathered message has its own timestamp, recorded as seen.
    #[verifier::type_invariant]
    spec fn gathered_once(self) -> bool {
        &&& self.spec_seen() == self.messages@.map_values(|m: SlackHistoryMessage| m.ts@)
        &&& self.spec_seen().no_duplicates()
    }

    pub fn new() -> (r: ExpandedMessages)
        ensures
            r.spec_messages().len() == 0,
    {
        let messages: Vec<SlackHistoryMessage> = Vec::new();
        let seen: Vec<String> = Vec::new();
        proof {
            assert(crate::thread_summary::users_view(seen@) =~= messages@.map_values(|m: SlackHistoryMessage| m.ts@));
        }
        ExpandedMessages { messages, seen }
    }

    /// Whether a message with timestamp `ts` was gathered.
    pub fn has_seen(&self, ts: &String) -> (r: bool)
        ensures
            r == self.spec_messages().map_values(|m: SlackHistoryMessage| m.ts@).contains(ts@),
    {
        proof {
            use_type_invariant(self);
        }
        let mut i: usize = 0;
        while i < self.seen.len()
            invariant
                i <= self.seen@.len(),
                self.gathered_once(),
                forall|j: int| 0 <= j < i ==> (#[trigger] self.seen@[j])@ != ts@,
            decreases self.seen@.len() - i,
        {
            if str_eq(self.seen[i].as_str(), ts.as_str()) {
                proof {
                    assert(self.spec_seen()[i as int] == ts@);
                    assert(self.spec_messages().map_values(|m: SlackHistoryMessage| m.ts@)[i as int] == ts@);
                }
                return true;
            }
            i = i + 1;
        }
        proof {
            if self.spec_seen().contains(ts@) {
                let ss = self.spec_seen();
                let j = choose|j: int| 0 <= j < ss.len() && #[trigger] ss[j] == ts@;
                assert(self.seen@[j]@ == ts@);
            }
        }
        false
    }

    /// Gathers `m` unless a message with its timestamp was gathered before.
    pub fn push_if_new(&mut self, m: SlackHistoryMessage) -> (added: bool)
        ensures
            added == !old(self).spec_messages().map_values(|x: SlackHistoryMessage| x.ts@).contains(m.ts@),
            final(self).spec_messages() == if added { old(self).spec_messages().push(m) } else { old(self).spec_messages() },
    {
        proof {
            use_type_invariant(&*self);
        }
        if self.has_seen(&m.ts) {
            return false;
        }
        let mut gathered = ExpandedMessages::new();
        std::mem::swap(&mut gathered, self);
        let ExpandedMessages { mut messages, mut seen } = gathered;
        let ghost s0 = crate::thread_summary::users_view(seen@);
        let ghost m0 = messages@;
        seen.push(m.ts.clone());
        messages.push(m);
        proof {
            assert(crate::thread_summary::users_view(seen@) =~= s0.push(m.ts@));
            assert(messages@.map_values(|x: SlackHistoryMessage| x.ts@) =~= m0.map_values(|x: SlackHistoryMessage| x.ts@).push(m.ts@));
        }
        *self = ExpandedMessages { messages, seen };
        true
    }

    /// The gathered messages.
    pub fn into_messages(self) -> (r: Vec<SlackHistoryMessage>)
        ensures
            r@ == self.spec_messages(),
    {
        self.messages
    }
}

/// The second a history message is ordered by.
pub open spec fn message_time(m: SlackHistoryMessage) -> i64 {
    event_time(m.ts@)
}

/// The messages of `s` that fall in second `t`, in order.
pub open spec fn in_second(s: Seq<SlackHistoryMessage>, t: i64) -> Seq<SlackHistoryMessage> {
    s.filter(|m: SlackHistoryMessage| message_time(m) == t)
}

/// Seconds never decrease along `s`.
pub open spec fn sorted_by_time(s: Seq<SlackHistoryMessage>) -> bool {
    forall|i: int, j: int| 0 <= i < j < s.len() ==> message_time(#[trigger] s[i]) <= message_time(#[trigger] s[j])
}

/// The messages ordered by the second they were posted in; messages of the
/// same second keep their order.
pub fn sort_by_event_time(messages: Vec<SlackHistoryMessage>) -> (r: Vec<SlackHistoryMessage>)
    ensures
        sorted_by_time(r@),
        forall|t: i64| #[trigger] in_second(r@, t) == in_second(messages@, t),
{
    let ghost orig = messages@;
    let mut rest = messages;
    let mut out: Vec<SlackHistoryMessage> = Vec::new();
    let mut times: Vec<i64> = Vec::new();
    proof {
        assert(orig.take(orig.len() as int) =~= orig);
        assert(orig.skip(orig.len() as int) =~= out@);
    }
    while rest.len() > 0
        invariant
            rest@ == orig.take(rest@.len() as int),
            rest@.len() <= orig.len(),
            sorted_by_time(out@),
            times@.len() == out@.len(),
            forall|k: int| 0 <= k < times@.len() ==> times@[k] == message_time(#[trigger] out@[k]),
            forall|t: i64| #[trigger] in_second(out@, t) == in_second(orig.skip(rest@.len() as int), t),
        decreases rest.len(),
    {
        let ghost n: int = rest@.len() as int;
        let x = rest.pop().unwrap();
        let tx = parse_event_time(x.ts.as_str());
        proof {
            assert(x == orig[n - 1]);
            assert(rest@ =~= orig.take(n - 1));
        }
        let mut p: usize = 0;
        while p < out.len() && times[p] < tx
            invariant
                p <= out@.len(),
                times@.len() == out@.len(),
                forall|k: int| 0 <= k < times@.len() ==> times@[k] == message_time(#[trigger] out@[k]),
                forall|k: int| 0 <= k < p ==> message_time(#[trigger] out@[k]) < tx,
            decreases out@.len() - p,
        {
            p = p + 1;
        }
        let ghost prev = out@;
        let ghost a = prev.take(p as int);
        let ghost b = prev.skip(p as int);
        out.insert(p, x);
        times.insert(p, tx);
        proof {
            assert(p < prev.len() ==> message_time(prev[p as int]) >= tx);
            assert forall|i: int, j: int| 0 <= i < j < out@.len() implies message_time(#[trigger] out@[i]) <= message_time(#[trigger] out@[j]) by {
                if j < p {
                    assert(out@[i] == prev[i] && out@[j] == prev[j]);
                } else if j == p {
                    assert(out@[i] == prev[i]);
                } else if i == p {
                    assert(out@[j] == prev[j - 1]);
                    assert(message_time(prev[p as int]) <= message_time(prev[j - 1]));
                } else if i < p {
                    assert(out@[i] == prev[i] && out@[j] == prev[j - 1]);
                } else {
                    assert(out@[i] == prev[i - 1] && out@[j] == prev[j - 1]);
                }
            }
            assert forall|k: int| 0 <= k < times@.len() implies times@[k] == message_time(#[trigger] out@[k]) by {
                if k < p {
                    assert(out@[k] == prev[k]);
                } else if k > p {
                    assert(out@[k] == prev[k - 1]);
                }
            }
            assert(out@ =~= a + seq![x] + b);
            assert(prev =~= a + b);
            assert(orig.skip(n - 1) =~= seq![x] + orig.skip(n));
            assert forall|t: i64| #[trigger] in_second(out@, t) == in_second(orig.skip(rest@.len() as int), t) by {
                let pr = |m: SlackHistoryMessage| message_time(m) == t;
                Seq::filter_distributes_over_add(a + seq![x], b, pr);
                Seq::filter_distributes_over_add(a, seq![x], pr);
                Seq::filter_distributes_over_add(a, b, pr);
                orig.skip(n).lemma_filter_prepend(x, pr);
                b.lemma_filter_prepend(x, pr);
                assert(in_second(prev, t) == in_second(orig.skip(n), t));
                if message_time(x) == t {
                    assert forall|k: int| 0 <= k < a.len() implies !pr(a[k]) by {
                        assert(a[k] == prev[k]);
                    }
                    assert(a.all(|m: SlackHistoryMessage| !pr(m)));
                    a.lemma_all_neg_filter_empty(pr);
                    assert(a.filter(pr) =~= Seq::<SlackHistoryMessage>::empty());
                    assert(seq![x].filter(pr) == seq![x]) by {
                        Seq::<SlackHistoryMessage>::empty().lemma_filter_prepend(x, pr);
                        assert(seq![x] + Seq::<SlackHistoryMessage>::empty() =~= seq![x]);
                        reveal(Seq::filter);
                    }
                    assert(in_second(out@, t) =~= seq![x] + b.filter(pr));
                    assert(in_second(prev, t) =~= b.filter(pr));
                } else {
                    assert(seq![x].filter(pr) =~= Seq::<SlackHistoryMessage>::empty()) by {
                        Seq::<SlackHistoryMessage>::empty().lemma_filter_prepend(x, pr);
                        assert(seq![x] + Seq::<SlackHistoryMessage>::empty() =~= seq![x]);
                        reveal(Seq::filter);
                    }
                    assert(in_second(out@, t) =~= a.filter(pr) + b.filter(pr));
                }
            }
        }
    }
    out
}

/// Backfilled messages with different timestamps get different event ids,
/// so the store never mistakes one for a replay of the other.
pub proof fn lemma_message_job_ids_distinct(
    team: Seq<char>,
    ch: Seq<char>,
    m1: SlackHistoryMessage,
    m2: SlackHistoryMessage,
    received_at: i64,
    j1: ProcessEventJob,
    j2: ProcessEventJob,
)
    requires
        message_job_of(team, ch, m1, received_at, j1),
        message_job_of(team, ch, m2, received_at, j2),
        m1.ts@ != m2.ts@,
    ensures
        j1.event_id@ != j2.event_id@,
{
    let p = "backfill:"@ + ch + ":"@;
    assert(j1.event_id@ =~= p + m1.ts@);
    assert(j2.event_id@ =~= p + m2.ts@);
    if j1.event_id@ == j2.event_id@ {
        assert((p + m1.ts@).skip(p.len() as int) =~= m1.ts@);
        assert((p + m2.ts@).skip(p.len() as int) =~= m2.ts@);
    }
}

/// A file of a backfilled page to archive.
#[derive(Debug, PartialEq, Eq)]
pub struct ArchiveCandidate {
    pub message_ts: String,
    pub file_id: String,
    pub filename: String,
    pub download_url: Option<String>,
    pub mimetype: Option<String>,
}

/// The candidate for file `f` of the message at `ts`: named by its name or
/// else its id, downloaded from its private download address or else its
/// private address.
pub open spec fn candidate_of(ts: String, f: SlackHistoryFile, c: ArchiveCandidate) -> bool {
    &&& c.message_ts == ts
    &&& c.file_id == f.id
    &&& c.filename@ == (match f.name {
        Some(n) => n@,
        None => f.id@,
    })
    &&& c.download_url == (match f.url_private_download {
        Some(u) => Some(u),
        None => f.url_private,
    })
    &&& c.mimetype == f.mimetype
}

/// The files of the messages, message by message, each as (message ts, file).
pub open spec fn page_files(msgs: Seq<SlackHistoryMessage>) -> Seq<(String, SlackHistoryFile)>
    decreases msgs.len(),
{
    if msgs.len() == 0 {
        Seq::empty()
    } else {
        let m = msgs.last();
        page_files(msgs.drop_last()) + m.files@.map_values(|f: SlackHistoryFile| (m.ts, f))
    }
}

/// The files of a page taken once each by id (the first met), in order.
pub open spec fn first_by_id(fs: Seq<(String, SlackHistoryFile)>) -> Seq<(String, SlackHistoryFile)>
    decreases fs.len(),
{
    if fs.len() == 0 {
        Seq::empty()
    } else {
        let prev = first_by_id(fs.drop_last());
        let x = fs.last();
        if prev.map_values(|p: (String, SlackHistoryFile)| p.1.id@).contains(x.1.id@) { prev } else { prev.push(x) }
    }
}

/// The files of a backfilled page to archive: each file once by id, in the
/// order met.
pub fn archive_candidates(messages: &[SlackHistoryMessage]) -> (r: Vec<ArchiveCandidate>)
    ensures
        r@.len() == first_by_id(page_files(messages@)).len(),
        forall|i: int| 0 <= i < r@.len() ==> candidate_of(
            first_by_id(page_files(messages@))[i].0,
            first_by_id(page_files(messages@))[i].1,
            #[trigger] r@[i],
        ),
{
    let ghost all = page_files(messages@);
    let mut out: Vec<ArchiveCandidate> = Vec::new();
    let mut ids: Vec<String> = Vec::new();
    let mut i: usize = 0;
    proof {
        assert(messages@.take(0) =~= Seq::<SlackHistoryMessage>::empty());
    }
    while i < messages.len()
        invariant
            i <= messages@.len(),
            ({
                let sel = first_by_id(page_files(messages@.take(i as int)));
                &&& out@.len() == sel.len()
                &&& forall|k: int| 0 <= k < out@.len() ==> candidate_of(sel[k].0, sel[k].1, #[trigger] out@[k])
                &&& crate::thread_summary::users_view(ids@) == sel.map_values(|p: (String, SlackHistoryFile)| p.1.id@)
            }),
        decreases messages@.len() - i,
    {
        let m = &messages[i];
        let ghost base = page_files(messages@.take(i as int));
        let ghost extra = m.files@.map_values(|f: SlackHistoryFile| (m.ts, f));
        proof {
            assert(messages@.take(i + 1).drop_last() =~= messages@.take(i as int));
            assert(messages@.take(i + 1).last() == *m);
            assert(page_files(messages@.take(i + 1)) == base + extra);
            assert(m.files@.take(0).map_values(|f: SlackHistoryFile| (m.ts, f)) =~= Seq::<(String, SlackHistoryFile)>::empty());
            assert(base + Seq::<(String, SlackHistoryFile)>::empty() =~= base);
        }
        let mut j: usize = 0;
        while j < m.files.len()
            invariant
                j <= m.files@.len(),
                extra == m.files@.map_values(|f: SlackHistoryFile| (m.ts, f)),
                ({
                    let sel = first_by_id(base + extra.take(j as int));
                    &&& out@.len() == sel.len()
                    &&& forall|k: int| 0 <= k < out@.len() ==> candidate_of(sel[k].0, sel[k].1, #[trigger] out@[k])
                    &&& crate::thread_summary::users_view(ids@) == sel.map_values(|p: (String, SlackHistoryFile)| p.1.id@)
                }),
            decreases m.files@.len() - j,
        {
            let f = &m.files[j];
            let ghost sel0 = first_by_id(base + extra.take(j as int));
            proof {
                assert((base + extra.take(j + 1)).drop_last() =~= base + extra.take(j as int));
                assert((base + extra.take(j + 1)).last() == (m.ts, *f));
            }
            let mut seen = false;
            let mut q: usize = 0;
            while q < ids.len()
                invariant
                    q <= ids@.len(),
                    seen == crate::thread_summary::users_view(ids@).take(q as int).contains(f.id@),
                decreases ids@.len() - q,
            {
                proof {
                    let v = crate::thread_summary::users_view(ids@);
                    assert(v.take(q + 1) =~= v.take(q as int).push(ids@[q as int]@));
                    crate::store::lemma_push_to_set(v.take(q as int), ids@[q as int]@);
                    assert(v.take(q as int).to_set().contains(f.id@) == v.take(q as int).contains(f.id@));
                    assert(v.take(q + 1).to_set().contains(f.id@) == v.take(q + 1).contains(f.id@));
                }
                if str_eq(ids[q].as_str(), f.id.as_str()) {
                    seen = true;
                }
                q = q + 1;
            }
            proof {
                assert(crate::thread_summary::users_view(ids@).take(ids@.len() as int) =~= crate::thread_summary::users_view(ids@));
            }
            if !seen {
                let name = match &f.name {
                    Some(n) => n.clone(),
                    None => f.id.clone(),
                };
                let url = match &f.url_private_download {
                    Some(u) => Some(u.clone()),
                    None => clone_opt_string(&f.url_private),
                };
                let c = ArchiveCandidate {
                    message_ts: m.ts.clone(),
                    file_id: f.id.clone(),
                    filename: name,
                    download_url: url,
                    mimetype: clone_opt_string(&f.mimetype),
                };
                let ghost iv = crate::thread_summary::users_view(ids@);
                ids.push(f.id.clone());
                out.push(c);
                proof {
                    assert(crate::thread_summary::users_view(ids@) =~= iv.push(f.id@));
                    let sel1 = first_by_id(base + extra.take(j + 1));
                    assert(sel1 == sel0.push((m.ts, *f)));
                    assert(sel1.map_values(|p: (String, SlackHistoryFile)| p.1.id@) =~= sel0.map_values(|p: (String, SlackHistoryFile)| p.1.id@).push(f.id@));
                }
            }
            j = j + 1;
        }
        proof {
            assert(extra.take(m.files@.len() as int) =~= extra);
        }
        i = i + 1;
    }
    proof {
        assert(messages@.take(messages@.len() as int) =~= messages@);
    }
    out
}

/// What becomes of a candidate once its storage location is recorded.
#[derive(Debug, Clone, Copy, PartialEq, Eq, Structural)]
pub enum FileArchiveStep {
    /// Download it from Slack, upload it, and count it.
    Download,
    /// No download address, but the archived copy is already there: count it.
    CountExisting,
    /// No download address and no archived copy: the backfill fails.
    MissingDownloadUrl,
}

/// The step for a candidate with download address `download_url`, where
/// `remote_exists` tells whether its archived copy is already stored (asked
/// only when there is no download address).
pub fn file_archive_step(download_url: &Option<String>, remote_exists: bool) -> (r: FileArchiveStep)
    ensures
        download_url is Some ==> r == FileArchiveStep::Download,
        download_url is None && remote_exists ==> r == FileArchiveStep::CountExisting,
        download_url is None && !remote_exists ==> r == FileArchiveStep::MissingDownloadUrl,
{
    match download_url {
        Some(_) => FileArchiveStep::Download,
        None => if remote_exists {
            FileArchiveStep::CountExisting
        } else {
            FileArchiveStep::MissingDownloadUrl
        },
    }
}

} // verus!
