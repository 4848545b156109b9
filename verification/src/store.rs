//! The event store: process-event jobs recorded once each, and the channels,
//! messages, reactions, files, search documents and thread roll-ups they carry.
use vstd::prelude::*;
use crate::domain::{clone_opt_string, Channel, ChannelKind, EventPayload, File, Message, ProcessEventJob, Reaction, SharedFile};
use crate::ordered::{
    chars_view, compare_chars, find_by_key, key_map, sort_by_key, sorted_by_key, sorted_by_key_le, str_lt,
    upsert_sorted, KeyOrder, Keyed,
};
use crate::rows::{generated_copy, GeneratedThreadSummaryRow, SearchDocumentRow, ThreadCardRow, ThreadSummaryRow};
use crate::search_index::{refresh_search_documents, refreshed_documents, same_documents};
use crate::text::{chars_of, str_eq};
use crate::thread_card::{build_thread_cards, thread_cards_of};
use crate::thread_summary::{build_thread_summaries, opt_view, same_message, thread_summaries_of};

verus! {

impl Keyed for Message {
    open spec fn key(&self) -> Seq<Seq<char>> {
        seq![self.channel_id@, self.ts@]
    }

    fn key_chars(&self) -> (r: Vec<Vec<char>>) {
        let mut r: Vec<Vec<char>> = Vec::new();
        r.push(chars_of(self.channel_id.as_str()));
        r.push(chars_of(self.ts.as_str()));
        proof {
            assert(chars_view(r@) =~= self.key());
        }
        r
    }
}

impl Keyed for File {
    open spec fn key(&self) -> Seq<Seq<char>> {
        seq![self.channel_id@, self.message_ts@, self.id@]
    }

    fn key_chars(&self) -> (r: Vec<Vec<char>>) {
        let mut r: Vec<Vec<char>> = Vec::new();
        r.push(chars_of(self.channel_id.as_str()));
        r.push(chars_of(self.message_ts.as_str()));
        r.push(chars_of(self.id.as_str()));
        proof {
            assert(chars_view(r@) =~= self.key());
        }
        r
    }
}

impl Keyed for Channel {
    open spec fn key(&self) -> Seq<Seq<char>> {
        seq![self.id@]
    }

    fn key_chars(&self) -> (r: Vec<Vec<char>>) {
        let mut r: Vec<Vec<char>> = Vec::new();
        r.push(chars_of(self.id.as_str()));
        proof {
            assert(chars_view(r@) =~= self.key());
        }
        r
    }
}

impl Keyed for Reaction {
    open spec fn key(&self) -> Seq<Seq<char>> {
        seq![self.channel_id@, self.message_ts@, self.user_id@, self.name@]
    }

    fn key_chars(&self) -> (r: Vec<Vec<char>>) {
        let mut r: Vec<Vec<char>> = Vec::new();
        r.push(chars_of(self.channel_id.as_str()));
        r.push(chars_of(self.message_ts.as_str()));
        r.push(chars_of(self.user_id.as_str()));
        r.push(chars_of(self.name.as_str()));
        proof {
            assert(chars_view(r@) =~= self.key());
        }
        r
    }
}

impl Keyed for SearchDocumentRow {
    open spec fn key(&self) -> Seq<Seq<char>> {
        seq![self.channel_id@, self.message_ts@]
    }

    fn key_chars(&self) -> (r: Vec<Vec<char>>) {
        let mut r: Vec<Vec<char>> = Vec::new();
        r.push(chars_of(self.channel_id.as_str()));
        r.push(chars_of(self.message_ts.as_str()));
        proof {
            assert(chars_view(r@) =~= self.key());
        }
        r
    }
}

impl Keyed for GeneratedThreadSummaryRow {
    open spec fn key(&self) -> Seq<Seq<char>> {
        seq![self.channel_id@, self.root_ts@]
    }

    fn key_chars(&self) -> (r: Vec<Vec<char>>) {
        let mut r: Vec<Vec<char>> = Vec::new();
        r.push(chars_of(self.channel_id.as_str()));
        r.push(chars_of(self.root_ts.as_str()));
        proof {
            assert(chars_view(r@) =~= self.key());
        }
        r
    }
}

/// Where the store keeps its data.
#[derive(Debug, Clone, Copy, PartialEq, Eq)]
pub enum RepositoryMode {
    TestJsonl,
    Postgres,
}

impl RepositoryMode {
    pub fn as_str(self) -> (r: &'static str)
        ensures
            r@ == (match self {
                RepositoryMode::TestJsonl => "test_jsonl"@,
                RepositoryMode::Postgres => "postgres"@,
            }),
    {
        match self {
            RepositoryMode::TestJsonl => "test_jsonl",
            RepositoryMode::Postgres => "postgres",
        }
    }
}

/// How many entities the store tracks.
#[derive(Debug, Clone, PartialEq, Eq)]
pub struct RepositoryHealth {
    pub tracked_events: usize,
    pub tracked_messages: usize,
    pub tracked_reactions: usize,
    pub tracked_files: usize,
    pub tracked_channels: usize,
}

/// Whether a job was new to the store or had been recorded before.
#[derive(Debug, Clone, Copy, PartialEq, Eq)]
pub enum StoreOutcome {
    Inserted,
    Duplicate,
}

/// What a batch of backfilled jobs did to the store.
#[derive(Debug, Clone, Copy, PartialEq, Eq)]
pub struct BackfillBatchStats {
    pub messages_inserted: usize,
    pub messages_duplicate: usize,
    pub reactions_inserted: usize,
    pub reactions_duplicate: usize,
    pub refreshed_threads: usize,
}

impl Default for BackfillBatchStats {
    fn default() -> (r: Self)
        ensures
            r.messages_inserted == 0,
            r.messages_duplicate == 0,
            r.reactions_inserted == 0,
            r.reactions_duplicate == 0,
            r.refreshed_threads == 0,
    {
        BackfillBatchStats {
            messages_inserted: 0,
            messages_duplicate: 0,
            reactions_inserted: 0,
            reactions_duplicate: 0,
            refreshed_threads: 0,
        }
    }
}

/// The ids of a list of strings, by their characters.
pub open spec fn string_views(v: Seq<String>) -> Seq<Seq<char>> {
    v.map_values(|s: String| s@)
}

/// The store's state in memory: every map is a vector kept sorted by its key.
pub struct InMemoryEventStore {
    seen_events: Vec<String>,
    messages: Vec<Message>,
    files: Vec<File>,
    channels: Vec<Channel>,
    reactions: Vec<Reaction>,
    search_documents: Vec<SearchDocumentRow>,
    thread_summaries: Vec<ThreadSummaryRow>,
    thread_cards: Vec<ThreadCardRow>,
    generated_thread_summaries: Vec<GeneratedThreadSummaryRow>,
}

impl InMemoryEventStore {
    /// The ids of the recorded events, in the order they were first recorded.
    pub closed spec fn spec_events(&self) -> Seq<Seq<char>> {
        string_views(self.seen_events@)
    }

    pub closed spec fn spec_messages(&self) -> Seq<Message> {
        self.messages@
    }

    pub closed spec fn spec_files(&self) -> Seq<File> {
        self.files@
    }

    pub closed spec fn spec_channels(&self) -> Seq<Channel> {
        self.channels@
    }

    pub closed spec fn spec_reactions(&self) -> Seq<Reaction> {
        self.reactions@
    }

    pub closed spec fn spec_search_documents(&self) -> Seq<SearchDocumentRow> {
        self.search_documents@
    }

    pub closed spec fn spec_thread_summaries(&self) -> Seq<ThreadSummaryRow> {
        self.thread_summaries@
    }

    pub closed spec fn spec_thread_cards(&self) -> Seq<ThreadCardRow> {
        self.thread_cards@
    }

    pub closed spec fn spec_generated(&self) -> Seq<GeneratedThreadSummaryRow> {
        self.generated_thread_summaries@
    }

    /// Whether the event `id` has been recorded.
    pub open spec fn has_seen(&self, id: Seq<char>) -> bool {
        self.spec_events().contains(id)
    }

    /// The thread roll-ups and cards are those of the stored messages.
    pub open spec fn rollups_current(&self) -> bool {
        &&& thread_summaries_of(self.spec_thread_summaries(), self.spec_messages(), self.spec_reactions(), self.spec_files())
        &&& thread_cards_of(self.spec_thread_cards(), self.spec_messages(), self.spec_thread_summaries())
    }

    /// No event id twice, and every map sorted by key (so no key twice).
    pub open spec fn tables_well_formed(&self) -> bool {
        &&& self.spec_events().no_duplicates()
        &&& sorted_by_key(self.spec_messages())
        &&& sorted_by_key(self.spec_files())
        &&& sorted_by_key(self.spec_channels())
        &&& sorted_by_key(self.spec_reactions())
        &&& sorted_by_key(self.spec_generated())
    }

    /// Every store value has well-formed tables.
    #[verifier::type_invariant]
    spec fn tables_invariant(self) -> bool {
        self.tables_well_formed()
    }

    /// Well-formed tables (as every store has) and current roll-ups.
    pub open spec fn well_formed(&self) -> bool {
        &&& self.tables_well_formed()
        &&& self.rollups_current()
    }

    /// An empty store.
    pub fn new() -> (r: InMemoryEventStore)
        ensures
            r.well_formed(),
            r.spec_events().len() == 0,
            r.spec_messages().len() == 0,
            r.spec_files().len() == 0,
            r.spec_channels().len() == 0,
            r.spec_reactions().len() == 0,
            r.spec_search_documents().len() == 0,
            r.spec_thread_summaries().len() == 0,
            r.spec_thread_cards().len() == 0,
            r.spec_generated().len() == 0,
    {
        let r = InMemoryEventStore {
            seen_events: Vec::new(),
            messages: Vec::new(),
            files: Vec::new(),
            channels: Vec::new(),
            reactions: Vec::new(),
            search_documents: Vec::new(),
            thread_summaries: Vec::new(),
            thread_cards: Vec::new(),
            generated_thread_summaries: Vec::new(),
        };
        proof {
            assert(string_views(r.seen_events@) =~= Seq::<Seq<char>>::empty());
            assert(crate::thread_summary::roots(r.messages@) =~= Seq::<Message>::empty());
            assert(crate::thread_card::summaries_with_root(r.messages@, r.thread_summaries@) =~= Seq::<ThreadSummaryRow>::empty());
        }
        r
    }

    /// The number of events, messages, reactions, files and channels stored.
    pub fn health(&self) -> (r: RepositoryHealth)
        ensures
            r.tracked_events == self.spec_events().len(),
            r.tracked_messages == self.spec_messages().len(),
            r.tracked_reactions == self.spec_reactions().len(),
            r.tracked_files == self.spec_files().len(),
            r.tracked_channels == self.spec_channels().len(),
    {
        RepositoryHealth {
            tracked_events: self.seen_events.len(),
            tracked_messages: self.messages.len(),
            tracked_reactions: self.reactions.len(),
            tracked_files: self.files.len(),
            tracked_channels: self.channels.len(),
        }
    }
}

/// The file that a message of channel `ch` at `ts` shares as `f`.
pub open spec fn file_of_share(ch: String, ts: String, f: SharedFile) -> File {
    File {
        id: f.id,
        channel_id: ch,
        message_ts: ts,
        name: f.name,
        mimetype: f.mimetype,
        permalink: f.permalink,
        size: f.size,
    }
}

/// The files map after storing, in order, the files that a message shares.
pub open spec fn files_inserted(
    m: Map<Seq<Seq<char>>, File>,
    ch: String,
    ts: String,
    fs: Seq<SharedFile>,
) -> Map<Seq<Seq<char>>, File>
    decreases fs.len(),
{
    if fs.len() == 0 {
        m
    } else {
        let f = file_of_share(ch, ts, fs.last());
        files_inserted(m, ch, ts, fs.drop_last()).insert(f.key(), f)
    }
}

/// `m` is the message that a message job of channel `ch` stores.
pub open spec fn job_message(
    m: Message,
    ch: String,
    ts: String,
    thread_ts: Option<String>,
    user_id: Option<String>,
    text: Option<String>,
) -> bool {
    &&& m.channel_id == ch
    &&& m.ts == ts
    &&& m.thread_ts == thread_ts
    &&& m.user_id == user_id
    &&& m.text@ == (match text {
        Some(t) => t@,
        None => Seq::<char>::empty(),
    })
}

/// The thread a message belongs to: its thread's root, or itself.
pub open spec fn thread_root(ts: Seq<char>, thread_ts: Option<String>) -> Seq<char> {
    match thread_ts {
        Some(t) => t@,
        None => ts,
    }
}

/// The channel after a channel update: the stored channel (or a new one of the
/// job's id and kind, unnamed and not archived), with the name and the archive
/// flag that the update gives, where it gives them.
pub open spec fn updated_channel(
    existing: Option<Channel>,
    id: String,
    kind: ChannelKind,
    name: Option<String>,
    is_archived: Option<bool>,
) -> Channel {
    let base = match existing {
        Some(c) => c,
        None => Channel { id: id, kind: kind, name: None, is_archived: false },
    };
    Channel {
        id: base.id,
        kind: base.kind,
        name: match name {
            Some(n) => Some(n),
            None => base.name,
        },
        is_archived: match is_archived {
            Some(a) => a,
            None => base.is_archived,
        },
    }
}

/// What applying `job` does to the maps of the store, `s` before and `t` after.
pub open spec fn applied(s: InMemoryEventStore, job: ProcessEventJob, t: InMemoryEventStore) -> bool {
    match job.payload {
        EventPayload::Message { user_id, text, ts, thread_ts, files } => {
            let k = seq![job.channel_id@, ts@];
            &&& key_map(t.spec_messages()).dom().contains(k)
            &&& job_message(key_map(t.spec_messages())[k], job.channel_id, ts, thread_ts, user_id, text)
            &&& key_map(t.spec_messages()) == key_map(s.spec_messages()).insert(k, key_map(t.spec_messages())[k])
            &&& key_map(t.spec_files()) == files_inserted(key_map(s.spec_files()), job.channel_id, ts, files@)
            &&& refreshed_documents(
                s.spec_search_documents(),
                t.spec_search_documents(),
                t.spec_messages(),
                job.channel_id@,
                thread_root(ts@, thread_ts),
            )
            &&& t.spec_reactions() == s.spec_reactions()
            &&& t.spec_channels() == s.spec_channels()
            &&& t.spec_generated() == s.spec_generated()
        },
        EventPayload::ReactionAdded { user_id, reaction, item_ts } => {
            let x = Reaction { channel_id: job.channel_id, message_ts: item_ts, user_id: user_id, name: reaction };
            &&& key_map(t.spec_reactions()) == key_map(s.spec_reactions()).insert(x.key(), x)
            &&& t.spec_messages() == s.spec_messages()
            &&& t.spec_files() == s.spec_files()
            &&& t.spec_search_documents() == s.spec_search_documents()
            &&& t.spec_channels() == s.spec_channels()
            &&& t.spec_generated() == s.spec_generated()
        },
        EventPayload::ChannelUpdated { name, is_archived } => {
            let k = seq![job.channel_id@];
            let c = updated_channel(
                crate::ordered::entry(s.spec_channels(), k),
                job.channel_id,
                job.channel_kind,
                name,
                is_archived,
            );
            &&& key_map(t.spec_channels()) == key_map(s.spec_channels()).insert(k, c)
            &&& t.spec_messages() == s.spec_messages()
            &&& t.spec_files() == s.spec_files()
            &&& t.spec_search_documents() == s.spec_search_documents()
            &&& t.spec_reactions() == s.spec_reactions()
            &&& t.spec_generated() == s.spec_generated()
        },
    }
}

/// Recording `job` in `s` gave `t` and outcome `r`: a job whose event id was
/// recorded before is a duplicate and changes nothing; any other is applied,
/// its id remembered, and the roll-ups rebuilt.
pub open spec fn recorded(s: InMemoryEventStore, job: ProcessEventJob, t: InMemoryEventStore, r: StoreOutcome) -> bool {
    if s.has_seen(job.event_id@) {
        &&& r == StoreOutcome::Duplicate
        &&& t == s
    } else {
        &&& r == StoreOutcome::Inserted
        &&& t.spec_events() == s.spec_events().push(job.event_id@)
        &&& applied(s, job, t)
        &&& t.spec_thread_summaries().len() == crate::thread_summary::roots(t.spec_messages()).len()
    }
}

impl InMemoryEventStore {
    fn seen(&self, id: &String) -> (r: bool)
        ensures
            r == self.has_seen(id@),
    {
        let mut i: usize = 0;
        while i < self.seen_events.len()
            invariant
                i <= self.seen_events.len(),
                forall|j: int| 0 <= j < i ==> #[trigger] self.spec_events()[j] != id@,
            decreases self.seen_events.len() - i,
        {
            if str_eq(self.seen_events[i].as_str(), id.as_str()) {
                proof {
                    assert(self.spec_events()[i as int] == id@);
                }
                return true;
            }
            i = i + 1;
        }
        false
    }

    fn remember(&mut self, id: &String)
        requires
            !old(self).has_seen(id@),
        ensures
            final(self).spec_events() == old(self).spec_events().push(id@),
            final(self).spec_messages() == old(self).spec_messages(),
            final(self).spec_files() == old(self).spec_files(),
            final(self).spec_channels() == old(self).spec_channels(),
            final(self).spec_reactions() == old(self).spec_reactions(),
            final(self).spec_search_documents() == old(self).spec_search_documents(),
            final(self).spec_thread_summaries() == old(self).spec_thread_summaries(),
            final(self).spec_thread_cards() == old(self).spec_thread_cards(),
            final(self).spec_generated() == old(self).spec_generated(),
    {
        proof {
            use_type_invariant(&*self);
        }
        let mut events: Vec<String> = Vec::new();
        std::mem::swap(&mut events, &mut self.seen_events);
        let ghost before = string_views(events@);
        events.push(id.clone());
        proof {
            assert(string_views(events@) =~= before.push(id@));
        }
        self.seen_events = events;
    }

    fn rebuild_rollups(&mut self)
        ensures
            final(self).rollups_current(),
            final(self).spec_events() == old(self).spec_events(),
            final(self).spec_messages() == old(self).spec_messages(),
            final(self).spec_files() == old(self).spec_files(),
            final(self).spec_channels() == old(self).spec_channels(),
            final(self).spec_reactions() == old(self).spec_reactions(),
            final(self).spec_search_documents() == old(self).spec_search_documents(),
            final(self).spec_generated() == old(self).spec_generated(),
            final(self).spec_thread_summaries().len() == crate::thread_summary::roots(final(self).spec_messages()).len(),
    {
        proof {
            use_type_invariant(&*self);
        }
        self.thread_summaries = build_thread_summaries(&self.messages, &self.reactions, &self.files);
        self.thread_cards = build_thread_cards(&self.messages, &self.thread_summaries);
    }

    fn apply_message(
        &mut self,
        channel_id: &String,
        user_id: &Option<String>,
        text: &Option<String>,
        ts: &String,
        thread_ts: &Option<String>,
        files: &Vec<SharedFile>,
    )
        requires
            sorted_by_key(old(self).spec_messages()),
            sorted_by_key(old(self).spec_files()),
        ensures
            sorted_by_key(final(self).spec_messages()),
            sorted_by_key(final(self).spec_files()),
            key_map(final(self).spec_messages()).dom().contains(seq![channel_id@, ts@]),
            job_message(key_map(final(self).spec_messages())[seq![channel_id@, ts@]], *channel_id, *ts, *thread_ts, *user_id, *text),
            key_map(final(self).spec_messages()) == key_map(old(self).spec_messages()).insert(
                seq![channel_id@, ts@],
                key_map(final(self).spec_messages())[seq![channel_id@, ts@]],
            ),
            key_map(final(self).spec_files()) == files_inserted(key_map(old(self).spec_files()), *channel_id, *ts, files@),
            refreshed_documents(
                old(self).spec_search_documents(),
                final(self).spec_search_documents(),
                final(self).spec_messages(),
                channel_id@,
                thread_root(ts@, *thread_ts),
            ),
            final(self).spec_events() == old(self).spec_events(),
            final(self).spec_reactions() == old(self).spec_reactions(),
            final(self).spec_channels() == old(self).spec_channels(),
            final(self).spec_generated() == old(self).spec_generated(),
    {
        proof {
            use_type_invariant(&*self);
        }
        let body = match text {
            Some(t) => t.clone(),
            None => String::new(),
        };
        let m = Message {
            channel_id: channel_id.clone(),
            ts: ts.clone(),
            thread_ts: clone_opt_string(thread_ts),
            user_id: clone_opt_string(user_id),
            text: body,
        };
        let ghost mk = m.key();
        let mut msgs: Vec<Message> = Vec::new();
        std::mem::swap(&mut msgs, &mut self.messages);
        upsert_sorted(&mut msgs, m);
        self.messages = msgs;
        proof {
            assert(mk == seq![channel_id@, ts@]);
        }
        let ghost files0 = key_map(self.files@);
        let mut stored: Vec<File> = Vec::new();
        std::mem::swap(&mut stored, &mut self.files);
        let mut i: usize = 0;
        proof {
            assert(files@.take(0) =~= Seq::<SharedFile>::empty());
        }
        while i < files.len()
            invariant
                i <= files.len(),
                sorted_by_key(stored@),
                key_map(stored@) == files_inserted(files0, *channel_id, *ts, files@.take(i as int)),
            decreases files.len() - i,
        {
            let f = &files[i];
            let file = File {
                id: f.id.clone(),
                channel_id: channel_id.clone(),
                message_ts: ts.clone(),
                name: f.name.clone(),
                mimetype: clone_opt_string(&f.mimetype),
                permalink: clone_opt_string(&f.permalink),
                size: f.size,
            };
            proof {
                assert(file == file_of_share(*channel_id, *ts, files@[i as int]));
                assert(files@.take(i + 1).drop_last() =~= files@.take(i as int));
                assert(files@.take(i + 1).last() == files@[i as int]);
            }
            upsert_sorted(&mut stored, file);
            i = i + 1;
        }
        proof {
            assert(files@.take(files@.len() as int) =~= files@);
        }
        self.files = stored;
        let root: &str = match thread_ts {
            Some(t) => t.as_str(),
            None => ts.as_str(),
        };
        let mut docs: Vec<SearchDocumentRow> = Vec::new();
        std::mem::swap(&mut docs, &mut self.search_documents);
        refresh_search_documents(&mut docs, &self.messages, channel_id.as_str(), root);
        self.search_documents = docs;
    }

    fn apply_reaction(&mut self, channel_id: &String, user_id: &String, reaction: &String, item_ts: &String)
        requires
            sorted_by_key(old(self).spec_reactions()),
        ensures
            sorted_by_key(final(self).spec_reactions()),
            key_map(final(self).spec_reactions()) == key_map(old(self).spec_reactions()).insert(
                seq![channel_id@, item_ts@, user_id@, reaction@],
                Reaction { channel_id: *channel_id, message_ts: *item_ts, user_id: *user_id, name: *reaction },
            ),
            final(self).spec_events() == old(self).spec_events(),
            final(self).spec_messages() == old(self).spec_messages(),
            final(self).spec_files() == old(self).spec_files(),
            final(self).spec_search_documents() == old(self).spec_search_documents(),
            final(self).spec_channels() == old(self).spec_channels(),
            final(self).spec_generated() == old(self).spec_generated(),
    {
        proof {
            use_type_invariant(&*self);
        }
        let x = Reaction {
            channel_id: channel_id.clone(),
            message_ts: item_ts.clone(),
            user_id: user_id.clone(),
            name: reaction.clone(),
        };
        let mut reactions: Vec<Reaction> = Vec::new();
        std::mem::swap(&mut reactions, &mut self.reactions);
        upsert_sorted(&mut reactions, x);
        self.reactions = reactions;
    }

    fn apply_channel_update(
        &mut self,
        channel_id: &String,
        kind: ChannelKind,
        name: &Option<String>,
        is_archived: &Option<bool>,
    )
        requires
            sorted_by_key(old(self).spec_channels()),
        ensures
            sorted_by_key(final(self).spec_channels()),
            key_map(final(self).spec_channels()) == key_map(old(self).spec_channels()).insert(
                seq![channel_id@],
                updated_channel(crate::ordered::entry(old(self).spec_channels(), seq![channel_id@]), *channel_id, kind, *name, *is_archived),
            ),
            final(self).spec_events() == old(self).spec_events(),
            final(self).spec_messages() == old(self).spec_messages(),
            final(self).spec_files() == old(self).spec_files(),
            final(self).spec_search_documents() == old(self).spec_search_documents(),
            final(self).spec_reactions() == old(self).spec_reactions(),
            final(self).spec_generated() == old(self).spec_generated(),
    {
        proof {
            use_type_invariant(&*self);
        }
        let mut key: Vec<Vec<char>> = Vec::new();
        key.push(chars_of(channel_id.as_str()));
        proof {
            assert(chars_view(key@) =~= seq![channel_id@]);
        }
        let base = match find_by_key(&self.channels, &key) {
            Some(i) => {
                proof {
                    assert(self.channels@.contains(self.channels@[i as int]));
                    crate::ordered::lemma_entry_of_member(self.channels@, self.channels@[i as int]);
                }
                self.channels[i].clone()
            },
            None => Channel { id: channel_id.clone(), kind: kind, name: None, is_archived: false },
        };
        let new_name = match name {
            Some(n) => Some(n.clone()),
            None => base.name,
        };
        let archived = match is_archived {
            Some(a) => *a,
            None => base.is_archived,
        };
        let c = Channel { id: base.id, kind: base.kind, name: new_name, is_archived: archived };
        proof {
            assert(c == updated_channel(crate::ordered::entry(self.channels@, seq![channel_id@]), *channel_id, kind, *name, *is_archived));
            assert(c.key() == seq![channel_id@]);
        }
        let mut channels: Vec<Channel> = Vec::new();
        std::mem::swap(&mut channels, &mut self.channels);
        upsert_sorted(&mut channels, c);
        self.channels = channels;
    }

    /// Records a process-event job. A job whose event id was recorded before is
    /// a duplicate and changes nothing; any other job has its id remembered and
    /// its payload applied: a message is stored under its channel and
    /// timestamp with the files it shares, and the search documents of its
    /// thread are refreshed; a reaction is stored under its channel, message,
    /// user and name; a channel update sets the name and the archive flag it
    /// carries. The thread roll-ups and cards are then rebuilt.
    pub fn record_process_event(&mut self, job: &ProcessEventJob) -> (r: StoreOutcome)
        ensures
            old(self).rollups_current() ==> final(self).rollups_current(),
            r == StoreOutcome::Inserted ==> final(self).rollups_current(),
            final(self).tables_well_formed(),
            recorded(*old(self), *job, *final(self), r),
    {
        proof {
            use_type_invariant(&*self);
        }
        if self.seen(&job.event_id) {
            return StoreOutcome::Duplicate;
        }
        self.remember(&job.event_id);
        match &job.payload {
            EventPayload::Message { user_id, text, ts, thread_ts, files } => {
                self.apply_message(&job.channel_id, user_id, text, ts, thread_ts, files);
            },
            EventPayload::ReactionAdded { user_id, reaction, item_ts } => {
                self.apply_reaction(&job.channel_id, user_id, reaction, item_ts);
                proof {
                    let x = Reaction { channel_id: job.channel_id, message_ts: *item_ts, user_id: *user_id, name: *reaction };
                    assert(x.key() == seq![job.channel_id@, item_ts@, user_id@, reaction@]);
                }
            },
            EventPayload::ChannelUpdated { name, is_archived } => {
                self.apply_channel_update(&job.channel_id, job.channel_kind, name, is_archived);
            },
        }
        self.rebuild_rollups();
        StoreOutcome::Inserted
    }
}

/// The event ids of a list of jobs.
pub open spec fn job_ids(jobs: Seq<ProcessEventJob>) -> Seq<Seq<char>> {
    jobs.map_values(|j: ProcessEventJob| j.event_id@)
}

/// What recording a backfill batch does to the recorded event ids `before`,
/// giving `after`, and what it counts: the channel job first, then the message
/// jobs, then the reaction jobs, each new id once.
pub open spec fn backfill_outcome(
    before: Set<Seq<char>>,
    channel_job: Option<ProcessEventJob>,
    message_jobs: Seq<ProcessEventJob>,
    reaction_jobs: Seq<ProcessEventJob>,
    after: Set<Seq<char>>,
    r: BackfillBatchStats,
) -> bool {
    let s1 = match channel_job {
        Some(j) => before.insert(j.event_id@),
        None => before,
    };
    let s2 = s1.union(job_ids(message_jobs).to_set());
    &&& r.messages_inserted == count_new(s1, job_ids(message_jobs))
    &&& r.messages_inserted + r.messages_duplicate == message_jobs.len()
    &&& r.reactions_inserted == count_new(s2, job_ids(reaction_jobs))
    &&& r.reactions_inserted + r.reactions_duplicate == reaction_jobs.len()
    &&& r.refreshed_threads == 0
    &&& after == s2.union(job_ids(reaction_jobs).to_set())
}

/// Ids that were all seen before are none of them new.
pub proof fn lemma_count_new_of_seen(seen: Set<Seq<char>>, ids: Seq<Seq<char>>)
    requires
        forall|i: int| 0 <= i < ids.len() ==> seen.contains(#[trigger] ids[i]),
    ensures
        count_new(seen, ids) == 0,
    decreases ids.len(),
{
    if ids.len() > 0 {
        assert(seen.insert(ids[0]) =~= seen);
        assert forall|i: int| 0 <= i < ids.skip(1).len() implies seen.contains(#[trigger] ids.skip(1)[i]) by {
            assert(ids.skip(1)[i] == ids[i + 1]);
        }
        lemma_count_new_of_seen(seen, ids.skip(1));
    }
}

/// Backfilling a batch a second time records nothing new: every message and
/// reaction job of the batch counts as a duplicate, and the recorded ids stay
/// as they were.
pub proof fn lemma_backfill_replay_is_duplicate(
    s0: Set<Seq<char>>,
    channel_job: Option<ProcessEventJob>,
    message_jobs: Seq<ProcessEventJob>,
    reaction_jobs: Seq<ProcessEventJob>,
    s1: Set<Seq<char>>,
    first: BackfillBatchStats,
    s2: Set<Seq<char>>,
    second: BackfillBatchStats,
)
    requires
        backfill_outcome(s0, channel_job, message_jobs, reaction_jobs, s1, first),
        backfill_outcome(s1, channel_job, message_jobs, reaction_jobs, s2, second),
    ensures
        second.messages_inserted == 0,
        second.messages_duplicate == message_jobs.len(),
        second.reactions_inserted == 0,
        second.reactions_duplicate == reaction_jobs.len(),
        s2 == s1,
{
    let mids = job_ids(message_jobs);
    let rids = job_ids(reaction_jobs);
    let t1 = match channel_job {
        Some(j) => s1.insert(j.event_id@),
        None => s1,
    };
    assert(t1 =~= s1);
    assert forall|i: int| 0 <= i < mids.len() implies s1.contains(#[trigger] mids[i]) by {
        assert(mids.to_set().contains(mids[i]));
    }
    lemma_count_new_of_seen(s1, mids);
    let t2 = t1.union(mids.to_set());
    assert forall|x: Seq<char>| mids.to_set().contains(x) implies s1.contains(x) by {
        let i = choose|i: int| 0 <= i < mids.len() && mids[i] == x;
        assert(s1.contains(mids[i]));
    }
    assert(t2 =~= s1);
    assert forall|i: int| 0 <= i < rids.len() implies s1.contains(#[trigger] rids[i]) by {
        assert(rids.to_set().contains(rids[i]));
    }
    lemma_count_new_of_seen(s1, rids);
    assert forall|x: Seq<char>| rids.to_set().contains(x) implies s1.contains(x) by {
        let i = choose|i: int| 0 <= i < rids.len() && rids[i] == x;
        assert(s1.contains(rids[i]));
    }
    assert(s2 =~= s1);
}

/// How many of `ids`, taken in order, are new: neither in `seen` nor earlier in
/// `ids`.
pub open spec fn count_new(seen: Set<Seq<char>>, ids: Seq<Seq<char>>) -> nat
    decreases ids.len(),
{
    if ids.len() == 0 {
        0
    } else {
        (if seen.contains(ids[0]) { 0nat } else { 1nat }) + count_new(seen.insert(ids[0]), ids.skip(1))
    }
}

/// `m` is `f` with its archive address set to `url`.
pub open spec fn archived_file(f: File, m: File, url: Seq<char>) -> bool {
    &&& m.id == f.id
    &&& m.channel_id == f.channel_id
    &&& m.message_ts == f.message_ts
    &&& m.name == f.name
    &&& m.mimetype == f.mimetype
    &&& m.size == f.size
    &&& opt_view(m.permalink) == Some(url)
}

/// The newest timestamp of the messages of channel `ch`, if it has any: the
/// timestamp of one of them that no other one's exceeds.
pub open spec fn is_latest_ts(msgs: Seq<Message>, ch: Seq<char>, r: Option<String>) -> bool {
    match r {
        None => forall|i: int| 0 <= i < msgs.len() ==> #[trigger] msgs[i].channel_id@ != ch,
        Some(t) => {
            &&& exists|i: int| 0 <= i < msgs.len() && #[trigger] msgs[i].channel_id@ == ch && msgs[i].ts == t
            &&& forall|j: int| 0 <= j < msgs.len() && #[trigger] msgs[j].channel_id@ == ch ==> !str_lt(t@, msgs[j].ts@)
        },
    }
}

impl InMemoryEventStore {
    /// The stored messages, ordered by channel and timestamp.
    pub fn messages(&self) -> (r: Vec<Message>)
        ensures
            r@ == self.spec_messages(),
            sorted_by_key(r@),
    {
        proof {
            use_type_invariant(self);
        }
        let r = self.messages.clone();
        proof {
            assert(r@ =~= self.messages@);
        }
        r
    }

    /// The stored reactions, ordered by channel, message, user and name.
    pub fn reactions(&self) -> (r: Vec<Reaction>)
        ensures
            r@ == self.spec_reactions(),
            sorted_by_key(r@),
    {
        proof {
            use_type_invariant(self);
        }
        let r = self.reactions.clone();
        proof {
            assert(r@ =~= self.reactions@);
        }
        r
    }

    /// The stored files, ordered by channel, message and id.
    pub fn files(&self) -> (r: Vec<File>)
        ensures
            r@ == self.spec_files(),
            sorted_by_key(r@),
    {
        proof {
            use_type_invariant(self);
        }
        let r = self.files.clone();
        proof {
            assert(r@ =~= self.files@);
        }
        r
    }

    /// The stored channels, ordered by id.
    pub fn channels(&self) -> (r: Vec<Channel>)
        ensures
            r@ == self.spec_channels(),
            sorted_by_key(r@),
    {
        proof {
            use_type_invariant(self);
        }
        let r = self.channels.clone();
        proof {
            assert(r@ =~= self.channels@);
        }
        r
    }

    /// The stored search documents, ordered by channel and message.
    pub fn search_documents(&self) -> (r: Vec<SearchDocumentRow>)
        ensures
            r@.to_multiset() == self.spec_search_documents().to_multiset(),
            sorted_by_key_le(r@),
    {
        let docs = self.search_documents.clone();
        proof {
            assert(docs@ =~= self.search_documents@);
        }
        sort_by_key(docs)
    }

    /// The thread roll-ups, one per root message, ordered by channel and root.
    pub fn thread_summaries(&self) -> (r: Vec<ThreadSummaryRow>)
        requires
            self.rollups_current(),
        ensures
            r@ == self.spec_thread_summaries(),
            thread_summaries_of(r@, self.spec_messages(), self.spec_reactions(), self.spec_files()),
    {
        let r = self.thread_summaries.clone();
        proof {
            assert(r@ =~= self.thread_summaries@);
        }
        r
    }

    /// The thread cards, ordered by channel and root.
    pub fn thread_cards(&self) -> (r: Vec<ThreadCardRow>)
        requires
            self.rollups_current(),
        ensures
            r@ == self.spec_thread_cards(),
            thread_cards_of(r@, self.spec_messages(), self.spec_thread_summaries()),
    {
        let r = self.thread_cards.clone();
        proof {
            assert(r@ =~= self.thread_cards@);
        }
        r
    }

    /// The model-written summaries, ordered by channel and root.
    pub fn generated_thread_summaries(&self) -> (r: Vec<GeneratedThreadSummaryRow>)
        ensures
            r@.len() == self.spec_generated().len(),
            forall|i: int| 0 <= i < r@.len() ==> generated_copy(#[trigger] r@[i], self.spec_generated()[i]),
            sorted_by_key(r@),
    {
        proof {
            use_type_invariant(self);
        }
        let mut out: Vec<GeneratedThreadSummaryRow> = Vec::new();
        let mut i: usize = 0;
        while i < self.generated_thread_summaries.len()
            invariant
                i <= self.generated_thread_summaries@.len(),
                out@.len() == i,
                forall|j: int| 0 <= j < i ==> generated_copy(#[trigger] out@[j], self.generated_thread_summaries@[j]),
            decreases self.generated_thread_summaries@.len() - i,
        {
            out.push(self.generated_thread_summaries[i].clone());
            i = i + 1;
        }
        proof {
            assert forall|a: int, b: int| 0 <= a < b < out@.len() implies crate::ordered::key_lt(
                #[trigger] out@[a].key(),
                #[trigger] out@[b].key(),
            ) by {
                assert(out@[a].key() == self.generated_thread_summaries@[a].key());
                assert(out@[b].key() == self.generated_thread_summaries@[b].key());
            }
        }
        out
    }
}

impl InMemoryEventStore {
    /// The newest timestamp among the messages of `channel_id`.
    pub fn latest_message_ts(&self, channel_id: &str) -> (r: Option<String>)
        ensures
            is_latest_ts(self.spec_messages(), channel_id@, r),
    {
        let msgs = &self.messages;
        let mut best: Option<usize> = None;
        let mut i: usize = 0;
        while i < msgs.len()
            invariant
                i <= msgs.len(),
                msgs == &self.messages,
                match best {
                    None => forall|j: int| 0 <= j < i ==> #[trigger] msgs@[j].channel_id@ != channel_id@,
                    Some(b) => {
                        &&& b < i
                        &&& msgs@[b as int].channel_id@ == channel_id@
                        &&& forall|j: int| 0 <= j < i && #[trigger] msgs@[j].channel_id@ == channel_id@
                            ==> !str_lt(msgs@[b as int].ts@, msgs@[j].ts@)
                    },
                },
            decreases msgs.len() - i,
        {
            if str_eq(msgs[i].channel_id.as_str(), channel_id) {
                match best {
                    None => {
                        proof {
                            crate::ordered::lemma_str_lt_irreflexive(msgs@[i as int].ts@);
                        }
                        best = Some(i);
                    },
                    Some(b) => {
                        let cb = chars_of(msgs[b].ts.as_str());
                        let ci = chars_of(msgs[i].ts.as_str());
                        match compare_chars(&cb, &ci) {
                            KeyOrder::Less => {
                                proof {
                                    crate::ordered::lemma_str_lt_irreflexive(msgs@[i as int].ts@);
                                    assert forall|j: int| 0 <= j < i + 1 && #[trigger] msgs@[j].channel_id@ == channel_id@
                                        implies !str_lt(msgs@[i as int].ts@, msgs@[j].ts@) by {
                                        if j < i {
                                            crate::ordered::lemma_str_lt_transitive(msgs@[b as int].ts@, msgs@[i as int].ts@, msgs@[j].ts@);
                                        }
                                    }
                                }
                                best = Some(i);
                            },
                            _ => {
                                proof {
                                    crate::ordered::lemma_str_lt_asymmetric(msgs@[i as int].ts@, msgs@[b as int].ts@);
                                    crate::ordered::lemma_str_lt_irreflexive(msgs@[b as int].ts@);
                                }
                            },
                        }
                    },
                }
            }
            i = i + 1;
        }
        match best {
            None => None,
            Some(b) => {
                let t = msgs[b].ts.clone();
                proof {
                    assert(msgs@[b as int].channel_id@ == channel_id@ && msgs@[b as int].ts == t);
                }
                Some(t)
            },
        }
    }

    /// Rebuilds the thread roll-ups and cards from the stored messages,
    /// reactions and files, and gives the number of threads.
    pub fn refresh_thread_summaries(&mut self) -> (r: usize)
        ensures
            final(self).well_formed(),
            r == final(self).spec_thread_summaries().len(),
            r == crate::thread_summary::roots(final(self).spec_messages()).len(),
            final(self).spec_events() == old(self).spec_events(),
            final(self).spec_messages() == old(self).spec_messages(),
            final(self).spec_files() == old(self).spec_files(),
            final(self).spec_channels() == old(self).spec_channels(),
            final(self).spec_reactions() == old(self).spec_reactions(),
            final(self).spec_search_documents() == old(self).spec_search_documents(),
            final(self).spec_generated() == old(self).spec_generated(),
    {
        proof {
            use_type_invariant(&*self);
        }
        self.rebuild_rollups();
        self.thread_summaries.len()
    }

    /// Points every stored file with id `file_id` at its archived copy.
    pub fn set_file_archive(&mut self, file_id: &str, storage_key: &str, storage_url: &str)
        ensures
            final(self).well_formed(),
            final(self).spec_files().len() == old(self).spec_files().len(),
            forall|i: int| 0 <= i < old(self).spec_files().len() ==> if #[trigger] old(self).spec_files()[i].id@ == file_id@ {
                archived_file(old(self).spec_files()[i], final(self).spec_files()[i], storage_url@)
            } else {
                final(self).spec_files()[i] == old(self).spec_files()[i]
            },
            final(self).spec_events() == old(self).spec_events(),
            final(self).spec_messages() == old(self).spec_messages(),
            final(self).spec_channels() == old(self).spec_channels(),
            final(self).spec_reactions() == old(self).spec_reactions(),
            final(self).spec_search_documents() == old(self).spec_search_documents(),
            final(self).spec_generated() == old(self).spec_generated(),
    {
        proof {
            use_type_invariant(&*self);
        }
        let ghost s = *self;
        let mut stored: Vec<File> = Vec::new();
        std::mem::swap(&mut stored, &mut self.files);
        let mut i: usize = 0;
        while i < stored.len()
            invariant
                i <= stored.len(),
                stored@.len() == s.files@.len(),
                forall|j: int| 0 <= j < s.files@.len() ==> (#[trigger] stored@[j]).key() == s.files@[j].key(),
                forall|j: int| 0 <= j < i ==> if #[trigger] s.files@[j].id@ == file_id@ {
                    archived_file(s.files@[j], stored@[j], storage_url@)
                } else {
                    stored@[j] == s.files@[j]
                },
                forall|j: int| i <= j < s.files@.len() ==> #[trigger] stored@[j] == s.files@[j],
            decreases stored.len() - i,
        {
            if str_eq(stored[i].id.as_str(), file_id) {
                let f = stored[i].clone();
                let m = File {
                    id: f.id,
                    channel_id: f.channel_id,
                    message_ts: f.message_ts,
                    name: f.name,
                    mimetype: f.mimetype,
                    permalink: Some(storage_url.to_owned()),
                    size: f.size,
                };
                stored.set(i, m);
            }
            i = i + 1;
        }
        proof {
            assert(sorted_by_key(stored@)) by {
                assert forall|a: int, b: int| 0 <= a < b < stored@.len() implies crate::ordered::key_lt(
                    #[trigger] stored@[a].key(),
                    #[trigger] stored@[b].key(),
                ) by {
                    assert(stored@[a].key() == s.files@[a].key());
                    assert(stored@[b].key() == s.files@[b].key());
                }
            }
        }
        self.files = stored;
        let _ = storage_key;
        self.rebuild_rollups();
    }
}

impl InMemoryEventStore {
    /// Stores a model-written summary under its channel and root, replacing
    /// the one stored there before.
    pub fn upsert_generated_thread_summary(&mut self, row: &GeneratedThreadSummaryRow)
        ensures
            final(self).tables_well_formed(),
            key_map(final(self).spec_generated()).dom() == key_map(old(self).spec_generated()).dom().insert(row.key()),
            generated_copy(key_map(final(self).spec_generated())[row.key()], *row),
            forall|k: Seq<Seq<char>>| k != row.key() && #[trigger] key_map(old(self).spec_generated()).dom().contains(k)
                ==> key_map(final(self).spec_generated())[k] == key_map(old(self).spec_generated())[k],
            final(self).spec_events() == old(self).spec_events(),
            final(self).spec_messages() == old(self).spec_messages(),
            final(self).spec_files() == old(self).spec_files(),
            final(self).spec_channels() == old(self).spec_channels(),
            final(self).spec_reactions() == old(self).spec_reactions(),
            final(self).spec_search_documents() == old(self).spec_search_documents(),
            final(self).spec_thread_summaries() == old(self).spec_thread_summaries(),
            final(self).spec_thread_cards() == old(self).spec_thread_cards(),
    {
        proof {
            use_type_invariant(&*self);
        }
        let x = row.clone();
        proof {
            assert(x.key() == row.key());
        }
        let mut generated: Vec<GeneratedThreadSummaryRow> = Vec::new();
        std::mem::swap(&mut generated, &mut self.generated_thread_summaries);
        upsert_sorted(&mut generated, x);
        self.generated_thread_summaries = generated;
    }

    /// Applies a job read back from the event log: its id is remembered and its
    /// payload applied, whether or not the id was seen before; the roll-ups are
    /// left to `refresh_thread_summaries`.
    pub fn replay_job(&mut self, job: &ProcessEventJob)
        ensures
            final(self).tables_well_formed(),
            final(self).spec_events().to_set() == old(self).spec_events().to_set().insert(job.event_id@),
            applied(*old(self), *job, *final(self)),
    {
        proof {
            use_type_invariant(&*self);
        }
        let ghost s = *self;
        if !self.seen(&job.event_id) {
            self.remember(&job.event_id);
        }
        proof {
            lemma_push_to_set(s.spec_events(), job.event_id@);
            assert(self.spec_events().to_set() =~= s.spec_events().to_set().insert(job.event_id@));
        }
        match &job.payload {
            EventPayload::Message { user_id, text, ts, thread_ts, files } => {
                self.apply_message(&job.channel_id, user_id, text, ts, thread_ts, files);
            },
            EventPayload::ReactionAdded { user_id, reaction, item_ts } => {
                self.apply_reaction(&job.channel_id, user_id, reaction, item_ts);
                proof {
                    let x = Reaction { channel_id: job.channel_id, message_ts: *item_ts, user_id: *user_id, name: *reaction };
                    assert(x.key() == seq![job.channel_id@, item_ts@, user_id@, reaction@]);
                }
            },
            EventPayload::ChannelUpdated { name, is_archived } => {
                self.apply_channel_update(&job.channel_id, job.channel_kind, name, is_archived);
            },
        }
    }

    /// Records a backfilled channel: the channel job first, then the message
    /// jobs, then the reaction jobs, each as `record_process_event` does, and
    /// counts the new and the duplicate message and reaction jobs.
    pub fn backfill_channel_jobs(
        &mut self,
        channel_job: Option<&ProcessEventJob>,
        message_jobs: &[ProcessEventJob],
        reaction_jobs: &[ProcessEventJob],
    ) -> (r: BackfillBatchStats)
        requires
            old(self).rollups_current(),
        ensures
            final(self).well_formed(),
            backfill_outcome(
                old(self).spec_events().to_set(),
                match channel_job {
                    Some(j) => Some(*j),
                    None => None,
                },
                message_jobs@,
                reaction_jobs@,
                final(self).spec_events().to_set(),
                r,
            ),
    {
        proof {
            use_type_invariant(&*self);
        }
        let mut stats = BackfillBatchStats::default();
        let ghost s0 = self.spec_events().to_set();
        match channel_job {
            Some(job) => {
                let _ = self.record_process_event(job);
                proof {
                    lemma_push_to_set(old(self).spec_events(), job.event_id@);
                }
            },
            None => {},
        }
        proof {
            assert(self.spec_events().to_set() =~= (match channel_job {
                Some(j) => s0.insert(j.event_id@),
                None => s0,
            }));
        }
        let ghost s1 = self.spec_events().to_set();
        let mut i: usize = 0;
        proof {
            assert(job_ids(message_jobs@).skip(0) =~= job_ids(message_jobs@));
            assert(job_ids(message_jobs@).take(0).to_set() =~= Set::<Seq<char>>::empty());
            assert(s1.union(Set::<Seq<char>>::empty()) =~= s1);
        }
        while i < message_jobs.len()
            invariant
                i <= message_jobs@.len(),
                self.well_formed(),
                self.spec_events().to_set() == s1.union(job_ids(message_jobs@).take(i as int).to_set()),
                stats.messages_inserted + count_new(self.spec_events().to_set(), job_ids(message_jobs@).skip(i as int))
                    == count_new(s1, job_ids(message_jobs@)),
                stats.messages_inserted + stats.messages_duplicate == i,
                stats.reactions_inserted == 0,
                stats.reactions_duplicate == 0,
                stats.refreshed_threads == 0,
            decreases message_jobs@.len() - i,
        {
            let ghost before = self.spec_events().to_set();
            let ghost ids = job_ids(message_jobs@);
            let ghost ev = self.spec_events();
            let outcome = self.record_process_event(&message_jobs[i]);
            proof {
                lemma_push_to_set(ev, ids[i as int]);
                lemma_count_new_step(before, ids, i as int);
                lemma_events_step(before, ids, i as int, s1);
                if before.contains(ids[i as int]) {
                    assert(self.spec_events().to_set() =~= before);
                } else {
                    assert(self.spec_events().to_set() =~= before.insert(ids[i as int]));
                }
            }
            match outcome {
                StoreOutcome::Inserted => {
                    stats.messages_inserted = stats.messages_inserted + 1;
                },
                StoreOutcome::Duplicate => {
                    stats.messages_duplicate = stats.messages_duplicate + 1;
                },
            }
            i = i + 1;
        }
        proof {
            assert(job_ids(message_jobs@).take(message_jobs@.len() as int) =~= job_ids(message_jobs@));
            assert(job_ids(message_jobs@).skip(message_jobs@.len() as int) =~= Seq::<Seq<char>>::empty());
        }
        let ghost s2 = self.spec_events().to_set();
        let mut k: usize = 0;
        proof {
            assert(job_ids(reaction_jobs@).skip(0) =~= job_ids(reaction_jobs@));
            assert(job_ids(reaction_jobs@).take(0).to_set() =~= Set::<Seq<char>>::empty());
            assert(s2.union(Set::<Seq<char>>::empty()) =~= s2);
        }
        while k < reaction_jobs.len()
            invariant
                k <= reaction_jobs@.len(),
                self.well_formed(),
                self.spec_events().to_set() == s2.union(job_ids(reaction_jobs@).take(k as int).to_set()),
                stats.reactions_inserted + count_new(self.spec_events().to_set(), job_ids(reaction_jobs@).skip(k as int))
                    == count_new(s2, job_ids(reaction_jobs@)),
                stats.reactions_inserted + stats.reactions_duplicate == k,
                stats.messages_inserted == count_new(s1, job_ids(message_jobs@)),
                stats.messages_inserted + stats.messages_duplicate == message_jobs@.len(),
                stats.refreshed_threads == 0,
            decreases reaction_jobs@.len() - k,
        {
            let ghost before = self.spec_events().to_set();
            let ghost ids = job_ids(reaction_jobs@);
            let ghost ev = self.spec_events();
            let outcome = self.record_process_event(&reaction_jobs[k]);
            proof {
                lemma_push_to_set(ev, ids[k as int]);
                lemma_count_new_step(before, ids, k as int);
                lemma_events_step(before, ids, k as int, s2);
                if before.contains(ids[k as int]) {
                    assert(self.spec_events().to_set() =~= before);
                } else {
                    assert(self.spec_events().to_set() =~= before.insert(ids[k as int]));
                }
            }
            match outcome {
                StoreOutcome::Inserted => {
                    stats.reactions_inserted = stats.reactions_inserted + 1;
                },
                StoreOutcome::Duplicate => {
                    stats.reactions_duplicate = stats.reactions_duplicate + 1;
                },
            }
            k = k + 1;
        }
        proof {
            assert(job_ids(reaction_jobs@).take(reaction_jobs@.len() as int) =~= job_ids(reaction_jobs@));
        }
        stats
    }
}

/// Pushing onto a sequence inserts into its set of elements.
pub proof fn lemma_push_to_set(v: Seq<Seq<char>>, x: Seq<char>)
    ensures
        v.push(x).to_set() == v.to_set().insert(x),
{
    assert forall|y: Seq<char>| v.push(x).to_set().contains(y) <==> v.to_set().insert(x).contains(y) by {
        if v.push(x).contains(y) {
            let j = choose|j: int| 0 <= j < v.push(x).len() && v.push(x)[j] == y;
            if j < v.len() {
                assert(v[j] == y);
            }
        }
        if v.contains(y) {
            let j = choose|j: int| 0 <= j < v.len() && v[j] == y;
            assert(v.push(x)[j] == y);
        }
        if y == x {
            assert(v.push(x)[v.len() as int] == y);
        }
    }
    assert(v.push(x).to_set() =~= v.to_set().insert(x));
}

/// One step of `count_new`: the id at `i` counts when it is not yet seen.
proof fn lemma_count_new_step(seen: Set<Seq<char>>, ids: Seq<Seq<char>>, i: int)
    requires
        0 <= i < ids.len(),
    ensures
        count_new(seen, ids.skip(i)) == (if seen.contains(ids[i]) { 0nat } else { 1nat })
            + count_new(seen.insert(ids[i]), ids.skip(i + 1)),
        seen.contains(ids[i]) ==> seen.insert(ids[i]) == seen,
{
    assert(ids.skip(i)[0] == ids[i]);
    assert(ids.skip(i).skip(1) =~= ids.skip(i + 1));
    if seen.contains(ids[i]) {
        assert(seen.insert(ids[i]) =~= seen);
    }
}

/// Seeing the id at `i` extends the seen prefix by one.
proof fn lemma_events_step(before: Set<Seq<char>>, ids: Seq<Seq<char>>, i: int, base: Set<Seq<char>>)
    requires
        0 <= i < ids.len(),
        before == base.union(ids.take(i).to_set()),
    ensures
        before.insert(ids[i]) == base.union(ids.take(i + 1).to_set()),
{
    assert(ids.take(i + 1) =~= ids.take(i).push(ids[i]));
    lemma_push_to_set(ids.take(i), ids[i]);
    assert(before.insert(ids[i]) =~= base.union(ids.take(i + 1).to_set()));
}

/// Recording the same job twice: the second recording is a duplicate and
/// leaves the store as the first one left it.
pub proof fn lemma_record_twice_is_duplicate(
    s0: InMemoryEventStore,
    s1: InMemoryEventStore,
    s2: InMemoryEventStore,
    job: ProcessEventJob,
    o1: StoreOutcome,
    o2: StoreOutcome,
)
    requires
        recorded(s0, job, s1, o1),
        recorded(s1, job, s2, o2),
    ensures
        o2 == StoreOutcome::Duplicate,
        s2 == s1,
{
    if !s0.has_seen(job.event_id@) {
        assert(s1.spec_events()[s0.spec_events().len() as int] == job.event_id@);
    }
}

/// The tables of two stores hold the same rows: the same event ids; the same
/// files, reactions and channels under each key; and under each key the same
/// message, field for field.
pub open spec fn same_tables(t: InMemoryEventStore, u: InMemoryEventStore) -> bool {
    &&& t.spec_events().to_set() == u.spec_events().to_set()
    &&& key_map(t.spec_files()) == key_map(u.spec_files())
    &&& key_map(t.spec_reactions()) == key_map(u.spec_reactions())
    &&& key_map(t.spec_channels()) == key_map(u.spec_channels())
    &&& key_map(t.spec_messages()).dom() == key_map(u.spec_messages()).dom()
    &&& forall|k: Seq<Seq<char>>| #[trigger] key_map(t.spec_messages()).dom().contains(k)
        ==> same_message(key_map(t.spec_messages())[k], key_map(u.spec_messages())[k])
}

/// What `replay_job` does: `job`'s id is remembered and its payload applied.
pub open spec fn replayed(s: InMemoryEventStore, job: ProcessEventJob, u: InMemoryEventStore) -> bool {
    &&& applied(s, job, u)
    &&& u.spec_events().to_set() == s.spec_events().to_set().insert(job.event_id@)
}

/// Stores with the same key maps hold the same entry under every key.
proof fn lemma_entry_of_same_key_map<T: Keyed>(a: Seq<T>, b: Seq<T>, k: Seq<Seq<char>>)
    requires
        key_map(a) == key_map(b),
    ensures
        crate::ordered::entry(a, k) == crate::ordered::entry(b, k),
{
    assert(key_map(a).dom().contains(k) == crate::ordered::has_key(a, k));
    assert(key_map(b).dom().contains(k) == crate::ordered::has_key(b, k));
    if crate::ordered::has_key(a, k) {
        assert(key_map(a)[k] == crate::ordered::entry(a, k).unwrap());
        assert(key_map(b)[k] == crate::ordered::entry(b, k).unwrap());
    }
}

/// One step of replaying the log: a new event recorded into `s` and the same
/// event replayed into a store `r` with the same tables leave stores with the
/// same tables.
proof fn lemma_replay_step_keeps_tables(
    s: InMemoryEventStore,
    r: InMemoryEventStore,
    job: ProcessEventJob,
    t: InMemoryEventStore,
    u: InMemoryEventStore,
)
    requires
        same_tables(s, r),
        recorded(s, job, t, StoreOutcome::Inserted),
        replayed(r, job, u),
    ensures
        same_tables(t, u),
{
    lemma_push_to_set(s.spec_events(), job.event_id@);
    match job.payload {
        EventPayload::Message { user_id, text, ts, thread_ts, files } => {
            let k = seq![job.channel_id@, ts@];
            assert(key_map(t.spec_messages()).dom() =~= key_map(u.spec_messages()).dom());
            assert forall|q: Seq<Seq<char>>| #[trigger] key_map(t.spec_messages()).dom().contains(q)
                implies same_message(key_map(t.spec_messages())[q], key_map(u.spec_messages())[q]) by {
                if q != k {
                    assert(key_map(t.spec_messages())[q] == key_map(s.spec_messages())[q]);
                    assert(key_map(u.spec_messages())[q] == key_map(r.spec_messages())[q]);
                    assert(key_map(s.spec_messages()).dom().contains(q));
                }
            }
        },
        EventPayload::ReactionAdded { .. } => {},
        EventPayload::ChannelUpdated { .. } => {
            lemma_entry_of_same_key_map(s.spec_channels(), r.spec_channels(), seq![job.channel_id@]);
        },
    }
}

/// Replaying jobs gives back the tables that recording them built: when the
/// jobs of `jobs` were recorded as new events one after the other
/// (`recorded_states`), and the same jobs are replayed in the same order
/// (`replayed_states`) from a store with the same tables (as two empty stores
/// are), the last stores hold the same event ids, messages, files, reactions
/// and channels.
pub proof fn lemma_log_replay_gives_back_recorded_tables(
    jobs: Seq<ProcessEventJob>,
    recorded_states: Seq<InMemoryEventStore>,
    replayed_states: Seq<InMemoryEventStore>,
)
    requires
        recorded_states.len() == jobs.len() + 1,
        replayed_states.len() == jobs.len() + 1,
        same_tables(recorded_states[0], replayed_states[0]),
        forall|i: int| 0 <= i < jobs.len() ==> recorded(
            recorded_states[i],
            #[trigger] jobs[i],
            recorded_states[i + 1],
            StoreOutcome::Inserted,
        ),
        forall|i: int| 0 <= i < jobs.len() ==> replayed(replayed_states[i], #[trigger] jobs[i], replayed_states[i + 1]),
    ensures
        same_tables(recorded_states.last(), replayed_states.last()),
    decreases jobs.len(),
{
    if jobs.len() > 0 {
        let n = jobs.len() - 1;
        lemma_log_replay_gives_back_recorded_tables(
            jobs.take(n),
            recorded_states.take(n + 1),
            replayed_states.take(n + 1),
        );
        assert(jobs[n] == jobs[n]);
        lemma_replay_step_keeps_tables(
            recorded_states[n],
            replayed_states[n],
            jobs[n],
            recorded_states[n + 1],
            replayed_states[n + 1],
        );
    }
}

/// Replaying jobs gives back the search documents that recording them built:
/// under the conditions of `lemma_log_replay_gives_back_recorded_tables`, with
/// well-formed tables at every step and the same documents to start with (as
/// two empty stores have), the last stores hold the same documents.
proof fn lemma_log_replay_gives_back_recorded_documents(
    jobs: Seq<ProcessEventJob>,
    recorded_states: Seq<InMemoryEventStore>,
    replayed_states: Seq<InMemoryEventStore>,
)
    requires
        recorded_states.len() == jobs.len() + 1,
        replayed_states.len() == jobs.len() + 1,
        same_tables(recorded_states[0], replayed_states[0]),
        same_documents(recorded_states[0].spec_search_documents(), replayed_states[0].spec_search_documents()),
        forall|i: int| 0 <= i < jobs.len() ==> recorded(
            recorded_states[i],
            #[trigger] jobs[i],
            recorded_states[i + 1],
            StoreOutcome::Inserted,
        ),
        forall|i: int| 0 <= i < jobs.len() ==> replayed(replayed_states[i], #[trigger] jobs[i], replayed_states[i + 1]),
        forall|i: int| 0 <= i < recorded_states.len() ==> (#[trigger] recorded_states[i]).tables_well_formed(),
        forall|i: int| 0 <= i < replayed_states.len() ==> (#[trigger] replayed_states[i]).tables_well_formed(),
    ensures
        same_documents(recorded_states.last().spec_search_documents(), replayed_states.last().spec_search_documents()),
    decreases jobs.len(),
{
    if jobs.len() > 0 {
        let n = jobs.len() - 1;
        let (rec, rep) = (recorded_states.take(n + 1), replayed_states.take(n + 1));
        assert forall|i: int| 0 <= i < rec.len() implies (#[trigger] rec[i]).tables_well_formed() by {
            assert(rec[i] == recorded_states[i]);
        }
        assert forall|i: int| 0 <= i < rep.len() implies (#[trigger] rep[i]).tables_well_formed() by {
            assert(rep[i] == replayed_states[i]);
        }
        lemma_log_replay_gives_back_recorded_documents(jobs.take(n), rec, rep);
        lemma_log_replay_gives_back_recorded_tables(jobs, recorded_states, replayed_states);
        let (s, r, t, u) = (recorded_states[n], replayed_states[n], recorded_states[n + 1], replayed_states[n + 1]);
        assert(jobs[n] == jobs[n]);
        assert(t.tables_well_formed() && u.tables_well_formed());
        lemma_same_tables_same_lists(t, u);
        match jobs[n].payload {
            EventPayload::Message { ts, thread_ts, .. } => {
                crate::search_index::lemma_refreshed_documents_same(
                    s.spec_search_documents(),
                    t.spec_search_documents(),
                    r.spec_search_documents(),
                    u.spec_search_documents(),
                    t.spec_messages(),
                    u.spec_messages(),
                    jobs[n].channel_id@,
                    thread_root(ts@, thread_ts),
                );
            },
            _ => {},
        }
    }
}

/// Stores with the same well-formed tables list the same messages at the same
/// positions, and the same reactions and files.
proof fn lemma_same_tables_same_lists(t: InMemoryEventStore, u: InMemoryEventStore)
    requires
        same_tables(t, u),
        t.tables_well_formed(),
        u.tables_well_formed(),
    ensures
        crate::thread_summary::same_messages(t.spec_messages(), u.spec_messages()),
        t.spec_reactions() == u.spec_reactions(),
        t.spec_files() == u.spec_files(),
        t.spec_channels() == u.spec_channels(),
        t.spec_events().len() == u.spec_events().len(),
{
    t.spec_events().unique_seq_to_set();
    u.spec_events().unique_seq_to_set();
    let (tc, uc) = (t.spec_channels(), u.spec_channels());
    assert forall|k: Seq<Seq<char>>| crate::ordered::has_key(tc, k) <==> crate::ordered::has_key(uc, k) by {
        assert(key_map(tc).dom().contains(k) == crate::ordered::has_key(tc, k));
        assert(key_map(uc).dom().contains(k) == crate::ordered::has_key(uc, k));
    }
    crate::ordered::lemma_sorted_same_keys_aligned(tc, uc);
    assert forall|i: int| 0 <= i < tc.len() implies tc[i] == uc[i] by {
        assert(tc.contains(tc[i]));
        assert(uc.contains(uc[i]));
        crate::ordered::lemma_entry_of_member(tc, tc[i]);
        crate::ordered::lemma_entry_of_member(uc, uc[i]);
        assert(key_map(tc)[tc[i].key()] == key_map(uc)[uc[i].key()]);
    }
    assert(tc =~= uc);
    let (tm, um) = (t.spec_messages(), u.spec_messages());
    assert forall|k: Seq<Seq<char>>| crate::ordered::has_key(tm, k) <==> crate::ordered::has_key(um, k) by {
        assert(key_map(tm).dom().contains(k) == crate::ordered::has_key(tm, k));
        assert(key_map(um).dom().contains(k) == crate::ordered::has_key(um, k));
    }
    crate::ordered::lemma_sorted_same_keys_aligned(tm, um);
    assert forall|i: int| 0 <= i < tm.len() implies same_message(#[trigger] tm[i], um[i]) by {
        let k = tm[i].key();
        assert(tm.contains(tm[i]));
        assert(um.contains(um[i]));
        crate::ordered::lemma_entry_of_member(tm, tm[i]);
        crate::ordered::lemma_entry_of_member(um, um[i]);
        assert(key_map(tm).dom().contains(k));
    }
    let (tr, ur) = (t.spec_reactions(), u.spec_reactions());
    assert forall|k: Seq<Seq<char>>| crate::ordered::has_key(tr, k) <==> crate::ordered::has_key(ur, k) by {
        assert(key_map(tr).dom().contains(k) == crate::ordered::has_key(tr, k));
        assert(key_map(ur).dom().contains(k) == crate::ordered::has_key(ur, k));
    }
    crate::ordered::lemma_sorted_same_keys_aligned(tr, ur);
    assert forall|i: int| 0 <= i < tr.len() implies tr[i] == ur[i] by {
        assert(tr.contains(tr[i]));
        assert(ur.contains(ur[i]));
        crate::ordered::lemma_entry_of_member(tr, tr[i]);
        crate::ordered::lemma_entry_of_member(ur, ur[i]);
        assert(key_map(tr)[tr[i].key()] == key_map(ur)[ur[i].key()]);
    }
    assert(tr =~= ur);
    let (tf, uf) = (t.spec_files(), u.spec_files());
    assert forall|k: Seq<Seq<char>>| crate::ordered::has_key(tf, k) <==> crate::ordered::has_key(uf, k) by {
        assert(key_map(tf).dom().contains(k) == crate::ordered::has_key(tf, k));
        assert(key_map(uf).dom().contains(k) == crate::ordered::has_key(uf, k));
    }
    crate::ordered::lemma_sorted_same_keys_aligned(tf, uf);
    assert forall|i: int| 0 <= i < tf.len() implies tf[i] == uf[i] by {
        assert(tf.contains(tf[i]));
        assert(uf.contains(uf[i]));
        crate::ordered::lemma_entry_of_member(tf, tf[i]);
        crate::ordered::lemma_entry_of_member(uf, uf[i]);
        assert(key_map(tf)[tf[i].key()] == key_map(uf)[uf[i].key()]);
    }
    assert(tf =~= uf);
}

/// Two stores hold the same roll-ups and cards, row by row.
pub open spec fn same_rollups(t: InMemoryEventStore, u: InMemoryEventStore) -> bool {
    &&& crate::thread_card::same_summaries(t.spec_thread_summaries(), u.spec_thread_summaries())
    &&& t.spec_thread_cards().len() == u.spec_thread_cards().len()
    &&& forall|k: int| 0 <= k < t.spec_thread_cards().len() ==> crate::thread_card::card_view(#[trigger] t.spec_thread_cards()[k])
        == crate::thread_card::card_view(u.spec_thread_cards()[k])
}

/// Replaying the event log and rebuilding the roll-ups gives back the state
/// that recording built: when the jobs of `jobs` were recorded as new events
/// one after the other (`recorded_states`), the same jobs are replayed in the
/// same order (`replayed_states`) from a store with the same tables (as two
/// empty stores are), and the roll-ups of the last replayed store are rebuilt
/// (`rebuilt`, as `refresh_thread_summaries` leaves it), then `rebuilt` holds
/// the same event ids, messages, files, reactions, channels, search documents,
/// thread roll-ups and thread cards as the last recorded store, listed in the
/// same order, and so reports the same health counts. Each store
/// along the way has well-formed tables, as `record_process_event` and
/// `replay_job` leave them.
pub proof fn lemma_log_replay_gives_back_recorded_state(
    jobs: Seq<ProcessEventJob>,
    recorded_states: Seq<InMemoryEventStore>,
    replayed_states: Seq<InMemoryEventStore>,
    rebuilt: InMemoryEventStore,
)
    requires
        recorded_states.len() == jobs.len() + 1,
        replayed_states.len() == jobs.len() + 1,
        same_tables(recorded_states[0], replayed_states[0]),
        forall|i: int| 0 <= i < jobs.len() ==> recorded(
            recorded_states[i],
            #[trigger] jobs[i],
            recorded_states[i + 1],
            StoreOutcome::Inserted,
        ),
        forall|i: int| 0 <= i < jobs.len() ==> replayed(replayed_states[i], #[trigger] jobs[i], replayed_states[i + 1]),
        same_documents(recorded_states[0].spec_search_documents(), replayed_states[0].spec_search_documents()),
        forall|i: int| 0 <= i < recorded_states.len() ==> (#[trigger] recorded_states[i]).tables_well_formed(),
        forall|i: int| 0 <= i < replayed_states.len() ==> (#[trigger] replayed_states[i]).tables_well_formed(),
        recorded_states.last().well_formed(),
        rebuilt.well_formed(),
        rebuilt.spec_events() == replayed_states.last().spec_events(),
        rebuilt.spec_messages() == replayed_states.last().spec_messages(),
        rebuilt.spec_files() == replayed_states.last().spec_files(),
        rebuilt.spec_channels() == replayed_states.last().spec_channels(),
        rebuilt.spec_reactions() == replayed_states.last().spec_reactions(),
        rebuilt.spec_search_documents() == replayed_states.last().spec_search_documents(),
    ensures
        same_tables(recorded_states.last(), rebuilt),
        rebuilt.spec_events().len() == recorded_states.last().spec_events().len(),
        crate::thread_summary::same_messages(recorded_states.last().spec_messages(), rebuilt.spec_messages()),
        rebuilt.spec_files() == recorded_states.last().spec_files(),
        rebuilt.spec_reactions() == recorded_states.last().spec_reactions(),
        rebuilt.spec_channels() == recorded_states.last().spec_channels(),
        same_documents(recorded_states.last().spec_search_documents(), rebuilt.spec_search_documents()),
        same_rollups(recorded_states.last(), rebuilt),
{
    lemma_log_replay_gives_back_recorded_tables(jobs, recorded_states, replayed_states);
    lemma_log_replay_gives_back_recorded_documents(jobs, recorded_states, replayed_states);
    let t = recorded_states.last();
    lemma_same_tables_same_lists(t, rebuilt);
    crate::thread_summary::lemma_thread_summaries_same(
        t.spec_thread_summaries(),
        rebuilt.spec_thread_summaries(),
        t.spec_messages(),
        rebuilt.spec_messages(),
        t.spec_reactions(),
        t.spec_files(),
    );
    crate::thread_card::lemma_thread_cards_same(
        t.spec_thread_cards(),
        rebuilt.spec_thread_cards(),
        t.spec_messages(),
        rebuilt.spec_messages(),
        t.spec_thread_summaries(),
        rebuilt.spec_thread_summaries(),
    );
}

/// Two empty stores have the same tables and the same search documents.
pub proof fn lemma_empty_stores_same_tables(a: InMemoryEventStore, b: InMemoryEventStore)
    requires
        a.spec_events().len() == 0,
        a.spec_messages().len() == 0,
        a.spec_files().len() == 0,
        a.spec_channels().len() == 0,
        a.spec_reactions().len() == 0,
        a.spec_search_documents().len() == 0,
        b.spec_events().len() == 0,
        b.spec_messages().len() == 0,
        b.spec_files().len() == 0,
        b.spec_channels().len() == 0,
        b.spec_reactions().len() == 0,
        b.spec_search_documents().len() == 0,
    ensures
        same_tables(a, b),
        same_documents(a.spec_search_documents(), b.spec_search_documents()),
{
    assert(a.spec_events().to_set() =~= b.spec_events().to_set());
    assert(key_map(a.spec_files()) =~= key_map(b.spec_files()));
    assert(key_map(a.spec_reactions()) =~= key_map(b.spec_reactions()));
    assert(key_map(a.spec_channels()) =~= key_map(b.spec_channels()));
    assert(key_map(a.spec_messages()).dom() =~= key_map(b.spec_messages()).dom());
}

/// A recorded message job stores, under its channel and timestamp, a message
/// with the job's fields, and every other message stays as it was.
pub proof fn lemma_message_job_upserts_by_channel_and_ts(s: InMemoryEventStore, job: ProcessEventJob, t: InMemoryEventStore)
    requires
        recorded(s, job, t, StoreOutcome::Inserted),
        job.payload is Message,
    ensures
        ({
            let k = seq![job.channel_id@, job.payload->Message_ts@];
            &&& key_map(t.spec_messages()).dom().contains(k)
            &&& job_message(
                key_map(t.spec_messages())[k],
                job.channel_id,
                job.payload->Message_ts,
                job.payload->Message_thread_ts,
                job.payload->Message_user_id,
                job.payload->text,
            )
            &&& key_map(t.spec_messages()).dom() == key_map(s.spec_messages()).dom().insert(k)
            &&& forall|k2: Seq<Seq<char>>| k2 != k && #[trigger] key_map(s.spec_messages()).dom().contains(k2)
                ==> key_map(t.spec_messages())[k2] == key_map(s.spec_messages())[k2]
        }),
{
}

/// A channel update that gives no name keeps the stored channel's name, and
/// one that gives no archive flag keeps the stored flag.
pub proof fn lemma_channel_update_keeps_unset_fields(s: InMemoryEventStore, job: ProcessEventJob, t: InMemoryEventStore)
    requires
        recorded(s, job, t, StoreOutcome::Inserted),
        job.payload is ChannelUpdated,
        crate::ordered::has_key(s.spec_channels(), seq![job.channel_id@]),
    ensures
        ({
            let k = seq![job.channel_id@];
            let before = crate::ordered::entry(s.spec_channels(), k).unwrap();
            let after = key_map(t.spec_channels())[k];
            &&& key_map(t.spec_channels()).dom().contains(k)
            &&& after.kind == before.kind
            &&& (job.payload->name is None ==> after.name == before.name)
            &&& (job.payload->is_archived is None ==> after.is_archived == before.is_archived)
            &&& (job.payload->name is Some ==> after.name == job.payload->name)
            &&& (job.payload->is_archived matches Some(a) ==> after.is_archived == a)
        }),
{
}

/// A channel first seen in an update takes the job's id and kind, and is
/// unarchived and unnamed unless the update says otherwise.
pub proof fn lemma_new_channel_defaults(s: InMemoryEventStore, job: ProcessEventJob, t: InMemoryEventStore)
    requires
        recorded(s, job, t, StoreOutcome::Inserted),
        job.payload is ChannelUpdated,
        !crate::ordered::has_key(s.spec_channels(), seq![job.channel_id@]),
    ensures
        ({
            let after = key_map(t.spec_channels())[seq![job.channel_id@]];
            &&& after.id == job.channel_id
            &&& after.kind == job.channel_kind
            &&& after.name == job.payload->name
            &&& after.is_archived == (match job.payload->is_archived {
                Some(a) => a,
                None => false,
            })
        }),
{
}

/// After storing a model-written summary, a copy of it is the summary stored
/// under its channel and root.
pub proof fn lemma_generated_summary_read_back(s: InMemoryEventStore, t: InMemoryEventStore, row: GeneratedThreadSummaryRow)
    requires
        sorted_by_key(t.spec_generated()),
        key_map(t.spec_generated()).dom() == key_map(s.spec_generated()).dom().insert(row.key()),
        generated_copy(key_map(t.spec_generated())[row.key()], row),
    ensures
        crate::ordered::entry(t.spec_generated(), row.key()) is Some,
        generated_copy(crate::ordered::entry(t.spec_generated(), row.key()).unwrap(), row),
{
    assert(key_map(t.spec_generated()).dom().contains(row.key()));
    assert(crate::ordered::has_key(t.spec_generated(), row.key()));
}

/// The health of a well-formed store counts distinct entities: as many
/// messages as (channel, timestamp) keys, files as (channel, message, id)
/// keys, channels as ids and reactions as (channel, message, user, name) keys.
pub proof fn lemma_health_counts_distinct_keys(s: InMemoryEventStore)
    requires
        s.well_formed(),
    ensures
        key_map(s.spec_messages()).dom().len() == s.spec_messages().len(),
        key_map(s.spec_files()).dom().len() == s.spec_files().len(),
        key_map(s.spec_channels()).dom().len() == s.spec_channels().len(),
        key_map(s.spec_reactions()).dom().len() == s.spec_reactions().len(),
        s.spec_events().to_set().len() == s.spec_events().len(),
{
    crate::ordered::lemma_sorted_len_is_key_count(s.spec_messages());
    crate::ordered::lemma_sorted_len_is_key_count(s.spec_files());
    crate::ordered::lemma_sorted_len_is_key_count(s.spec_channels());
    crate::ordered::lemma_sorted_len_is_key_count(s.spec_reactions());
    s.spec_events().unique_seq_to_set();
}

impl InMemoryEventStore {
    /// Whether the event `event_id` has been recorded.
    pub fn is_recorded(&self, event_id: &str) -> (r: bool)
        ensures
            r == self.has_seen(event_id@),
    {
        let id = event_id.to_owned();
        self.seen(&id)
    }
}

} // verus!
