//! Thread roll-ups: for every root message, its replies, participants,
//! reactions, files and latest activity.
use vstd::prelude::*;
use crate::domain::{File, Message, Reaction};
use crate::rows::ThreadSummaryRow;
use crate::text::str_eq;
use crate::ts::{parse_ts_micros, ts_micros};

verus! {

/// A message starts a thread when it names no thread or names itself.
pub open spec fn is_root(m: Message) -> bool {
    match m.thread_ts {
        None => true,
        Some(t) => t@ == m.ts@,
    }
}

/// The timestamp of the root of the thread a message belongs to.
pub open spec fn root_of(m: Message) -> Seq<char> {
    match m.thread_ts {
        Some(t) => if t@ == m.ts@ { m.ts@ } else { t@ },
        None => m.ts@,
    }
}

pub open spec fn in_thread(m: Message, ch: Seq<char>, root: Seq<char>) -> bool {
    m.channel_id@ == ch && root_of(m) == root
}

pub fn is_root_message(message: &Message) -> (r: bool)
    ensures
        r == is_root(*message),
{
    match &message.thread_ts {
        None => true,
        Some(t) => str_eq(t.as_str(), message.ts.as_str()),
    }
}

pub fn normalized_root_ts(message: &Message) -> (r: String)
    ensures
        r@ == root_of(*message),
{
    if is_root_message(message) {
        return message.ts.clone();
    }
    match &message.thread_ts {
        Some(t) => t.clone(),
        None => message.ts.clone(),
    }
}

/// The first message of `msgs` stored under channel `ch` and timestamp `ts`.
pub open spec fn lookup(msgs: Seq<Message>, ch: Seq<char>, ts: Seq<char>) -> Option<Message>
    decreases msgs.len(),
{
    if msgs.len() == 0 {
        None
    } else {
        match lookup(msgs.drop_last(), ch, ts) {
            Some(m) => Some(m),
            None => if msgs.last().channel_id@ == ch && msgs.last().ts@ == ts {
                Some(msgs.last())
            } else {
                None
            },
        }
    }
}

proof fn lemma_lookup_prefix(msgs: Seq<Message>, ch: Seq<char>, ts: Seq<char>, n: int)
    requires
        0 <= n <= msgs.len(),
        lookup(msgs.take(n), ch, ts) is Some,
    ensures
        lookup(msgs, ch, ts) == lookup(msgs.take(n), ch, ts),
    decreases msgs.len() - n,
{
    if n < msgs.len() {
        assert(msgs.take(n + 1).drop_last() =~= msgs.take(n));
        lemma_lookup_prefix(msgs, ch, ts, n + 1);
    } else {
        assert(msgs.take(n) =~= msgs);
    }
}

/// The position of the message stored under `ch` and `ts`.
pub fn find_message(msgs: &Vec<Message>, ch: &str, ts: &str) -> (r: Option<usize>)
    ensures
        r matches Some(i) ==> i < msgs@.len() && lookup(msgs@, ch@, ts@) == Some(msgs@[i as int])
            && msgs@[i as int].channel_id@ == ch@ && msgs@[i as int].ts@ == ts@,
        r is None ==> lookup(msgs@, ch@, ts@) is None,
{
    let mut i: usize = 0;
    proof {
        assert(msgs@.take(0) =~= Seq::<Message>::empty());
    }
    while i < msgs.len()
        invariant
            i <= msgs.len(),
            lookup(msgs@.take(i as int), ch@, ts@) is None,
        decreases msgs.len() - i,
    {
        proof {
            assert(msgs@.take(i + 1).drop_last() =~= msgs@.take(i as int));
        }
        if str_eq(msgs[i].channel_id.as_str(), ch) && str_eq(msgs[i].ts.as_str(), ts) {
            proof {
                lemma_lookup_prefix(msgs@, ch@, ts@, i + 1);
            }
            return Some(i);
        }
        i = i + 1;
    }
    proof {
        assert(msgs@.take(msgs@.len() as int) =~= msgs@);
    }
    None
}

/// Whether the message stored under `ch` and `ts` belongs to thread `(tch, root)`.
pub open spec fn linked(msgs: Seq<Message>, ch: Seq<char>, ts: Seq<char>, tch: Seq<char>, root: Seq<char>) -> bool {
    lookup(msgs, ch, ts) matches Some(m) && in_thread(m, tch, root)
}

/// The number of replies (non-root messages) in thread `(ch, root)`.
pub open spec fn reply_count(msgs: Seq<Message>, ch: Seq<char>, root: Seq<char>) -> int
    decreases msgs.len(),
{
    if msgs.len() == 0 {
        0
    } else {
        reply_count(msgs.drop_last(), ch, root) + if in_thread(msgs.last(), ch, root) && !is_root(msgs.last()) { 1int } else { 0int }
    }
}

/// The authors of the messages of thread `(ch, root)`.
pub open spec fn message_users(msgs: Seq<Message>, ch: Seq<char>, root: Seq<char>) -> Set<Seq<char>>
    decreases msgs.len(),
{
    if msgs.len() == 0 {
        Set::empty()
    } else {
        let prev = message_users(msgs.drop_last(), ch, root);
        let m = msgs.last();
        if in_thread(m, ch, root) && m.user_id is Some {
            prev.insert(m.user_id.unwrap()@)
        } else {
            prev
        }
    }
}

/// The timestamps of the messages of thread `(ch, root)`, in order.
pub open spec fn message_times(msgs: Seq<Message>, ch: Seq<char>, root: Seq<char>) -> Seq<Seq<char>>
    decreases msgs.len(),
{
    if msgs.len() == 0 {
        Seq::empty()
    } else {
        let prev = message_times(msgs.drop_last(), ch, root);
        if in_thread(msgs.last(), ch, root) { prev.push(msgs.last().ts@) } else { prev }
    }
}

/// The number of reactions on messages of thread `(ch, root)`.
pub open spec fn reaction_count(msgs: Seq<Message>, rxs: Seq<Reaction>, ch: Seq<char>, root: Seq<char>) -> int
    decreases rxs.len(),
{
    if rxs.len() == 0 {
        0
    } else {
        let x = rxs.last();
        reaction_count(msgs, rxs.drop_last(), ch, root) + if linked(msgs, x.channel_id@, x.message_ts@, ch, root) { 1int } else { 0int }
    }
}

/// The users who reacted to messages of thread `(ch, root)`.
pub open spec fn reaction_users(msgs: Seq<Message>, rxs: Seq<Reaction>, ch: Seq<char>, root: Seq<char>) -> Set<Seq<char>>
    decreases rxs.len(),
{
    if rxs.len() == 0 {
        Set::empty()
    } else {
        let x = rxs.last();
        let prev = reaction_users(msgs, rxs.drop_last(), ch, root);
        if linked(msgs, x.channel_id@, x.message_ts@, ch, root) { prev.insert(x.user_id@) } else { prev }
    }
}

/// The timestamps of the messages reacted to in thread `(ch, root)`, in order.
pub open spec fn reaction_times(msgs: Seq<Message>, rxs: Seq<Reaction>, ch: Seq<char>, root: Seq<char>) -> Seq<Seq<char>>
    decreases rxs.len(),
{
    if rxs.len() == 0 {
        Seq::empty()
    } else {
        let x = rxs.last();
        let prev = reaction_times(msgs, rxs.drop_last(), ch, root);
        if linked(msgs, x.channel_id@, x.message_ts@, ch, root) { prev.push(x.message_ts@) } else { prev }
    }
}

/// The number of files shared by messages of thread `(ch, root)`.
pub open spec fn file_count(msgs: Seq<Message>, files: Seq<File>, ch: Seq<char>, root: Seq<char>) -> int
    decreases files.len(),
{
    if files.len() == 0 {
        0
    } else {
        let f = files.last();
        file_count(msgs, files.drop_last(), ch, root) + if linked(msgs, f.channel_id@, f.message_ts@, ch, root) { 1int } else { 0int }
    }
}

/// The timestamps of the messages sharing files in thread `(ch, root)`, in order.
pub open spec fn file_times(msgs: Seq<Message>, files: Seq<File>, ch: Seq<char>, root: Seq<char>) -> Seq<Seq<char>>
    decreases files.len(),
{
    if files.len() == 0 {
        Seq::empty()
    } else {
        let f = files.last();
        let prev = file_times(msgs, files.drop_last(), ch, root);
        if linked(msgs, f.channel_id@, f.message_ts@, ch, root) { prev.push(f.message_ts@) } else { prev }
    }
}

/// Walks candidate timestamps in order and keeps the one with the most
/// microseconds; a later candidate with as many replaces the kept one.
pub open spec fn latest_from(init: Option<Seq<char>>, cands: Seq<Seq<char>>) -> Option<Seq<char>>
    decreases cands.len(),
{
    if cands.len() == 0 {
        init
    } else {
        let prev = latest_from(init, cands.drop_last());
        let c = cands.last();
        match prev {
            None => Some(c),
            Some(p) => if ts_micros(c) >= ts_micros(p) { Some(c) } else { Some(p) },
        }
    }
}

/// The latest activity of thread `(ch, root)`: its messages, then the reactions on
/// them, then their files.
pub open spec fn thread_latest(msgs: Seq<Message>, rxs: Seq<Reaction>, files: Seq<File>, ch: Seq<char>, root: Seq<char>) -> Option<Seq<char>> {
    latest_from(latest_from(latest_from(None, message_times(msgs, ch, root)), reaction_times(msgs, rxs, ch, root)), file_times(msgs, files, ch, root))
}

/// `row` is the roll-up of thread `(ch, root)`.
pub open spec fn summarizes(row: ThreadSummaryRow, msgs: Seq<Message>, rxs: Seq<Reaction>, files: Seq<File>, ch: Seq<char>, root: Seq<char>) -> bool {
    &&& row.channel_id@ == ch
    &&& row.root_ts@ == root
    &&& row.root_message_at@ == root
    &&& row.reply_count == reply_count(msgs, ch, root) as i64
    &&& row.participant_count == message_users(msgs, ch, root).union(reaction_users(msgs, rxs, ch, root)).len() as i64
    &&& row.reaction_count == reaction_count(msgs, rxs, ch, root) as i64
    &&& row.file_count == file_count(msgs, files, ch, root) as i64
    &&& Some(row.last_activity_ts@) == thread_latest(msgs, rxs, files, ch, root)
}

/// The root messages of `msgs`, in order.
pub open spec fn roots(msgs: Seq<Message>) -> Seq<Message>
    decreases msgs.len(),
{
    if msgs.len() == 0 {
        Seq::empty()
    } else if is_root(msgs.last()) {
        roots(msgs.drop_last()).push(msgs.last())
    } else {
        roots(msgs.drop_last())
    }
}

pub open spec fn users_view(v: Seq<String>) -> Seq<Seq<char>> {
    v.map_values(|u: String| u@)
}

fn contains_string(v: &Vec<String>, s: &str) -> (r: bool)
    ensures
        r == users_view(v@).contains(s@),
{
    let mut i: usize = 0;
    while i < v.len()
        invariant
            i <= v.len(),
            forall|k: int| 0 <= k < i ==> v@[k]@ != s@,
        decreases v.len() - i,
    {
        if str_eq(v[i].as_str(), s) {
            proof {
                assert(users_view(v@)[i as int] == s@);
            }
            return true;
        }
        i = i + 1;
    }
    proof {
        if users_view(v@).contains(s@) {
            let k = choose|k: int| 0 <= k < users_view(v@).len() && users_view(v@)[k] == s@;
            assert(v@[k]@ == s@);
        }
    }
    false
}

/// Adds `u` to a duplicate-free list of users unless it is there already.
fn add_user(users: &mut Vec<String>, u: &String)
    requires
        users_view(old(users)@).no_duplicates(),
    ensures
        users_view(final(users)@).no_duplicates(),
        users_view(final(users)@).to_set() == users_view(old(users)@).to_set().insert(u@),
        final(users)@.len() <= old(users)@.len() + 1,
{
    if !contains_string(users, u.as_str()) {
        let ghost before = users_view(users@);
        users.push(u.clone());
        proof {
            assert(users_view(users@) =~= before.push(u@));
            before.lemma_push_to_set_commute(u@);
        }
    } else {
        proof {
            let b = users_view(users@);
            assert(b.to_set().insert(u@) =~= b.to_set());
        }
    }
}

/// Moves the latest activity forward to `ts` when it is at least as late.
fn update_last_activity(best: &mut Option<String>, best_micros: &mut i64, ts: &String)
    requires
        *old(best) matches Some(b) ==> *old(best_micros) == ts_micros(b@),
    ensures
        *final(best) matches Some(b) ==> *final(best_micros) == ts_micros(b@),
        opt_view(*final(best)) == (match opt_view(*old(best)) {
            None => Some(ts@),
            Some(p) => if ts_micros(ts@) >= ts_micros(p) { Some(ts@) } else { Some(p) },
        }),
{
    let micros = parse_ts_micros(ts.as_str());
    let replace = match best {
        None => true,
        Some(_) => micros >= *best_micros,
    };
    if replace {
        *best = Some(ts.clone());
        *best_micros = micros;
    }
}

pub open spec fn opt_view(o: Option<String>) -> Option<Seq<char>> {
    match o {
        Some(s) => Some(s@),
        None => None,
    }
}

/// The roll-up of thread `(ch, root)`.
pub fn summarize_thread(
    msgs: &Vec<Message>,
    rxs: &Vec<Reaction>,
    files: &Vec<File>,
    ch: &String,
    root: &String,
) -> (row: ThreadSummaryRow)
    requires
        message_times(msgs@, ch@, root@).len() > 0,
    ensures
        summarizes(row, msgs@, rxs@, files@, ch@, root@),
{
    let ghost c = ch@;
    let ghost rt = root@;
    let mut replies: usize = 0;
    let mut users: Vec<String> = Vec::new();
    let mut best: Option<String> = None;
    let mut best_micros: i64 = 0;
    let mut i: usize = 0;
    proof {
        assert(msgs@.take(0) =~= Seq::<Message>::empty());
        assert(users_view(users@).to_set() =~= Set::<Seq<char>>::empty());
    }
    while i < msgs.len()
        invariant
            i <= msgs.len(),
            c == ch@,
            rt == root@,
            0 <= replies <= i,
            replies == reply_count(msgs@.take(i as int), c, rt),
            users@.len() <= i,
            users_view(users@).no_duplicates(),
            users_view(users@).to_set() == message_users(msgs@.take(i as int), c, rt),
            best matches Some(b) ==> best_micros == ts_micros(b@),
            opt_view(best) == latest_from(None, message_times(msgs@.take(i as int), c, rt)),
        decreases msgs.len() - i,
    {
        proof {
            assert(msgs@.take(i + 1).drop_last() =~= msgs@.take(i as int));
        }
        let m = &msgs[i];
        if str_eq(m.channel_id.as_str(), ch.as_str()) {
            let r = normalized_root_ts(m);
            if str_eq(r.as_str(), root.as_str()) {
                if !is_root_message(m) {
                    replies = replies + 1;
                }
                if let Some(u) = &m.user_id {
                    add_user(&mut users, u);
                }
                proof {
                    lemma_latest_push(None, message_times(msgs@.take(i as int), c, rt), m.ts@);
                }
                update_last_activity(&mut best, &mut best_micros, &m.ts);
            }
        }
        i = i + 1;
    }
    proof {
        assert(msgs@.take(msgs@.len() as int) =~= msgs@);
    }
    let ghost after_messages = latest_from(None, message_times(msgs@, c, rt));
    let mut reactions: usize = 0;
    let mut j: usize = 0;
    proof {
        assert(rxs@.take(0) =~= Seq::<Reaction>::empty());
        assert(message_users(msgs@, c, rt).union(Set::<Seq<char>>::empty()) =~= message_users(msgs@, c, rt));
    }
    while j < rxs.len()
        invariant
            j <= rxs.len(),
            c == ch@,
            rt == root@,
            0 <= reactions <= j,
            reactions == reaction_count(msgs@, rxs@.take(j as int), c, rt),
            users@.len() <= msgs@.len() + j,
            users_view(users@).no_duplicates(),
            users_view(users@).to_set() == message_users(msgs@, c, rt).union(reaction_users(msgs@, rxs@.take(j as int), c, rt)),
            best matches Some(b) ==> best_micros == ts_micros(b@),
            after_messages == latest_from(None, message_times(msgs@, c, rt)),
            opt_view(best) == latest_from(after_messages, reaction_times(msgs@, rxs@.take(j as int), c, rt)),
        decreases rxs.len() - j,
    {
        proof {
            assert(rxs@.take(j + 1).drop_last() =~= rxs@.take(j as int));
        }
        let x = &rxs[j];
        let found = find_message(msgs, x.channel_id.as_str(), x.message_ts.as_str());
        if let Some(k) = found {
            let m = &msgs[k];
            if str_eq(m.channel_id.as_str(), ch.as_str()) {
                let r = normalized_root_ts(m);
                if str_eq(r.as_str(), root.as_str()) {
                    reactions = reactions + 1;
                    add_user(&mut users, &x.user_id);
                    proof {
                        let prev = reaction_users(msgs@, rxs@.take(j as int), c, rt);
                        assert(message_users(msgs@, c, rt).union(prev).insert(x.user_id@) =~= message_users(msgs@, c, rt).union(prev.insert(x.user_id@)));
                    }
                    proof {
                        lemma_latest_push(after_messages, reaction_times(msgs@, rxs@.take(j as int), c, rt), x.message_ts@);
                    }
                    update_last_activity(&mut best, &mut best_micros, &x.message_ts);
                }
            }
        }
        j = j + 1;
    }
    proof {
        assert(rxs@.take(rxs@.len() as int) =~= rxs@);
    }
    let ghost after_reactions = latest_from(after_messages, reaction_times(msgs@, rxs@, c, rt));
    let mut file_total: usize = 0;
    let mut k: usize = 0;
    proof {
        assert(files@.take(0) =~= Seq::<File>::empty());
    }
    while k < files.len()
        invariant
            k <= files.len(),
            c == ch@,
            rt == root@,
            0 <= file_total <= k,
            file_total == file_count(msgs@, files@.take(k as int), c, rt),
            best matches Some(b) ==> best_micros == ts_micros(b@),
            after_reactions == latest_from(after_messages, reaction_times(msgs@, rxs@, c, rt)),
            opt_view(best) == latest_from(after_reactions, file_times(msgs@, files@.take(k as int), c, rt)),
        decreases files.len() - k,
    {
        proof {
            assert(files@.take(k + 1).drop_last() =~= files@.take(k as int));
        }
        let f = &files[k];
        let found = find_message(msgs, f.channel_id.as_str(), f.message_ts.as_str());
        if let Some(q) = found {
            let m = &msgs[q];
            if str_eq(m.channel_id.as_str(), ch.as_str()) {
                let r = normalized_root_ts(m);
                if str_eq(r.as_str(), root.as_str()) {
                    file_total = file_total + 1;
                    proof {
                        lemma_latest_push(after_reactions, file_times(msgs@, files@.take(k as int), c, rt), f.message_ts@);
                    }
                    update_last_activity(&mut best, &mut best_micros, &f.message_ts);
                }
            }
        }
        k = k + 1;
    }
    proof {
        assert(files@.take(files@.len() as int) =~= files@);
        users_view(users@).unique_seq_to_set();
        lemma_latest_from_some(None, message_times(msgs@, c, rt));
        lemma_latest_from_keeps_some(after_messages, reaction_times(msgs@, rxs@, c, rt));
        lemma_latest_from_keeps_some(after_reactions, file_times(msgs@, files@, c, rt));
    }
    let last = match best {
        Some(b) => b,
        None => String::new(),
    };
    ThreadSummaryRow {
        channel_id: ch.clone(),
        root_ts: root.clone(),
        reply_count: replies as i64,
        participant_count: users.len() as i64,
        reaction_count: reactions as i64,
        file_count: file_total as i64,
        root_message_at: root.clone(),
        last_activity_ts: last,
    }
}

proof fn lemma_latest_push(init: Option<Seq<char>>, cands: Seq<Seq<char>>, x: Seq<char>)
    ensures
        latest_from(init, cands.push(x)) == (match latest_from(init, cands) {
            None => Some(x),
            Some(p) => if ts_micros(x) >= ts_micros(p) { Some(x) } else { Some(p) },
        }),
{
    assert(cands.push(x).drop_last() =~= cands);
}

proof fn lemma_latest_from_some(init: Option<Seq<char>>, cands: Seq<Seq<char>>)
    requires
        cands.len() > 0,
    ensures
        latest_from(init, cands) is Some,
{
}

proof fn lemma_latest_from_keeps_some(init: Option<Seq<char>>, cands: Seq<Seq<char>>)
    requires
        init is Some,
    ensures
        latest_from(init, cands) is Some,
    decreases cands.len(),
{
    if cands.len() > 0 {
        lemma_latest_from_keeps_some(init, cands.drop_last());
    }
}

/// A thread with a member has at least one activity time.
pub proof fn lemma_member_has_time(msgs: Seq<Message>, i: int, ch: Seq<char>, root: Seq<char>)
    requires
        0 <= i < msgs.len(),
        in_thread(msgs[i], ch, root),
    ensures
        message_times(msgs, ch, root).len() > 0,
    decreases msgs.len(),
{
    if i < msgs.len() - 1 {
        lemma_member_has_time(msgs.drop_last(), i, ch, root);
    }
}

/// The roll-ups of all threads, one per root message of `msgs`, in the order of
/// the root messages.
pub open spec fn thread_summaries_of(rows: Seq<ThreadSummaryRow>, msgs: Seq<Message>, rxs: Seq<Reaction>, files: Seq<File>) -> bool {
    &&& rows.len() == roots(msgs).len()
    &&& forall|k: int| 0 <= k < rows.len() ==> #[trigger] summarizes(rows[k], msgs, rxs, files, roots(msgs)[k].channel_id@, roots(msgs)[k].ts@)
}

/// Rebuilds the roll-ups of all threads.
pub fn build_thread_summaries(
    messages: &Vec<Message>,
    reactions: &Vec<Reaction>,
    files: &Vec<File>,
) -> (r: Vec<ThreadSummaryRow>)
    ensures
        thread_summaries_of(r@, messages@, reactions@, files@),
{
    let mut out: Vec<ThreadSummaryRow> = Vec::new();
    let mut i: usize = 0;
    proof {
        assert(messages@.take(0) =~= Seq::<Message>::empty());
    }
    while i < messages.len()
        invariant
            i <= messages.len(),
            out@.len() == roots(messages@.take(i as int)).len(),
            forall|k: int| 0 <= k < out@.len() ==> #[trigger] summarizes(out@[k], messages@, reactions@, files@,
                roots(messages@.take(i as int))[k].channel_id@, roots(messages@.take(i as int))[k].ts@),
        decreases messages.len() - i,
    {
        let ghost pre = roots(messages@.take(i as int));
        proof {
            assert(messages@.take(i + 1).drop_last() =~= messages@.take(i as int));
            assert(messages@.take(i + 1).last() == messages@[i as int]);
        }
        let m = &messages[i];
        if is_root_message(m) {
            proof {
                lemma_member_has_time(messages@, i as int, m.channel_id@, m.ts@);
            }
            let row = summarize_thread(messages, reactions, files, &m.channel_id, &m.ts);
            out.push(row);
            proof {
                assert(roots(messages@.take(i + 1)) == pre.push(*m));
            }
        }
        i = i + 1;
    }
    proof {
        assert(messages@.take(messages@.len() as int) =~= messages@);
    }
    out
}

/// Two messages with the same fields, the text compared by its characters.
pub open spec fn same_message(a: Message, b: Message) -> bool {
    &&& a.channel_id == b.channel_id
    &&& a.ts == b.ts
    &&& a.thread_ts == b.thread_ts
    &&& a.user_id == b.user_id
    &&& a.text@ == b.text@
}

/// Two message lists with the same message at every position.
pub open spec fn same_messages(a: Seq<Message>, b: Seq<Message>) -> bool {
    &&& a.len() == b.len()
    &&& forall|i: int| 0 <= i < a.len() ==> same_message(#[trigger] a[i], b[i])
}

pub(crate) proof fn lemma_same_messages_drop_last(a: Seq<Message>, b: Seq<Message>)
    requires
        same_messages(a, b),
        a.len() > 0,
    ensures
        same_messages(a.drop_last(), b.drop_last()),
        same_message(a.last(), b.last()),
{
    assert forall|i: int| 0 <= i < a.drop_last().len() implies same_message(#[trigger] a.drop_last()[i], b.drop_last()[i]) by {
        assert(a.drop_last()[i] == a[i]);
        assert(b.drop_last()[i] == b[i]);
    }
}

/// The same messages give the same message under every key.
pub proof fn lemma_lookup_same(a: Seq<Message>, b: Seq<Message>, ch: Seq<char>, ts: Seq<char>)
    requires
        same_messages(a, b),
    ensures
        lookup(a, ch, ts) is Some <==> lookup(b, ch, ts) is Some,
        lookup(a, ch, ts) is Some ==> same_message(lookup(a, ch, ts).unwrap(), lookup(b, ch, ts).unwrap()),
    decreases a.len(),
{
    if a.len() > 0 {
        lemma_same_messages_drop_last(a, b);
        lemma_lookup_same(a.drop_last(), b.drop_last(), ch, ts);
    }
}

/// The same messages link every message key to the same thread.
pub proof fn lemma_linked_same(a: Seq<Message>, b: Seq<Message>, ch: Seq<char>, ts: Seq<char>, tch: Seq<char>, root: Seq<char>)
    requires
        same_messages(a, b),
    ensures
        linked(a, ch, ts, tch, root) == linked(b, ch, ts, tch, root),
{
    lemma_lookup_same(a, b, ch, ts);
}

proof fn lemma_message_counts_same(a: Seq<Message>, b: Seq<Message>, ch: Seq<char>, root: Seq<char>)
    requires
        same_messages(a, b),
    ensures
        reply_count(a, ch, root) == reply_count(b, ch, root),
        message_users(a, ch, root) == message_users(b, ch, root),
        message_times(a, ch, root) == message_times(b, ch, root),
    decreases a.len(),
{
    if a.len() > 0 {
        lemma_same_messages_drop_last(a, b);
        lemma_message_counts_same(a.drop_last(), b.drop_last(), ch, root);
    }
}

proof fn lemma_reaction_counts_same(a: Seq<Message>, b: Seq<Message>, rxs: Seq<Reaction>, ch: Seq<char>, root: Seq<char>)
    requires
        same_messages(a, b),
    ensures
        reaction_count(a, rxs, ch, root) == reaction_count(b, rxs, ch, root),
        reaction_users(a, rxs, ch, root) == reaction_users(b, rxs, ch, root),
        reaction_times(a, rxs, ch, root) == reaction_times(b, rxs, ch, root),
    decreases rxs.len(),
{
    if rxs.len() > 0 {
        let x = rxs.last();
        lemma_linked_same(a, b, x.channel_id@, x.message_ts@, ch, root);
        lemma_reaction_counts_same(a, b, rxs.drop_last(), ch, root);
    }
}

proof fn lemma_file_counts_same(a: Seq<Message>, b: Seq<Message>, files: Seq<File>, ch: Seq<char>, root: Seq<char>)
    requires
        same_messages(a, b),
    ensures
        file_count(a, files, ch, root) == file_count(b, files, ch, root),
        file_times(a, files, ch, root) == file_times(b, files, ch, root),
    decreases files.len(),
{
    if files.len() > 0 {
        let f = files.last();
        lemma_linked_same(a, b, f.channel_id@, f.message_ts@, ch, root);
        lemma_file_counts_same(a, b, files.drop_last(), ch, root);
    }
}

proof fn lemma_roots_same(a: Seq<Message>, b: Seq<Message>)
    requires
        same_messages(a, b),
    ensures
        same_messages(roots(a), roots(b)),
    decreases a.len(),
{
    if a.len() > 0 {
        lemma_same_messages_drop_last(a, b);
        lemma_roots_same(a.drop_last(), b.drop_last());
        let ra = roots(a.drop_last());
        let rb = roots(b.drop_last());
        if is_root(a.last()) {
            assert forall|i: int| 0 <= i < roots(a).len() implies same_message(#[trigger] roots(a)[i], roots(b)[i]) by {
                if i < ra.len() {
                    assert(roots(a)[i] == ra[i]);
                    assert(roots(b)[i] == rb[i]);
                }
            }
        }
    }
}

/// The rows that a roll-up states of one thread, by the characters of its strings.
pub open spec fn summary_view(r: ThreadSummaryRow) -> (Seq<char>, Seq<char>, i64, i64, i64, i64, Seq<char>, Seq<char>) {
    (r.channel_id@, r.root_ts@, r.reply_count, r.participant_count, r.reaction_count, r.file_count, r.root_message_at@, r.last_activity_ts@)
}

/// The roll-ups of the same messages, reactions and files are the same, row
/// by row.
pub proof fn lemma_thread_summaries_same(
    rows_a: Seq<ThreadSummaryRow>,
    rows_b: Seq<ThreadSummaryRow>,
    a: Seq<Message>,
    b: Seq<Message>,
    rxs: Seq<Reaction>,
    files: Seq<File>,
)
    requires
        same_messages(a, b),
        thread_summaries_of(rows_a, a, rxs, files),
        thread_summaries_of(rows_b, b, rxs, files),
    ensures
        rows_a.len() == rows_b.len(),
        forall|k: int| 0 <= k < rows_a.len() ==> summary_view(#[trigger] rows_a[k]) == summary_view(rows_b[k]),
{
    lemma_roots_same(a, b);
    assert forall|k: int| 0 <= k < rows_a.len() implies summary_view(#[trigger] rows_a[k]) == summary_view(rows_b[k]) by {
        assert(summarizes(rows_a[k], a, rxs, files, roots(a)[k].channel_id@, roots(a)[k].ts@));
        assert(summarizes(rows_b[k], b, rxs, files, roots(b)[k].channel_id@, roots(b)[k].ts@));
        assert(same_message(roots(a)[k], roots(b)[k]));
        let ch = roots(a)[k].channel_id@;
        let root = roots(a)[k].ts@;
        lemma_message_counts_same(a, b, ch, root);
        lemma_reaction_counts_same(a, b, rxs, ch, root);
        lemma_file_counts_same(a, b, files, ch, root);
    }
}

} // verus!
