//! The read models that the database store keeps: the search documents and
//! roll-up of one thread, and those of all threads.
use vstd::prelude::*;
use crate::domain::{File, Message, Reaction};
use crate::rows::{SearchDocumentRow, ThreadSummaryRow};
use crate::search_index::{refresh_search_documents, refreshed_documents};
use crate::thread_summary::{
    build_thread_summaries, find_message, is_root, is_root_message, lemma_member_has_time, lookup,
    summarize_thread, summarizes, thread_summaries_of,
};

verus! {

/// The views of thread `(channel_id, root_ts)` from its stored messages,
/// reactions and files: none while its root message is not stored (a reply may
/// arrive first); else the search document of each message of the thread and,
/// when the root message starts the thread, the thread's roll-up.
pub fn thread_views(
    messages: &Vec<Message>,
    reactions: &Vec<Reaction>,
    files: &Vec<File>,
    channel_id: &str,
    root_ts: &str,
) -> (r: Option<(Vec<SearchDocumentRow>, Option<ThreadSummaryRow>)>)
    ensures
        r is None <==> lookup(messages@, channel_id@, root_ts@) is None,
        r matches Some((docs, summary)) ==> {
            &&& refreshed_documents(Seq::empty(), docs@, messages@, channel_id@, root_ts@)
            &&& (summary is Some <==> is_root(lookup(messages@, channel_id@, root_ts@).unwrap()))
            &&& (summary matches Some(row) ==> summarizes(row, messages@, reactions@, files@, channel_id@, root_ts@))
        },
{
    match find_message(messages, channel_id, root_ts) {
        None => None,
        Some(k) => {
            let mut docs: Vec<SearchDocumentRow> = Vec::new();
            refresh_search_documents(&mut docs, messages, channel_id, root_ts);
            let summary = if is_root_message(&messages[k]) {
                proof {
                    lemma_member_has_time(messages@, k as int, channel_id@, root_ts@);
                }
                let ch = channel_id.to_owned();
                let root = root_ts.to_owned();
                Some(summarize_thread(messages, reactions, files, &ch, &root))
            } else {
                None
            };
            Some((docs, summary))
        },
    }
}

/// `states` runs from no documents to `docs`, each step the refresh of the
/// next thread of `rows`.
pub open spec fn refresh_chain(
    states: Seq<Seq<SearchDocumentRow>>,
    docs: Seq<SearchDocumentRow>,
    msgs: Seq<Message>,
    rows: Seq<ThreadSummaryRow>,
) -> bool {
    &&& states.len() == rows.len() + 1
    &&& states[0].len() == 0
    &&& states.last() == docs
    &&& forall|k: int| 0 <= k < rows.len() ==> refreshed_documents(
        #[trigger] states[k],
        states[k + 1],
        msgs,
        rows[k].channel_id@,
        rows[k].root_ts@,
    )
}

/// `docs` are the search documents of the threads of `rows`, built thread by
/// thread from none.
pub open spec fn documents_of_threads(docs: Seq<SearchDocumentRow>, msgs: Seq<Message>, rows: Seq<ThreadSummaryRow>) -> bool {
    exists|states: Seq<Seq<SearchDocumentRow>>| #[trigger] refresh_chain(states, docs, msgs, rows)
}

/// All views from the stored rows: the roll-up of every thread, and the
/// search documents of every thread.
pub fn all_views(
    messages: &Vec<Message>,
    reactions: &Vec<Reaction>,
    files: &Vec<File>,
) -> (r: (Vec<ThreadSummaryRow>, Vec<SearchDocumentRow>))
    ensures
        thread_summaries_of(r.0@, messages@, reactions@, files@),
        documents_of_threads(r.1@, messages@, r.0@),
{
    let rows = build_thread_summaries(messages, reactions, files);
    let mut docs: Vec<SearchDocumentRow> = Vec::new();
    let ghost mut states: Seq<Seq<SearchDocumentRow>> = seq![docs@];
    let mut i: usize = 0;
    while i < rows.len()
        invariant
            i <= rows@.len(),
            states.len() == i + 1,
            states[0].len() == 0,
            states.last() == docs@,
            forall|k: int| 0 <= k < i ==> refreshed_documents(
                #[trigger] states[k],
                states[k + 1],
                messages@,
                rows@[k].channel_id@,
                rows@[k].root_ts@,
            ),
        decreases rows@.len() - i,
    {
        let ghost before = states;
        refresh_search_documents(&mut docs, messages, rows[i].channel_id.as_str(), rows[i].root_ts.as_str());
        proof {
            states = states.push(docs@);
            assert forall|k: int| 0 <= k < i + 1 implies refreshed_documents(
                #[trigger] states[k],
                states[k + 1],
                messages@,
                rows@[k].channel_id@,
                rows@[k].root_ts@,
            ) by {
                if k < i {
                    assert(states[k] == before[k]);
                    assert(states[k + 1] == before[k + 1]);
                }
            }
        }
        i = i + 1;
    }
    proof {
        assert(refresh_chain(states, docs@, messages@, rows@));
    }
    (rows, docs)
}

/// Refreshing one thread gives the roll-up that rebuilding all threads gives
/// for it: the roll-up of a thread is fixed by the stored rows.
pub proof fn lemma_thread_refresh_matches_full_rebuild(
    messages: Seq<Message>,
    reactions: Seq<Reaction>,
    files: Seq<File>,
    channel_id: Seq<char>,
    root_ts: Seq<char>,
    row: ThreadSummaryRow,
    rows: Seq<ThreadSummaryRow>,
    k: int,
)
    requires
        summarizes(row, messages, reactions, files, channel_id, root_ts),
        thread_summaries_of(rows, messages, reactions, files),
        0 <= k < rows.len(),
        rows[k].channel_id@ == channel_id,
        rows[k].root_ts@ == root_ts,
    ensures
        rows[k].channel_id@ == row.channel_id@,
        rows[k].root_ts@ == row.root_ts@,
        rows[k].root_message_at@ == row.root_message_at@,
        rows[k].reply_count == row.reply_count,
        rows[k].participant_count == row.participant_count,
        rows[k].reaction_count == row.reaction_count,
        rows[k].file_count == row.file_count,
        rows[k].last_activity_ts@ == row.last_activity_ts@,
{
    assert(summarizes(rows[k], messages, reactions, files,
        crate::thread_summary::roots(messages)[k].channel_id@, crate::thread_summary::roots(messages)[k].ts@));
}

} // verus!
