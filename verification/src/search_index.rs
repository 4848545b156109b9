//! Search documents: one per message, titled by the text of its thread's root.
use vstd::prelude::*;
use crate::domain::Message;
use crate::rows::SearchDocumentRow;
use crate::text::{str_eq, string_of, trim, trimmed};
use crate::thread_summary::{find_message, in_thread, lookup, normalized_root_ts, same_message, same_messages};

verus! {

/// What `optional_text` gives back: the trimmed text, absent when blank.
pub open spec fn optional_text_spec(value: Seq<char>) -> Option<Seq<char>> {
    if trim(value).len() > 0 { Some(trim(value)) } else { None }
}

pub fn optional_text(value: &str) -> (r: Option<String>)
    ensures
        crate::thread_summary::opt_view(r) == optional_text_spec(value@),
{
    let t = trimmed(value);
    if t.len() > 0 {
        Some(string_of(&t))
    } else {
        None
    }
}

/// The title of the thread `(ch, root)`: the trimmed text of its root message, if
/// the root is stored and not blank.
pub open spec fn root_title(msgs: Seq<Message>, ch: Seq<char>, root: Seq<char>) -> Option<Seq<char>> {
    match lookup(msgs, ch, root) {
        Some(m) => optional_text_spec(m.text@),
        None => None,
    }
}

/// `d` is the search document of message `m` in thread `(ch, root)`.
pub open spec fn document_of(d: SearchDocumentRow, m: Message, ch: Seq<char>, root: Seq<char>, title: Option<Seq<char>>) -> bool {
    &&& d.channel_id@ == ch
    &&& d.root_ts@ == root
    &&& d.message_ts@ == m.ts@
    &&& crate::thread_summary::opt_view(d.title) == (match title {
        Some(t) => Some(t),
        None => optional_text_spec(m.text@),
    })
    &&& d.body@ == m.text@
    &&& d.message_occurred_at@ == m.ts@
}

/// The messages of thread `(ch, root)`, in order.
pub open spec fn thread_messages(msgs: Seq<Message>, ch: Seq<char>, root: Seq<char>) -> Seq<Message>
    decreases msgs.len(),
{
    if msgs.len() == 0 {
        Seq::empty()
    } else if in_thread(msgs.last(), ch, root) {
        thread_messages(msgs.drop_last(), ch, root).push(msgs.last())
    } else {
        thread_messages(msgs.drop_last(), ch, root)
    }
}

/// Whether a message of thread `(ch, root)` has timestamp `ts`.
pub open spec fn thread_has_ts(msgs: Seq<Message>, ch: Seq<char>, root: Seq<char>, ts: Seq<char>) -> bool
    decreases msgs.len(),
{
    if msgs.len() == 0 {
        false
    } else {
        thread_has_ts(msgs.drop_last(), ch, root, ts) || (in_thread(msgs.last(), ch, root) && msgs.last().ts@ == ts)
    }
}

/// The documents of `docs` that the refresh of thread `(ch, root)` does not replace.
pub open spec fn kept_documents(docs: Seq<SearchDocumentRow>, msgs: Seq<Message>, ch: Seq<char>, root: Seq<char>) -> Seq<SearchDocumentRow>
    decreases docs.len(),
{
    if docs.len() == 0 {
        Seq::empty()
    } else {
        let d = docs.last();
        let prev = kept_documents(docs.drop_last(), msgs, ch, root);
        if d.channel_id@ == ch && thread_has_ts(msgs, ch, root, d.message_ts@) { prev } else { prev.push(d) }
    }
}

fn thread_has_ts_exec(msgs: &Vec<Message>, ch: &str, root: &str, ts: &str) -> (r: bool)
    ensures
        r == thread_has_ts(msgs@, ch@, root@, ts@),
{
    let mut found = false;
    let mut i: usize = 0;
    proof {
        assert(msgs@.take(0) =~= Seq::<Message>::empty());
    }
    while i < msgs.len()
        invariant
            i <= msgs.len(),
            found == thread_has_ts(msgs@.take(i as int), ch@, root@, ts@),
        decreases msgs.len() - i,
    {
        proof {
            assert(msgs@.take(i + 1).drop_last() =~= msgs@.take(i as int));
        }
        let m = &msgs[i];
        if str_eq(m.channel_id.as_str(), ch) && str_eq(m.ts.as_str(), ts) {
            let r = normalized_root_ts(m);
            if str_eq(r.as_str(), root) {
                found = true;
            }
        }
        i = i + 1;
    }
    proof {
        assert(msgs@.take(msgs@.len() as int) =~= msgs@);
    }
    found
}

/// `new` is `old` after the refresh of thread `(ch, root)`: the documents that the
/// refresh does not replace, in order, then one document per message of the
/// thread, in the order of the messages.
pub open spec fn refreshed_documents(
    old: Seq<SearchDocumentRow>,
    new: Seq<SearchDocumentRow>,
    msgs: Seq<Message>,
    ch: Seq<char>,
    root: Seq<char>,
) -> bool {
    let kept = kept_documents(old, msgs, ch, root);
    let thread = thread_messages(msgs, ch, root);
    &&& new.len() == kept.len() + thread.len()
    &&& new.take(kept.len() as int) == kept
    &&& forall|k: int| 0 <= k < thread.len() ==> #[trigger] document_of(
        new[kept.len() + k],
        thread[k],
        ch,
        root,
        root_title(msgs, ch, root),
    )
}

/// A search document by the characters of its strings.
pub open spec fn document_view(d: SearchDocumentRow) -> (Seq<char>, Seq<char>, Seq<char>, Option<Seq<char>>, Seq<char>, Seq<char>) {
    (d.channel_id@, d.root_ts@, d.message_ts@, crate::thread_summary::opt_view(d.title), d.body@, d.message_occurred_at@)
}

/// Two document lists with the same document at every position.
pub open spec fn same_documents(a: Seq<SearchDocumentRow>, b: Seq<SearchDocumentRow>) -> bool {
    &&& a.len() == b.len()
    &&& forall|i: int| 0 <= i < a.len() ==> document_view(#[trigger] a[i]) == document_view(b[i])
}

/// The same messages give the same messages of every thread.
proof fn lemma_thread_messages_same(a: Seq<Message>, b: Seq<Message>, ch: Seq<char>, root: Seq<char>)
    requires
        same_messages(a, b),
    ensures
        same_messages(thread_messages(a, ch, root), thread_messages(b, ch, root)),
        forall|ts: Seq<char>| #[trigger] thread_has_ts(a, ch, root, ts) == thread_has_ts(b, ch, root, ts),
    decreases a.len(),
{
    if a.len() > 0 {
        crate::thread_summary::lemma_same_messages_drop_last(a, b);
        lemma_thread_messages_same(a.drop_last(), b.drop_last(), ch, root);
        let (ta, tb) = (thread_messages(a.drop_last(), ch, root), thread_messages(b.drop_last(), ch, root));
        if in_thread(a.last(), ch, root) {
            assert forall|i: int| 0 <= i < thread_messages(a, ch, root).len() implies same_message(
                #[trigger] thread_messages(a, ch, root)[i],
                thread_messages(b, ch, root)[i],
            ) by {
                if i < ta.len() {
                    assert(thread_messages(a, ch, root)[i] == ta[i]);
                    assert(thread_messages(b, ch, root)[i] == tb[i]);
                }
            }
        }
        assert forall|ts: Seq<char>| #[trigger] thread_has_ts(a, ch, root, ts) == thread_has_ts(b, ch, root, ts) by {
            assert(thread_has_ts(a.drop_last(), ch, root, ts) == thread_has_ts(b.drop_last(), ch, root, ts));
        }
    }
}

/// The same documents and the same messages keep the same documents.
proof fn lemma_kept_documents_same(
    da: Seq<SearchDocumentRow>,
    db: Seq<SearchDocumentRow>,
    a: Seq<Message>,
    b: Seq<Message>,
    ch: Seq<char>,
    root: Seq<char>,
)
    requires
        same_documents(da, db),
        same_messages(a, b),
    ensures
        same_documents(kept_documents(da, a, ch, root), kept_documents(db, b, ch, root)),
    decreases da.len(),
{
    if da.len() > 0 {
        assert(same_documents(da.drop_last(), db.drop_last())) by {
            assert forall|i: int| 0 <= i < da.drop_last().len() implies document_view(#[trigger] da.drop_last()[i])
                == document_view(db.drop_last()[i]) by {
                assert(da.drop_last()[i] == da[i]);
                assert(db.drop_last()[i] == db[i]);
            }
        }
        lemma_kept_documents_same(da.drop_last(), db.drop_last(), a, b, ch, root);
        lemma_thread_messages_same(a, b, ch, root);
        assert(document_view(da[da.len() - 1]) == document_view(db[db.len() - 1]));
        let (ka, kb) = (kept_documents(da.drop_last(), a, ch, root), kept_documents(db.drop_last(), b, ch, root));
        assert forall|i: int| 0 <= i < kept_documents(da, a, ch, root).len() implies document_view(
            #[trigger] kept_documents(da, a, ch, root)[i],
        ) == document_view(kept_documents(db, b, ch, root)[i]) by {
            if i < ka.len() {
                assert(document_view(ka[i]) == document_view(kb[i]));
            }
        }
    }
}

/// Refreshing a thread's documents in the same documents, over the same messages,
/// gives the same documents.
pub proof fn lemma_refreshed_documents_same(
    old_a: Seq<SearchDocumentRow>,
    new_a: Seq<SearchDocumentRow>,
    old_b: Seq<SearchDocumentRow>,
    new_b: Seq<SearchDocumentRow>,
    a: Seq<Message>,
    b: Seq<Message>,
    ch: Seq<char>,
    root: Seq<char>,
)
    requires
        same_documents(old_a, old_b),
        same_messages(a, b),
        refreshed_documents(old_a, new_a, a, ch, root),
        refreshed_documents(old_b, new_b, b, ch, root),
    ensures
        same_documents(new_a, new_b),
{
    lemma_kept_documents_same(old_a, old_b, a, b, ch, root);
    lemma_thread_messages_same(a, b, ch, root);
    crate::thread_summary::lemma_lookup_same(a, b, ch, root);
    assert(root_title(a, ch, root) == root_title(b, ch, root));
    let (ka, kb) = (kept_documents(old_a, a, ch, root), kept_documents(old_b, b, ch, root));
    let (ta, tb) = (thread_messages(a, ch, root), thread_messages(b, ch, root));
    assert forall|i: int| 0 <= i < new_a.len() implies document_view(#[trigger] new_a[i]) == document_view(new_b[i]) by {
        if i < ka.len() {
            assert(new_a[i] == new_a.take(ka.len() as int)[i]);
            assert(new_b[i] == new_b.take(kb.len() as int)[i]);
            assert(document_view(ka[i]) == document_view(kb[i]));
        } else {
            let k = i - ka.len();
            assert(document_of(new_a[ka.len() + k], ta[k], ch, root, root_title(a, ch, root)));
            assert(document_of(new_b[kb.len() + k], tb[k], ch, root, root_title(b, ch, root)));
            assert(same_message(ta[k], tb[k]));
        }
    }
}

/// Refreshes the search documents of thread `(channel_id, root_ts)`: every message
/// of the thread gets its document again, titled by the root's text (or, without a
/// usable root text, by its own); the other documents are kept.
pub fn refresh_search_documents(
    search_documents: &mut Vec<SearchDocumentRow>,
    messages: &Vec<Message>,
    channel_id: &str,
    root_ts: &str,
)
    ensures
        refreshed_documents(old(search_documents)@, final(search_documents)@, messages@, channel_id@, root_ts@),
{
    let ghost old_docs = search_documents@;
    let title: Option<String> = match find_message(messages, channel_id, root_ts) {
        Some(k) => optional_text(messages[k].text.as_str()),
        None => None,
    };
    let mut kept: Vec<SearchDocumentRow> = Vec::new();
    let mut i: usize = 0;
    proof {
        assert(old_docs.take(0) =~= Seq::<SearchDocumentRow>::empty());
    }
    while i < search_documents.len()
        invariant
            i <= search_documents.len(),
            search_documents@ == old_docs,
            kept@ == kept_documents(old_docs.take(i as int), messages@, channel_id@, root_ts@),
        decreases search_documents.len() - i,
    {
        proof {
            assert(old_docs.take(i + 1).drop_last() =~= old_docs.take(i as int));
        }
        let d = &search_documents[i];
        let replaced = str_eq(d.channel_id.as_str(), channel_id) && thread_has_ts_exec(messages, channel_id, root_ts, d.message_ts.as_str());
        if !replaced {
            kept.push(d.clone());
        }
        i = i + 1;
    }
    proof {
        assert(old_docs.take(old_docs.len() as int) =~= old_docs);
    }
    let ghost kept_len = kept@.len();
    let ghost expected_title = root_title(messages@, channel_id@, root_ts@);
    let mut j: usize = 0;
    proof {
        assert(messages@.take(0) =~= Seq::<Message>::empty());
    }
    while j < messages.len()
        invariant
            j <= messages.len(),
            kept_len == kept_documents(old_docs, messages@, channel_id@, root_ts@).len(),
            kept@.len() == kept_len + thread_messages(messages@.take(j as int), channel_id@, root_ts@).len(),
            kept@.take(kept_len as int) == kept_documents(old_docs, messages@, channel_id@, root_ts@),
            expected_title == root_title(messages@, channel_id@, root_ts@),
            crate::thread_summary::opt_view(title) == expected_title,
            forall|k: int| 0 <= k < thread_messages(messages@.take(j as int), channel_id@, root_ts@).len() ==> #[trigger] document_of(
                kept@[kept_len + k],
                thread_messages(messages@.take(j as int), channel_id@, root_ts@)[k],
                channel_id@,
                root_ts@,
                expected_title,
            ),
        decreases messages.len() - j,
    {
        proof {
            assert(messages@.take(j + 1).drop_last() =~= messages@.take(j as int));
        }
        let m = &messages[j];
        if str_eq(m.channel_id.as_str(), channel_id) {
            let r = normalized_root_ts(m);
            if str_eq(r.as_str(), root_ts) {
                let doc_title = match &title {
                    Some(t) => Some(t.clone()),
                    None => optional_text(m.text.as_str()),
                };
                let doc = SearchDocumentRow {
                    channel_id: string_of(&crate::text::chars_of(channel_id)),
                    root_ts: string_of(&crate::text::chars_of(root_ts)),
                    message_ts: m.ts.clone(),
                    title: doc_title,
                    body: m.text.clone(),
                    message_occurred_at: m.ts.clone(),
                };
                let ghost before = kept@;
                kept.push(doc);
                proof {
                    assert(kept@.take(kept_len as int) =~= before.take(kept_len as int));
                }
            }
        }
        j = j + 1;
    }
    proof {
        assert(messages@.take(messages@.len() as int) =~= messages@);
    }
    *search_documents = kept;
}

} // verus!
