//! Thread cards: the root message's author and text with the thread's roll-up.
use vstd::prelude::*;
use crate::domain::{clone_opt_string, Message};
use crate::rows::{ThreadCardRow, ThreadSummaryRow};
use crate::text::{chars_of, string_of, trim, trim_ws};
use crate::thread_summary::{find_message, lemma_lookup_same, lookup, opt_view, same_messages, summary_view};

verus! {

pub const NO_TEXT_PLACEHOLDER: &'static str = "(no text)";

pub const MAX_PREVIEW_CHARS: usize = 700;

/// `s` with every `\r\n` replaced by `\n`, scanning left to right.
pub open spec fn crlf_to_lf(s: Seq<char>) -> Seq<char>
    decreases s.len(),
{
    if s.len() == 0 {
        Seq::empty()
    } else if s.len() >= 2 && s[0] == '\r' && s[1] == '\n' {
        seq!['\n'] + crlf_to_lf(s.skip(2))
    } else {
        seq![s[0]] + crlf_to_lf(s.skip(1))
    }
}

/// Line-end normalization splits at every `\r\n`: the text before the pair and the
/// text after it are normalized on their own, and the pair becomes one `\n`.
pub proof fn lemma_crlf_pair_becomes_lf(a: Seq<char>, b: Seq<char>)
    ensures
        crlf_to_lf(a + seq!['\r', '\n'] + b) == crlf_to_lf(a) + seq!['\n'] + crlf_to_lf(b),
{
    lemma_crlf_concat(a, seq!['\r', '\n'] + b);
    assert(a + seq!['\r', '\n'] + b =~= a + (seq!['\r', '\n'] + b));
    assert((seq!['\r', '\n'] + b).skip(2) =~= b);
}

/// Normalization works piece by piece wherever the cut does not fall inside a
/// `\r\n` pair.
pub proof fn lemma_crlf_concat(a: Seq<char>, b: Seq<char>)
    requires
        !(a.len() > 0 && a.last() == '\r' && b.len() > 0 && b[0] == '\n'),
    ensures
        crlf_to_lf(a + b) == crlf_to_lf(a) + crlf_to_lf(b),
    decreases a.len(),
{
    if a.len() == 0 {
        assert(a + b =~= b);
        assert(crlf_to_lf(a) + crlf_to_lf(b) =~= crlf_to_lf(b));
    } else if a.len() >= 2 && a[0] == '\r' && a[1] == '\n' {
        assert((a + b).skip(2) =~= a.skip(2) + b);
        lemma_crlf_concat(a.skip(2), b);
        assert(seq!['\n'] + (crlf_to_lf(a.skip(2)) + crlf_to_lf(b)) =~= seq!['\n'] + crlf_to_lf(a.skip(2)) + crlf_to_lf(b));
    } else {
        assert((a + b).skip(1) =~= a.skip(1) + b);
        assert((a + b)[0] == a[0]);
        if a.len() == 1 {
            assert(a.skip(1) =~= Seq::<char>::empty());
            assert(!((a + b).len() >= 2 && (a + b)[0] == '\r' && (a + b)[1] == '\n'));
        } else {
            assert((a + b)[1] == a[1]);
        }
        lemma_crlf_concat(a.skip(1), b);
        assert(seq![a[0]] + (crlf_to_lf(a.skip(1)) + crlf_to_lf(b)) =~= seq![a[0]] + crlf_to_lf(a.skip(1)) + crlf_to_lf(b));
    }
}

/// A text without a `\r\n` pair is left as it is.
pub proof fn lemma_crlf_free_text_unchanged(s: Seq<char>)
    requires
        forall|i: int| 0 <= i < s.len() - 1 ==> !(s[i] == '\r' && #[trigger] s[i + 1] == '\n'),
    ensures
        crlf_to_lf(s) == s,
    decreases s.len(),
{
    if s.len() > 0 {
        let t = s.skip(1);
        assert forall|i: int| 0 <= i < t.len() - 1 implies !(t[i] == '\r' && #[trigger] t[i + 1] == '\n') by {
            assert(t[i] == s[i + 1] && t[i + 1] == s[i + 2]);
            assert(!(s[i + 1] == '\r' && s[(i + 1) + 1] == '\n'));
        }
        lemma_crlf_free_text_unchanged(t);
        if s.len() >= 2 {
            assert(!(s[0] == '\r' && s[0int + 1] == '\n'));
        }
        assert(seq![s[0]] + t =~= s);
    }
}

pub fn replace_crlf(cs: &Vec<char>) -> (r: Vec<char>)
    ensures
        r@ == crlf_to_lf(cs@),
{
    let mut out: Vec<char> = Vec::new();
    let mut i: usize = 0;
    proof {
        assert(cs@.skip(0) =~= cs@);
    }
    while i < cs.len()
        invariant
            i <= cs.len(),
            out@ + crlf_to_lf(cs@.skip(i as int)) == crlf_to_lf(cs@),
        decreases cs.len() - i,
    {
        let ghost rest = cs@.skip(i as int);
        if cs[i] == '\r' && i + 1 < cs.len() && cs[i + 1] == '\n' {
            proof {
                assert(rest.skip(2) =~= cs@.skip(i + 2));
                assert(out@.push('\n') + crlf_to_lf(rest.skip(2)) =~= out@ + crlf_to_lf(rest));
            }
            out.push('\n');
            i = i + 2;
        } else {
            proof {
                assert(rest.skip(1) =~= cs@.skip(i + 1));
                assert(out@.push(cs@[i as int]) + crlf_to_lf(rest.skip(1)) =~= out@ + crlf_to_lf(rest));
            }
            out.push(cs[i]);
            i = i + 1;
        }
    }
    proof {
        assert(cs@.skip(i as int) =~= Seq::<char>::empty());
        assert(out@ + Seq::<char>::empty() =~= out@);
    }
    out
}

/// The first `limit` characters of `value`, followed by `…` when some were cut.
pub open spec fn truncated(value: Seq<char>, limit: nat) -> Seq<char> {
    if value.len() > limit { value.take(limit as int).push('…') } else { value }
}

fn truncate_chars(value: &Vec<char>, limit: usize) -> (r: Vec<char>)
    ensures
        r@ == truncated(value@, limit as nat),
{
    if value.len() > limit {
        let mut out = crate::text::slice_chars(value, 0, limit);
        out.push('…');
        proof {
            assert(value@.subrange(0, limit as int) =~= value@.take(limit as int));
        }
        out
    } else {
        crate::text::slice_chars(value, 0, value.len())
    }
}

/// `value` cut to `limit` characters, with `…` when something was cut.
pub fn truncate_text(value: &str, limit: usize) -> (r: String)
    ensures
        r@ == truncated(value@, limit as nat),
{
    let cs = chars_of(value);
    string_of(&truncate_chars(&cs, limit))
}

/// The card text of a root message: line endings normalized and trimmed, the
/// placeholder when nothing is left, else at most 700 characters and `…`.
pub open spec fn card_text(value: Seq<char>) -> Seq<char> {
    let normalized = trim(crlf_to_lf(value));
    if normalized.len() == 0 {
        NO_TEXT_PLACEHOLDER@
    } else {
        truncated(normalized, MAX_PREVIEW_CHARS as nat)
    }
}

pub fn normalize_thread_card_text(value: &str) -> (r: String)
    ensures
        r@ == card_text(value@),
{
    let cs = chars_of(value);
    let lf = replace_crlf(&cs);
    let normalized = trim_ws(&lf);
    if normalized.len() == 0 {
        return string_of(&chars_of(NO_TEXT_PLACEHOLDER));
    }
    string_of(&truncate_chars(&normalized, MAX_PREVIEW_CHARS))
}

/// `card` is the card of the thread that `summary` rolls up, whose root is `root`.
pub open spec fn card_of(card: ThreadCardRow, root: Message, summary: ThreadSummaryRow) -> bool {
    &&& card.channel_id == summary.channel_id
    &&& card.root_ts == summary.root_ts
    &&& card.author_user_id == root.user_id
    &&& card.title@ == card_text(root.text@)
    &&& card.preview@ == card_text(root.text@)
    &&& card.reply_count == summary.reply_count
    &&& card.participant_count == summary.participant_count
    &&& card.reaction_count == summary.reaction_count
    &&& card.file_count == summary.file_count
    &&& card.root_message_at == summary.root_message_at
    &&& card.last_activity_ts == summary.last_activity_ts
}

pub fn build_thread_card(root: &Message, summary: &ThreadSummaryRow) -> (r: ThreadCardRow)
    ensures
        card_of(r, *root, *summary),
{
    let text = normalize_thread_card_text(root.text.as_str());
    ThreadCardRow {
        channel_id: summary.channel_id.clone(),
        root_ts: summary.root_ts.clone(),
        author_user_id: clone_opt_string(&root.user_id),
        title: text.clone(),
        preview: text,
        reply_count: summary.reply_count,
        participant_count: summary.participant_count,
        reaction_count: summary.reaction_count,
        file_count: summary.file_count,
        root_message_at: summary.root_message_at.clone(),
        last_activity_ts: summary.last_activity_ts.clone(),
    }
}

/// The summaries whose root message is stored, in order.
pub open spec fn summaries_with_root(msgs: Seq<Message>, summaries: Seq<ThreadSummaryRow>) -> Seq<ThreadSummaryRow>
    decreases summaries.len(),
{
    if summaries.len() == 0 {
        Seq::empty()
    } else {
        let s = summaries.last();
        let prev = summaries_with_root(msgs, summaries.drop_last());
        if lookup(msgs, s.channel_id@, s.root_ts@) is Some { prev.push(s) } else { prev }
    }
}

/// `cards` are the cards of the summaries whose root message is stored.
pub open spec fn thread_cards_of(cards: Seq<ThreadCardRow>, msgs: Seq<Message>, summaries: Seq<ThreadSummaryRow>) -> bool {
    let with_root = summaries_with_root(msgs, summaries);
    &&& cards.len() == with_root.len()
    &&& forall|k: int| 0 <= k < cards.len() ==> #[trigger] card_of(cards[k], lookup(msgs, with_root[k].channel_id@, with_root[k].root_ts@).unwrap(), with_root[k])
}

/// The cards of all threads whose root message is stored.
pub fn build_thread_cards(messages: &Vec<Message>, thread_summaries: &Vec<ThreadSummaryRow>) -> (r: Vec<ThreadCardRow>)
    ensures
        thread_cards_of(r@, messages@, thread_summaries@),
{
    let mut out: Vec<ThreadCardRow> = Vec::new();
    let mut i: usize = 0;
    proof {
        assert(thread_summaries@.take(0) =~= Seq::<ThreadSummaryRow>::empty());
    }
    while i < thread_summaries.len()
        invariant
            i <= thread_summaries.len(),
            thread_cards_of(out@, messages@, thread_summaries@.take(i as int)),
        decreases thread_summaries.len() - i,
    {
        proof {
            assert(thread_summaries@.take(i + 1).drop_last() =~= thread_summaries@.take(i as int));
        }
        let s = &thread_summaries[i];
        match find_message(messages, s.channel_id.as_str(), s.root_ts.as_str()) {
            Some(k) => {
                let card = build_thread_card(&messages[k], s);
                out.push(card);
            },
            None => {},
        }
        i = i + 1;
    }
    proof {
        assert(thread_summaries@.take(thread_summaries@.len() as int) =~= thread_summaries@);
    }
    out
}

/// A card by the characters of its strings.
pub open spec fn card_view(c: ThreadCardRow) -> (Seq<char>, Seq<char>, Option<Seq<char>>, Seq<char>, Seq<char>, i64, i64, i64, i64, Seq<char>, Seq<char>) {
    (c.channel_id@, c.root_ts@, opt_view(c.author_user_id), c.title@, c.preview@, c.reply_count,
        c.participant_count, c.reaction_count, c.file_count, c.root_message_at@, c.last_activity_ts@)
}

/// Roll-up lists with the same rows, row by row.
pub open spec fn same_summaries(a: Seq<ThreadSummaryRow>, b: Seq<ThreadSummaryRow>) -> bool {
    &&& a.len() == b.len()
    &&& forall|k: int| 0 <= k < a.len() ==> summary_view(#[trigger] a[k]) == summary_view(b[k])
}

proof fn lemma_with_root_same(a: Seq<Message>, b: Seq<Message>, sa: Seq<ThreadSummaryRow>, sb: Seq<ThreadSummaryRow>)
    requires
        same_messages(a, b),
        same_summaries(sa, sb),
    ensures
        same_summaries(summaries_with_root(a, sa), summaries_with_root(b, sb)),
    decreases sa.len(),
{
    if sa.len() > 0 {
        assert(same_summaries(sa.drop_last(), sb.drop_last())) by {
            assert forall|k: int| 0 <= k < sa.drop_last().len() implies summary_view(#[trigger] sa.drop_last()[k]) == summary_view(sb.drop_last()[k]) by {
                assert(sa.drop_last()[k] == sa[k]);
                assert(sb.drop_last()[k] == sb[k]);
            }
        }
        lemma_with_root_same(a, b, sa.drop_last(), sb.drop_last());
        let x = sa.last();
        let y = sb.last();
        assert(summary_view(x) == summary_view(y));
        lemma_lookup_same(a, b, x.channel_id@, x.root_ts@);
        let pa = summaries_with_root(a, sa.drop_last());
        let pb = summaries_with_root(b, sb.drop_last());
        if lookup(a, x.channel_id@, x.root_ts@) is Some {
            assert forall|k: int| 0 <= k < summaries_with_root(a, sa).len() implies summary_view(#[trigger] summaries_with_root(a, sa)[k]) == summary_view(summaries_with_root(b, sb)[k]) by {
                if k < pa.len() {
                    assert(summaries_with_root(a, sa)[k] == pa[k]);
                    assert(summaries_with_root(b, sb)[k] == pb[k]);
                }
            }
        }
    }
}

/// The cards of the same messages and roll-ups are the same, card by card.
pub proof fn lemma_thread_cards_same(
    cards_a: Seq<ThreadCardRow>,
    cards_b: Seq<ThreadCardRow>,
    a: Seq<Message>,
    b: Seq<Message>,
    sa: Seq<ThreadSummaryRow>,
    sb: Seq<ThreadSummaryRow>,
)
    requires
        same_messages(a, b),
        same_summaries(sa, sb),
        thread_cards_of(cards_a, a, sa),
        thread_cards_of(cards_b, b, sb),
    ensures
        cards_a.len() == cards_b.len(),
        forall|k: int| 0 <= k < cards_a.len() ==> card_view(#[trigger] cards_a[k]) == card_view(cards_b[k]),
{
    lemma_with_root_same(a, b, sa, sb);
    let wa = summaries_with_root(a, sa);
    let wb = summaries_with_root(b, sb);
    assert forall|k: int| 0 <= k < cards_a.len() implies card_view(#[trigger] cards_a[k]) == card_view(cards_b[k]) by {
        assert(card_of(cards_a[k], lookup(a, wa[k].channel_id@, wa[k].root_ts@).unwrap(), wa[k]));
        assert(card_of(cards_b[k], lookup(b, wb[k].channel_id@, wb[k].root_ts@).unwrap(), wb[k]));
        assert(summary_view(wa[k]) == summary_view(wb[k]));
        lemma_lookup_same(a, b, wa[k].channel_id@, wa[k].root_ts@);
    }
}

} // verus!
