//! Text rules of the thread summary generator: compacted transcripts, the
//! cleaning of what the model returns, and the model endpoint's configuration.
use vstd::prelude::*;
use crate::domain::Message;
use crate::ordered::{sort_by_key, sorted_by_key_le};
use crate::rows::ThreadSummaryRow;
use crate::search_index::thread_messages;
use crate::text::{
    ascii_lower, chars_of, chars_eq, collapse_whitespace, collapse_ws, ends_with, extend_str,
    is_char, lowercase_ascii, string_of, trim, trim_by, trim_char, trim_end_by, trim_end_char,
    trim_start_by, trim_start_char, trim_ws, trimmed,
};
use crate::thread_card::{crlf_to_lf, replace_crlf};
use crate::thread_summary::{in_thread, opt_view};

verus! {

/// How many topic tags a summary keeps.
pub const MAX_TOPIC_TAGS: usize = 5;

/// What stands for a message without text.
pub const NO_TEXT: &'static str = "(no text)";

/// `compact_text`: the words of `value` joined by single spaces, cut to
/// `max_chars` characters, or the no-text marker when there are none.
pub open spec fn compact_text_spec(value: Seq<char>, max_chars: nat) -> Seq<char> {
    let n = collapse_whitespace(value);
    if n.len() == 0 {
        NO_TEXT@
    } else if n.len() <= max_chars {
        n
    } else {
        n.take(max_chars as int)
    }
}

pub fn compact_text(value: &str, max_chars: usize) -> (r: String)
    ensures
        r@ == compact_text_spec(value@, max_chars as nat),
{
    let cs = chars_of(value);
    let n = collapse_ws(&cs);
    if n.len() == 0 {
        proof {
            reveal_strlit("(no text)");
        }
        return NO_TEXT.to_owned();
    }
    let mut out: Vec<char> = Vec::new();
    let mut i: usize = 0;
    while i < n.len() && i < max_chars
        invariant
            i <= n.len(),
            i <= max_chars,
            out@ == n@.take(i as int),
        decreases n.len() - i,
    {
        out.push(n[i]);
        proof {
            assert(n@.take(i + 1) =~= n@.take(i as int).push(n@[i as int]));
        }
        i = i + 1;
    }
    proof {
        if n@.len() <= max_chars {
            assert(n@.take(n@.len() as int) =~= n@);
        }
    }
    string_of(&out)
}

/// `normalize_text`: the words of `value` joined by single spaces, if any.
pub open spec fn normalize_text_spec(value: Seq<char>) -> Option<Seq<char>> {
    if collapse_whitespace(value).len() == 0 {
        None
    } else {
        Some(collapse_whitespace(value))
    }
}

pub fn normalize_text(value: &str) -> (r: Option<String>)
    ensures
        opt_view(r) == normalize_text_spec(value@),
{
    let cs = chars_of(value);
    let n = collapse_ws(&cs);
    if n.len() == 0 {
        None
    } else {
        Some(string_of(&n))
    }
}

/// `normalize_markdown_text`: `value` trimmed, with CRLF line ends made LF, if
/// anything is left.
pub open spec fn normalize_markdown_spec(value: Seq<char>) -> Option<Seq<char>> {
    let n = crlf_to_lf(trim(value));
    if n.len() == 0 {
        None
    } else {
        Some(n)
    }
}

pub fn normalize_markdown_text(value: &str) -> (r: Option<String>)
    ensures
        opt_view(r) == normalize_markdown_spec(value@),
{
    let t = trimmed(value);
    let n = replace_crlf(&t);
    if n.len() == 0 {
        None
    } else {
        Some(string_of(&n))
    }
}

/// The statuses a summary may have.
pub open spec fn known_status(s: Seq<char>) -> bool {
    s == "answered"@ || s == "unresolved"@ || s == "announcement"@ || s == "debate"@ || s == "resource"@
}

/// `normalize_status`: the given status trimmed and lowercased if it is one of
/// the known statuses, else "discussion".
pub open spec fn status_of(value: Option<Seq<char>>) -> Seq<char> {
    match value {
        Some(v) => {
            let l = trim(v).map_values(|c: char| ascii_lower(c));
            if known_status(l) { l } else { "discussion"@ }
        },
        None => "discussion"@,
    }
}

fn is_literal(cs: &Vec<char>, lit: &str) -> (r: bool)
    ensures
        r == (cs@ == lit@),
{
    let l = chars_of(lit);
    chars_eq(cs, &l)
}

pub fn normalize_status(value: Option<&str>) -> (r: String)
    ensures
        r@ == status_of(opt_str(value)),
{
    proof {
        reveal_strlit("answered");
        reveal_strlit("unresolved");
        reveal_strlit("announcement");
        reveal_strlit("debate");
        reveal_strlit("resource");
        reveal_strlit("discussion");
    }
    match value {
        None => "discussion".to_owned(),
        Some(v) => {
            let t = trimmed(v);
            let l = lowercase_ascii(&t);
            if is_literal(&l, "answered") {
                "answered".to_owned()
            } else if is_literal(&l, "unresolved") {
                "unresolved".to_owned()
            } else if is_literal(&l, "announcement") {
                "announcement".to_owned()
            } else if is_literal(&l, "debate") {
                "debate".to_owned()
            } else if is_literal(&l, "resource") {
                "resource".to_owned()
            } else {
                "discussion".to_owned()
            }
        },
    }
}

/// The characters of an optional string slice.
pub open spec fn opt_str(o: Option<&str>) -> Option<Seq<char>> {
    match o {
        Some(s) => Some(s@),
        None => None,
    }
}

/// One topic tag cleaned: trimmed, leading `#` removed, ASCII lowercased.
pub open spec fn tag_norm(tag: Seq<char>) -> Seq<char> {
    trim_start_by(trim(tag), is_char('#')).map_values(|c: char| ascii_lower(c))
}

/// `normalize_topic_tags`: the cleaned tags, in order, without empty ones or
/// repeats, at most `MAX_TOPIC_TAGS` of them.
pub open spec fn topic_tags_of(tags: Seq<Seq<char>>) -> Seq<Seq<char>>
    decreases tags.len(),
{
    if tags.len() == 0 {
        Seq::empty()
    } else {
        let prev = topic_tags_of(tags.drop_last());
        let n = tag_norm(tags.last());
        if prev.len() >= MAX_TOPIC_TAGS || n.len() == 0 || prev.contains(n) {
            prev
        } else {
            prev.push(n)
        }
    }
}

proof fn lemma_topic_tags_bounded(tags: Seq<Seq<char>>)
    ensures
        topic_tags_of(tags).len() <= MAX_TOPIC_TAGS,
    decreases tags.len(),
{
    if tags.len() > 0 {
        lemma_topic_tags_bounded(tags.drop_last());
    }
}

/// The kept topic tags are distinct and none is empty.
pub proof fn lemma_topic_tags_distinct(tags: Seq<Seq<char>>)
    ensures
        topic_tags_of(tags).no_duplicates(),
        forall|i: int| 0 <= i < topic_tags_of(tags).len() ==> (#[trigger] topic_tags_of(tags)[i]).len() > 0,
    decreases tags.len(),
{
    if tags.len() > 0 {
        lemma_topic_tags_distinct(tags.drop_last());
        let prev = topic_tags_of(tags.drop_last());
        let n = tag_norm(tags.last());
        if !(prev.len() >= MAX_TOPIC_TAGS || n.len() == 0 || prev.contains(n)) {
            let r = prev.push(n);
            assert forall|i: int, j: int| 0 <= i < r.len() && 0 <= j < r.len() && i != j implies r[i] != r[j] by {
                if i == prev.len() as int {
                    assert(prev.contains(r[j]) ==> r[j] != n);
                    assert(r[j] == prev[j]);
                } else if j == prev.len() as int {
                    assert(r[i] == prev[i]);
                }
            }
        }
    }
}

/// Once `MAX_TOPIC_TAGS` tags are kept, later tags change nothing.
proof fn lemma_topic_tags_full(tags: Seq<Seq<char>>, i: int)
    requires
        0 <= i <= tags.len(),
        topic_tags_of(tags.take(i)).len() >= MAX_TOPIC_TAGS,
    ensures
        topic_tags_of(tags) == topic_tags_of(tags.take(i)),
    decreases tags.len() - i,
{
    if i < tags.len() {
        assert(tags.take(i + 1).drop_last() =~= tags.take(i));
        assert(topic_tags_of(tags.take(i + 1)) == topic_tags_of(tags.take(i)));
        lemma_topic_tags_full(tags, i + 1);
    } else {
        assert(tags.take(i) =~= tags);
    }
}

fn contains_chars(v: &Vec<Vec<char>>, x: &Vec<char>) -> (r: bool)
    ensures
        r == crate::ordered::chars_view(v@).contains(x@),
{
    let mut i: usize = 0;
    while i < v.len()
        invariant
            i <= v.len(),
            forall|j: int| 0 <= j < i ==> #[trigger] v@[j]@ != x@,
        decreases v.len() - i,
    {
        if chars_eq(&v[i], x) {
            proof {
                assert(crate::ordered::chars_view(v@)[i as int] == x@);
            }
            return true;
        }
        i = i + 1;
    }
    proof {
        if crate::ordered::chars_view(v@).contains(x@) {
            let j = choose|j: int| 0 <= j < crate::ordered::chars_view(v@).len() && crate::ordered::chars_view(v@)[j] == x@;
            assert(v@[j]@ == x@);
        }
    }
    false
}

pub fn normalize_topic_tags(topic_tags: Vec<String>) -> (r: Vec<String>)
    ensures
        crate::thread_summary::users_view(r@) == topic_tags_of(crate::thread_summary::users_view(topic_tags@)),
        r@.len() <= MAX_TOPIC_TAGS,
{
    let ghost tv = crate::thread_summary::users_view(topic_tags@);
    let mut tags: Vec<Vec<char>> = Vec::new();
    let mut i: usize = 0;
    proof {
        assert(tv.take(tv.len() as int) =~= tv);
        assert(tv.take(0) =~= Seq::<Seq<char>>::empty());
        assert(crate::ordered::chars_view(tags@) =~= Seq::<Seq<char>>::empty());
    }
    while i < topic_tags.len()
        invariant_except_break
            tags@.len() < MAX_TOPIC_TAGS,
        invariant
            i <= topic_tags.len(),
            tv == crate::thread_summary::users_view(topic_tags@),
            crate::ordered::chars_view(tags@) == topic_tags_of(tv.take(i as int)),
            tv.take(tv.len() as int) == tv,
        ensures
            crate::ordered::chars_view(tags@) == topic_tags_of(tv),
        decreases topic_tags.len() - i,
    {
        let ghost prev = crate::ordered::chars_view(tags@);
        proof {
            assert(tv.take(i + 1).drop_last() =~= tv.take(i as int));
            assert(tv.take(i + 1).last() == topic_tags@[i as int]@);
        }
        let t = trimmed(topic_tags[i].as_str());
        let s = trim_start_char(&t, '#');
        let n = lowercase_ascii(&s);
        if n.len() > 0 && !contains_chars(&tags, &n) {
            tags.push(n);
            proof {
                assert(crate::ordered::chars_view(tags@) =~= prev.push(n@));
            }
        }
        i = i + 1;
        if tags.len() == MAX_TOPIC_TAGS {
            proof {
                lemma_topic_tags_full(tv, i as int);
            }
            break;
        }
    }
    proof {
        assert(tv.take(tv.len() as int) =~= tv);
    }
    let mut out: Vec<String> = Vec::new();
    let mut k: usize = 0;
    while k < tags.len()
        invariant
            k <= tags.len(),
            crate::thread_summary::users_view(out@) == crate::ordered::chars_view(tags@).take(k as int),
        decreases tags.len() - k,
    {
        let ghost o = out@;
        let sk = string_of(&tags[k]);
        out.push(sk);
        proof {
            assert(out@ == o.push(sk));
            assert(crate::thread_summary::users_view(out@) =~= crate::thread_summary::users_view(o).push(tags@[k as int]@));
            assert(crate::ordered::chars_view(tags@).take(k + 1) =~= crate::ordered::chars_view(tags@).take(k as int).push(tags@[k as int]@));
        }
        k = k + 1;
    }
    proof {
        assert(crate::ordered::chars_view(tags@).take(tags@.len() as int) =~= crate::ordered::chars_view(tags@));
        lemma_topic_tags_bounded(tv);
    }
    out
}

/// `normalize_generated_payload_key`: the key trimmed, stripped of quotes and
/// of trailing colons, spaces and hyphens made underscores, ASCII lowercased.
pub open spec fn payload_key_spec(key: Seq<char>) -> Seq<char> {
    let a = trim(trim_by(trim(key), is_char('"')));
    let b = trim(trim_end_by(a, is_char(':')));
    b.map_values(|c: char| ascii_lower(if c == ' ' || c == '-' { '_' } else { c }))
}

pub fn normalize_generated_payload_key(key: &str) -> (r: String)
    ensures
        r@ == payload_key_spec(key@),
{
    let t = trimmed(key);
    let q = trim_char(&t, '"');
    let a = trim_ws(&q);
    let c = trim_end_char(&a, ':');
    let b = trim_ws(&c);
    let mut out: Vec<char> = Vec::new();
    let mut i: usize = 0;
    while i < b.len()
        invariant
            i <= b.len(),
            out@ == b@.take(i as int).map_values(|c: char| ascii_lower(if c == ' ' || c == '-' { '_' } else { c })),
        decreases b.len() - i,
    {
        let ch = b[i];
        let m = if ch == ' ' || ch == '-' { '_' } else { ch };
        out.push(crate::text::to_ascii_lower(m));
        proof {
            assert(b@.take(i + 1).map_values(|c: char| ascii_lower(if c == ' ' || c == '-' { '_' } else { c }))
                =~= b@.take(i as int).map_values(|c: char| ascii_lower(if c == ' ' || c == '-' { '_' } else { c })).push(ascii_lower(m)));
        }
        i = i + 1;
    }
    proof {
        assert(b@.take(b@.len() as int) =~= b@);
    }
    string_of(&out)
}

/// The path of the chat completions call under an API base.
pub const CHAT_COMPLETIONS_PATH: &'static str = "/chat/completions";

/// `chat_completions_url`: the base trimmed and stripped of trailing slashes,
/// kept as it is when it already ends with the call's path, else with the path
/// appended.
pub open spec fn chat_completions_spec(api_base_url: Seq<char>) -> Seq<char> {
    let n = trim_end_by(trim(api_base_url), is_char('/'));
    let p = CHAT_COMPLETIONS_PATH@;
    if p.len() <= n.len() && n.skip(n.len() - p.len()) == p {
        n
    } else {
        n + p
    }
}

pub fn chat_completions_url(api_base_url: &str) -> (r: String)
    ensures
        r@ == chat_completions_spec(api_base_url@),
{
    let t = trimmed(api_base_url);
    let mut n = trim_end_char(&t, '/');
    let p = chars_of(CHAT_COMPLETIONS_PATH);
    if ends_with(&n, &p) {
        return string_of(&n);
    }
    let ghost n0 = n@;
    crate::text::extend_chars(&mut n, &p);
    proof {
        assert(n@ == n0 + p@);
    }
    string_of(&n)
}

/// Where and with what the summary model is called; key and model may be
/// missing.
#[derive(Debug, PartialEq, Eq)]
pub struct OpenRouterConfig {
    pub api_base_url: String,
    pub api_key: Option<String>,
    pub model: Option<String>,
}

/// A configuration with a key and a model.
#[derive(Debug, PartialEq, Eq)]
pub struct ReadyOpenRouterConfig {
    pub api_base_url: String,
    pub api_key: String,
    pub model: String,
}

/// A setting trimmed, if anything is left.
pub open spec fn present(o: Option<Seq<char>>) -> Option<Seq<char>> {
    match o {
        Some(v) => if trim(v).len() > 0 { Some(trim(v)) } else { None },
        None => None,
    }
}

fn present_setting(o: &Option<String>) -> (r: Option<String>)
    ensures
        opt_view(r) == present(opt_view(*o)),
{
    match o {
        Some(v) => {
            let t = trimmed(v.as_str());
            if t.len() > 0 {
                Some(string_of(&t))
            } else {
                None
            }
        },
        None => None,
    }
}

impl OpenRouterConfig {
    /// The configuration with key and model trimmed, when both are given and
    /// not blank; the base is trimmed too.
    pub fn ready(&self) -> (r: Option<ReadyOpenRouterConfig>)
        ensures
            r is Some <==> (present(opt_view(self.api_key)) is Some && present(opt_view(self.model)) is Some),
            r matches Some(c) ==> {
                &&& Some(c.api_key@) == present(opt_view(self.api_key))
                &&& Some(c.model@) == present(opt_view(self.model))
                &&& c.api_base_url@ == trim(self.api_base_url@)
            },
    {
        let api_key = match present_setting(&self.api_key) {
            Some(k) => k,
            None => {
                return None;
            },
        };
        let model = match present_setting(&self.model) {
            Some(m) => m,
            None => {
                return None;
            },
        };
        let base = trimmed(self.api_base_url.as_str());
        Some(ReadyOpenRouterConfig { api_base_url: string_of(&base), api_key, model })
    }
}

/// The first message of `msgs` with timestamp `ts`.
pub open spec fn first_with_ts(msgs: Seq<Message>, ts: Seq<char>) -> Option<Message>
    decreases msgs.len(),
{
    if msgs.len() == 0 {
        None
    } else if msgs[0].ts@ == ts {
        Some(msgs[0])
    } else {
        first_with_ts(msgs.skip(1), ts)
    }
}

pub fn find_ts(messages: &[Message], ts: &str) -> (r: Option<usize>)
    ensures
        match r {
            Some(i) => i < messages@.len() && first_with_ts(messages@, ts@) == Some(messages@[i as int]),
            None => first_with_ts(messages@, ts@) is None,
        },
{
    let mut i: usize = 0;
    proof {
        assert(messages@.skip(0) =~= messages@);
    }
    while i < messages.len()
        invariant
            i <= messages@.len(),
            first_with_ts(messages@, ts@) == first_with_ts(messages@.skip(i as int), ts@),
        decreases messages@.len() - i,
    {
        proof {
            assert(messages@.skip(i as int)[0] == messages@[i as int]);
            assert(messages@.skip(i as int).skip(1) =~= messages@.skip(i + 1));
        }
        if crate::text::str_eq(messages[i].ts.as_str(), ts) {
            return Some(i);
        }
        i = i + 1;
    }
    None
}

/// The number of characters of the thread's root message among `messages`,
/// if it is there.
pub fn root_message_char_count(summary: &ThreadSummaryRow, messages: &[Message]) -> (r: Option<usize>)
    ensures
        match first_with_ts(messages@, summary.root_ts@) {
            Some(m) => r == Some(m.text@.len() as usize),
            None => r is None,
        },
{
    match find_ts(messages, summary.root_ts.as_str()) {
        Some(i) => {
            let cs = chars_of(messages[i].text.as_str());
            Some(cs.len())
        },
        None => None,
    }
}

/// `summary_matches_channel_filter`: no filter (or a blank one) lets every
/// summary through; a filter lets through the summaries of its channel, the
/// filter trimmed.
pub open spec fn matches_channel_filter(summary_channel: Seq<char>, filter: Option<Seq<char>>) -> bool {
    match present(filter) {
        Some(c) => summary_channel == c,
        None => true,
    }
}

pub fn summary_matches_channel_filter(summary: &ThreadSummaryRow, channel_id: Option<&str>) -> (r: bool)
    ensures
        r == matches_channel_filter(summary.channel_id@, opt_str(channel_id)),
{
    match channel_id {
        Some(c) => {
            let t = trimmed(c);
            if t.len() == 0 {
                true
            } else {
                let s = chars_of(summary.channel_id.as_str());
                chars_eq(&s, &t)
            }
        },
        None => true,
    }
}

/// The messages of thread `(channel_id, root_ts)`, ordered by timestamp.
pub fn thread_group_messages(messages: &Vec<Message>, channel_id: &str, root_ts: &str) -> (r: Vec<Message>)
    ensures
        r@.to_multiset() == thread_messages(messages@, channel_id@, root_ts@).to_multiset(),
        sorted_by_key_le(r@),
        forall|i: int| 0 <= i < r@.len() ==> in_thread(#[trigger] r@[i], channel_id@, root_ts@),
{
    let mut picked: Vec<Message> = Vec::new();
    let mut i: usize = 0;
    proof {
        assert(messages@.take(0) =~= Seq::<Message>::empty());
    }
    while i < messages.len()
        invariant
            i <= messages.len(),
            picked@ == thread_messages(messages@.take(i as int), channel_id@, root_ts@),
        decreases messages.len() - i,
    {
        proof {
            assert(messages@.take(i + 1).drop_last() =~= messages@.take(i as int));
        }
        let m = &messages[i];
        if crate::text::str_eq(m.channel_id.as_str(), channel_id) {
            let root = crate::thread_summary::normalized_root_ts(m);
            if crate::text::str_eq(root.as_str(), root_ts) {
                picked.push(m.clone());
            }
        }
        i = i + 1;
    }
    proof {
        assert(messages@.take(messages@.len() as int) =~= messages@);
        lemma_thread_messages_in_thread(messages@, channel_id@, root_ts@);
    }
    let r = sort_by_key(picked);
    proof {
        assert forall|i: int| 0 <= i < r@.len() implies in_thread(#[trigger] r@[i], channel_id@, root_ts@) by {
            vstd::seq_lib::to_multiset_contains(r@, r@[i]);
            assert(r@.contains(r@[i]));
            vstd::seq_lib::to_multiset_contains(thread_messages(messages@, channel_id@, root_ts@), r@[i]);
        }
    }
    r
}

proof fn lemma_thread_messages_in_thread(msgs: Seq<Message>, ch: Seq<char>, root: Seq<char>)
    ensures
        forall|x: Message| thread_messages(msgs, ch, root).contains(x) ==> in_thread(x, ch, root),
    decreases msgs.len(),
{
    if msgs.len() > 0 {
        lemma_thread_messages_in_thread(msgs.drop_last(), ch, root);
        let prev = thread_messages(msgs.drop_last(), ch, root);
        assert forall|x: Message| thread_messages(msgs, ch, root).contains(x) implies in_thread(x, ch, root) by {
            if in_thread(msgs.last(), ch, root) {
                let j = choose|j: int| 0 <= j < prev.push(msgs.last()).len() && prev.push(msgs.last())[j] == x;
                if j < prev.len() {
                    assert(prev.contains(x));
                }
            }
        }
    }
}

/// The messages of each candidate thread, ordered by timestamp, one group per
/// candidate key, in the order of the keys.
pub fn group_thread_messages(messages: &Vec<Message>, candidate_keys: &Vec<(String, String)>) -> (r: Vec<Vec<Message>>)
    ensures
        r@.len() == candidate_keys@.len(),
        forall|k: int| 0 <= k < r@.len() ==> {
            &&& (#[trigger] r@[k])@.to_multiset() == thread_messages(messages@, candidate_keys@[k].0@, candidate_keys@[k].1@).to_multiset()
            &&& sorted_by_key_le(r@[k]@)
        },
{
    let mut out: Vec<Vec<Message>> = Vec::new();
    let mut k: usize = 0;
    while k < candidate_keys.len()
        invariant
            k <= candidate_keys.len(),
            out@.len() == k,
            forall|j: int| 0 <= j < k ==> {
                &&& (#[trigger] out@[j])@.to_multiset() == thread_messages(messages@, candidate_keys@[j].0@, candidate_keys@[j].1@).to_multiset()
                &&& sorted_by_key_le(out@[j]@)
            },
        decreases candidate_keys.len() - k,
    {
        let (ch, root) = &candidate_keys[k];
        let g = thread_group_messages(messages, ch.as_str(), root.as_str());
        out.push(g);
        k = k + 1;
    }
    out
}

} // verus!
