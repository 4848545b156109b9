//! The decisions of the summary generation job: which threads get a summary,
//! what is made of the model's reply, and what is stored.
use vstd::prelude::*;
use crate::language::{combined_output, is_output_language_mismatch, output_mismatch, LanguageHint};
use crate::ordered::{sort_by_key, sorted_by_key_le, chars_view, Keyed};
use crate::rows::{GeneratedThreadSummaryRow, ThreadSummaryRow};
use crate::summary_text::{
    normalize_markdown_spec, normalize_markdown_text, normalize_status, normalize_text,
    normalize_text_spec, normalize_topic_tags, opt_str, status_of, topic_tags_of,
};
use crate::text::chars_of;
use crate::thread_summary::{opt_view, users_view};

verus! {

/// A thread whose root message has at most this many characters and that
/// has no reply is not summarized.
pub const MIN_STANDALONE_SUMMARY_CHARS: usize = 500;

/// How many times the model is asked before a reply in the wrong language is
/// given up on.
pub const MAX_SUMMARY_LANGUAGE_ATTEMPTS: usize = 2;

/// What the generation job does with one candidate thread.
#[derive(Debug, Clone, Copy, PartialEq, Eq, Structural)]
pub enum CandidateDecision {
    /// A summary by the same model of the same latest activity is stored.
    SkipUpToDate,
    /// No message of the thread was found.
    SkipNoMessages,
    /// No reply, and the root message is missing or short.
    SkipShortStandalone,
    /// Ask the model.
    Generate,
}

/// The decision for a candidate: `up_to_date` says whether a stored summary is
/// by the same model and of the same latest activity; `message_count` counts
/// the thread's messages; `root_message_chars` is the length of the root
/// message, if found.
pub open spec fn candidate_decision_spec(
    force_regenerate: bool,
    up_to_date: bool,
    message_count: nat,
    reply_count: int,
    root_message_chars: Option<nat>,
) -> CandidateDecision {
    if !force_regenerate && up_to_date {
        CandidateDecision::SkipUpToDate
    } else if message_count == 0 {
        CandidateDecision::SkipNoMessages
    } else if reply_count == 0 && (match root_message_chars {
        None => true,
        Some(c) => c <= MIN_STANDALONE_SUMMARY_CHARS,
    }) {
        CandidateDecision::SkipShortStandalone
    } else {
        CandidateDecision::Generate
    }
}

pub fn candidate_decision(
    force_regenerate: bool,
    up_to_date: bool,
    message_count: usize,
    reply_count: i64,
    root_message_chars: Option<usize>,
) -> (r: CandidateDecision)
    ensures
        r == candidate_decision_spec(
            force_regenerate,
            up_to_date,
            message_count as nat,
            reply_count as int,
            match root_message_chars {
                Some(c) => Some(c as nat),
                None => None,
            },
        ),
{
    if !force_regenerate && up_to_date {
        return CandidateDecision::SkipUpToDate;
    }
    if message_count == 0 {
        return CandidateDecision::SkipNoMessages;
    }
    let short_root = match root_message_chars {
        None => true,
        Some(c) => c <= MIN_STANDALONE_SUMMARY_CHARS,
    };
    if reply_count == 0 && short_root {
        return CandidateDecision::SkipShortStandalone;
    }
    CandidateDecision::Generate
}

/// The counts that the generation job answers with.
#[derive(Debug, Clone, Copy, PartialEq, Eq)]
pub struct GenerationTally {
    pub generated: usize,
    pub skipped: usize,
    pub failed: usize,
}

impl GenerationTally {
    pub fn new() -> (r: GenerationTally)
        ensures
            r.generated == 0 && r.skipped == 0 && r.failed == 0,
    {
        GenerationTally { generated: 0, skipped: 0, failed: 0 }
    }

    /// Counts one candidate: skipped, generated and stored, or failed.
    pub fn count(&mut self, decision: CandidateDecision, stored: bool)
        requires
            old(self).generated + old(self).skipped + old(self).failed < usize::MAX,
        ensures
            decision != CandidateDecision::Generate ==> *final(self) == (GenerationTally { skipped: (old(self).skipped + 1) as usize, ..*old(self) }),
            decision == CandidateDecision::Generate && stored ==> *final(self) == (GenerationTally { generated: (old(self).generated + 1) as usize, ..*old(self) }),
            decision == CandidateDecision::Generate && !stored ==> *final(self) == (GenerationTally { failed: (old(self).failed + 1) as usize, ..*old(self) }),
    {
        match decision {
            CandidateDecision::Generate => {
                if stored {
                    self.generated = self.generated + 1;
                } else {
                    self.failed = self.failed + 1;
                }
            },
            _ => {
                self.skipped = self.skipped + 1;
            },
        }
    }
}

/// What the model returned, as parsed.
#[derive(Debug, PartialEq, Eq)]
pub struct GeneratedSummaryPayload {
    pub summary: String,
    pub full_summary: Option<String>,
    pub why_it_mattered: Option<String>,
    pub status: Option<String>,
    pub topic_tags: Option<Vec<String>>,
}

/// A cleaned summary, ready to be stored.
#[derive(Debug, PartialEq, Eq)]
pub struct GeneratedSummaryResult {
    pub summary: String,
    pub full_summary: String,
    pub why_it_mattered: Option<String>,
    pub status: String,
    pub topic_tags: Vec<String>,
}

/// Why a summary could not be had.
#[derive(Debug, Clone, Copy, PartialEq, Eq, Structural)]
pub enum AiSummaryError {
    Request,
    RequestStatus,
    Response,
    MissingContent,
    InvalidPayload,
    MissingSummary,
    LanguageMismatch,
}

/// What to do with one reply of the model.
#[derive(Debug, PartialEq, Eq)]
pub enum PayloadVerdict {
    /// Keep this summary.
    Accept(GeneratedSummaryResult),
    /// Ask again: the reply was in the wrong language and attempts are left.
    Retry,
    /// Give up with this error.
    Fail(AiSummaryError),
}

/// The full recap: the model's, cleaned, or else the summary.
pub open spec fn full_summary_of(p: GeneratedSummaryPayload, summary: Seq<char>) -> Seq<char> {
    match p.full_summary {
        Some(f) => match normalize_markdown_spec(f@) {
            Some(n) => n,
            None => summary,
        },
        None => summary,
    }
}

/// The reason line, cleaned, if any.
pub open spec fn why_of(p: GeneratedSummaryPayload) -> Option<Seq<char>> {
    match p.why_it_mattered {
        Some(w) => normalize_text_spec(w@),
        None => None,
    }
}

/// The verdict on reply `p` at attempt `attempt` (counting from zero): no
/// summary text is an error; a reply in another language than the expected one
/// is asked again while attempts are left, else an error; any other reply is
/// kept, cleaned.
pub open spec fn payload_verdict_holds(
    v: PayloadVerdict,
    p: GeneratedSummaryPayload,
    hint: Option<LanguageHint>,
    attempt: nat,
) -> bool {
    match normalize_text_spec(p.summary@) {
        None => v == PayloadVerdict::Fail(AiSummaryError::MissingSummary),
        Some(summary) => {
            let full = full_summary_of(p, summary);
            let why = why_of(p);
            if output_mismatch(hint, combined_output(summary, why, Some(full))) {
                if attempt + 1 < MAX_SUMMARY_LANGUAGE_ATTEMPTS {
                    v == PayloadVerdict::Retry
                } else {
                    v == PayloadVerdict::Fail(AiSummaryError::LanguageMismatch)
                }
            } else {
                match v {
                    PayloadVerdict::Accept(r) => {
                        &&& r.summary@ == summary
                        &&& r.full_summary@ == full
                        &&& opt_view(r.why_it_mattered) == why
                        &&& r.status@ == status_of(match p.status {
                            Some(s) => Some(s@),
                            None => None,
                        })
                        &&& users_view(r.topic_tags@) == topic_tags_of(match p.topic_tags {
                            Some(t) => users_view(t@),
                            None => Seq::empty(),
                        })
                    },
                    _ => false,
                }
            }
        },
    }
}

pub fn assess_generated_payload(
    payload: GeneratedSummaryPayload,
    language_hint: Option<LanguageHint>,
    attempt: usize,
) -> (r: PayloadVerdict)
    requires
        attempt < usize::MAX,
    ensures
        payload_verdict_holds(r, payload, language_hint, attempt as nat),
{
    let summary = match normalize_text(payload.summary.as_str()) {
        Some(s) => s,
        None => {
            return PayloadVerdict::Fail(AiSummaryError::MissingSummary);
        },
    };
    let full = match &payload.full_summary {
        Some(f) => match normalize_markdown_text(f.as_str()) {
            Some(n) => n,
            None => summary.clone(),
        },
        None => summary.clone(),
    };
    let why = match &payload.why_it_mattered {
        Some(w) => normalize_text(w.as_str()),
        None => None,
    };
    let why_str: Option<&str> = match &why {
        Some(w) => Some(w.as_str()),
        None => None,
    };
    if is_output_language_mismatch(language_hint, summary.as_str(), why_str, Some(full.as_str())) {
        if attempt + 1 < MAX_SUMMARY_LANGUAGE_ATTEMPTS {
            return PayloadVerdict::Retry;
        }
        return PayloadVerdict::Fail(AiSummaryError::LanguageMismatch);
    }
    let status_str: Option<&str> = match &payload.status {
        Some(s) => Some(s.as_str()),
        None => None,
    };
    let status = normalize_status(status_str);
    let tags = match payload.topic_tags {
        Some(t) => t,
        None => Vec::new(),
    };
    let topic_tags = normalize_topic_tags(tags);
    proof {
        assert(users_view(Seq::<String>::empty()) =~= Seq::<Seq<char>>::empty());
    }
    PayloadVerdict::Accept(GeneratedSummaryResult {
        summary,
        full_summary: full,
        why_it_mattered: why,
        status,
        topic_tags,
    })
}

/// The row stored for a generated summary of thread `summary`.
pub fn build_generated_row(
    summary: &ThreadSummaryRow,
    result: GeneratedSummaryResult,
    model: &str,
    generated_at: i64,
) -> (r: GeneratedThreadSummaryRow)
    ensures
        r.channel_id == summary.channel_id,
        r.root_ts == summary.root_ts,
        r.summary == result.summary,
        r.full_summary == Some(result.full_summary),
        r.why_it_mattered == result.why_it_mattered,
        r.status == result.status,
        r.topic_tags == result.topic_tags,
        r.source_last_activity_ts == summary.last_activity_ts,
        r.model@ == model@,
        r.generated_at == generated_at,
{
    GeneratedThreadSummaryRow {
        channel_id: summary.channel_id.clone(),
        root_ts: summary.root_ts.clone(),
        summary: result.summary,
        full_summary: Some(result.full_summary),
        why_it_mattered: result.why_it_mattered,
        status: result.status,
        topic_tags: result.topic_tags,
        source_last_activity_ts: summary.last_activity_ts.clone(),
        model: model.to_owned(),
        generated_at,
    }
}

impl Keyed for ThreadSummaryRow {
    /// Candidates are taken by channel, then latest activity, then root.
    open spec fn key(&self) -> Seq<Seq<char>> {
        seq![self.channel_id@, self.last_activity_ts@, self.root_ts@]
    }

    fn key_chars(&self) -> (r: Vec<Vec<char>>) {
        let mut r: Vec<Vec<char>> = Vec::new();
        r.push(chars_of(self.channel_id.as_str()));
        r.push(chars_of(self.last_activity_ts.as_str()));
        r.push(chars_of(self.root_ts.as_str()));
        proof {
            assert(chars_view(r@) =~= self.key());
        }
        r
    }
}

/// The summaries whose flag in `keep` is set, in order.
pub open spec fn kept(summaries: Seq<ThreadSummaryRow>, keep: Seq<bool>) -> Seq<ThreadSummaryRow>
    decreases summaries.len(),
{
    if summaries.len() == 0 || keep.len() == 0 {
        Seq::empty()
    } else if keep[0] {
        seq![summaries[0]] + kept(summaries.skip(1), keep.skip(1))
    } else {
        kept(summaries.skip(1), keep.skip(1))
    }
}

/// The candidate threads: the summaries that pass the job's filter (one flag
/// per summary), ordered by channel, latest activity and root.
pub fn select_candidate_threads(summaries: Vec<ThreadSummaryRow>, keep: &Vec<bool>) -> (r: Vec<ThreadSummaryRow>)
    requires
        keep@.len() == summaries@.len(),
    ensures
        r@.to_multiset() == kept(summaries@, keep@).to_multiset(),
        sorted_by_key_le(r@),
{
    let ghost all = summaries@;
    let mut rest = summaries;
    let mut picked: Vec<ThreadSummaryRow> = Vec::new();
    let mut i: usize = rest.len();
    proof {
        assert(all.skip(i as int) =~= Seq::<ThreadSummaryRow>::empty());
        assert(keep@.skip(i as int) =~= Seq::<bool>::empty());
    }
    while i > 0
        invariant
            i <= all.len(),
            keep@.len() == all.len(),
            rest@ == all.take(i as int),
            picked@ == kept(all.skip(i as int), keep@.skip(i as int)),
        decreases i,
    {
        let ghost before = rest@;
        let x = rest.pop().unwrap();
        i = i - 1;
        proof {
            assert(before =~= rest@.push(x));
            assert(rest@ =~= all.take(i as int));
            assert(all.skip(i as int)[0] == x);
            assert(all.skip(i as int).skip(1) =~= all.skip(i + 1));
            assert(keep@.skip(i as int)[0] == keep@[i as int]);
            assert(keep@.skip(i as int).skip(1) =~= keep@.skip(i + 1));
        }
        if keep[i] {
            let ghost p = picked@;
            picked.insert(0, x);
            proof {
                assert(picked@ =~= seq![x] + p);
            }
        }
    }
    proof {
        assert(all.skip(0) =~= all);
        assert(keep@.skip(0) =~= keep@);
    }
    sort_by_key(picked)
}

/// The content of the model's reply message, as the response gives it: a
/// text, a list of parts (each with its type and its text, where given), or
/// something else.
#[derive(Debug, PartialEq, Eq)]
pub enum MessageContent {
    Text(String),
    Parts(Vec<(Option<String>, Option<String>)>),
    Other,
}

/// The texts of the parts of type `text`, joined.
pub open spec fn text_parts(parts: Seq<(Option<String>, Option<String>)>) -> Seq<char>
    decreases parts.len(),
{
    if parts.len() == 0 {
        Seq::empty()
    } else {
        let p = parts.last();
        let t = match (p.0, p.1) {
            (Some(k), Some(t)) => if k@ == "text"@ { t@ } else { Seq::empty() },
            _ => Seq::empty(),
        };
        text_parts(parts.drop_last()) + t
    }
}

/// `extract_content`: a text content as it is; the text parts joined, when
/// that leaves something; else nothing.
pub open spec fn content_text_spec(c: MessageContent) -> Option<Seq<char>> {
    match c {
        MessageContent::Text(s) => Some(s@),
        MessageContent::Parts(parts) => {
            let t = text_parts(parts@);
            if t.len() > 0 { Some(t) } else { None }
        },
        MessageContent::Other => None,
    }
}

pub fn content_text(content: &MessageContent) -> (r: Option<String>)
    ensures
        opt_view(r) == content_text_spec(*content),
{
    match content {
        MessageContent::Text(s) => Some(s.clone()),
        MessageContent::Parts(parts) => {
            let mut out: Vec<char> = Vec::new();
            let mut i: usize = 0;
            proof {
                assert(parts@.take(0) =~= Seq::<(Option<String>, Option<String>)>::empty());
            }
            while i < parts.len()
                invariant
                    i <= parts@.len(),
                    out@ == text_parts(parts@.take(i as int)),
                decreases parts@.len() - i,
            {
                proof {
                    assert(parts@.take(i + 1).drop_last() =~= parts@.take(i as int));
                    assert(parts@.take(i + 1).last() == parts@[i as int]);
                }
                let (k, t) = &parts[i];
                match (k, t) {
                    (Some(k), Some(t)) => {
                        if crate::text::str_eq(k.as_str(), "text") {
                            crate::text::extend_str(&mut out, t.as_str());
                        } else {
                            proof {
                                assert(out@ + Seq::<char>::empty() =~= out@);
                            }
                        }
                    },
                    _ => {
                        proof {
                            assert(out@ + Seq::<char>::empty() =~= out@);
                        }
                    },
                }
                i = i + 1;
            }
            proof {
                assert(parts@.take(parts@.len() as int) =~= parts@);
            }
            if out.len() > 0 {
                Some(crate::text::string_of(&out))
            } else {
                None
            }
        },
        MessageContent::Other => None,
    }
}

/// Which members of the reply's JSON object are kept, and under which key:
/// each key is normalized, and of several members with the same normalized
/// key only the first is kept. Gives (position, new key) pairs in order.
pub open spec fn key_plan(keys: Seq<Seq<char>>) -> Seq<(int, Seq<char>)>
    decreases keys.len(),
{
    if keys.len() == 0 {
        Seq::empty()
    } else {
        let prev = key_plan(keys.drop_last());
        let k = crate::summary_text::payload_key_spec(keys.last());
        if prev.map_values(|p: (int, Seq<char>)| p.1).contains(k) {
            prev
        } else {
            prev.push(((keys.len() - 1) as int, k))
        }
    }
}

pub fn plan_payload_keys(keys: &Vec<String>) -> (r: Vec<(usize, String)>)
    ensures
        r@.map_values(|p: (usize, String)| (p.0 as int, p.1@)) == key_plan(users_view(keys@)),
{
    let ghost kv = users_view(keys@);
    let mut out: Vec<(usize, String)> = Vec::new();
    let mut i: usize = 0;
    proof {
        assert(kv.take(0) =~= Seq::<Seq<char>>::empty());
        assert(out@.map_values(|p: (usize, String)| (p.0 as int, p.1@)) =~= Seq::<(int, Seq<char>)>::empty());
    }
    while i < keys.len()
        invariant
            i <= keys@.len(),
            kv == users_view(keys@),
            out@.map_values(|p: (usize, String)| (p.0 as int, p.1@)) == key_plan(kv.take(i as int)),
        decreases keys@.len() - i,
    {
        proof {
            assert(kv.take(i + 1).drop_last() =~= kv.take(i as int));
            assert(kv.take(i + 1).last() == keys@[i as int]@);
        }
        let k = crate::summary_text::normalize_generated_payload_key(keys[i].as_str());
        let ghost prev = key_plan(kv.take(i as int));
        let mut found = false;
        let mut j: usize = 0;
        while j < out.len()
            invariant
                j <= out@.len(),
                out@.map_values(|p: (usize, String)| (p.0 as int, p.1@)) == prev,
                found == prev.take(j as int).map_values(|p: (int, Seq<char>)| p.1).contains(k@),
            decreases out@.len() - j,
        {
            proof {
                assert(prev.take(j + 1).map_values(|p: (int, Seq<char>)| p.1) =~= prev.take(j as int).map_values(|p: (int, Seq<char>)| p.1).push(prev[j as int].1));
                assert(prev[j as int].1 == out@[j as int].1@);
                crate::store::lemma_push_to_set(prev.take(j as int).map_values(|p: (int, Seq<char>)| p.1), prev[j as int].1);
                assert(prev.take(j as int).map_values(|p: (int, Seq<char>)| p.1).to_set().contains(k@)
                    == prev.take(j as int).map_values(|p: (int, Seq<char>)| p.1).contains(k@));
                assert(prev.take(j + 1).map_values(|p: (int, Seq<char>)| p.1).to_set().contains(k@)
                    == prev.take(j + 1).map_values(|p: (int, Seq<char>)| p.1).contains(k@));
            }
            if crate::text::str_eq(out[j].1.as_str(), k.as_str()) {
                found = true;
            }
            j = j + 1;
        }
        proof {
            assert(prev.take(out@.len() as int) =~= prev);
        }
        if !found {
            let ghost o = out@.map_values(|p: (usize, String)| (p.0 as int, p.1@));
            out.push((i, k));
            proof {
                assert(out@.map_values(|p: (usize, String)| (p.0 as int, p.1@)) =~= o.push((i as int, k@)));
            }
        }
        i = i + 1;
    }
    proof {
        assert(kv.take(kv.len() as int) =~= kv);
    }
    out
}

/// Every position that the key plan of `keys` keeps is a position of `keys`.
pub proof fn lemma_key_plan_positions(keys: Seq<Seq<char>>)
    ensures
        forall|j: int| 0 <= j < key_plan(keys).len() ==> 0 <= #[trigger] key_plan(keys)[j].0 < keys.len(),
    decreases keys.len(),
{
    if keys.len() > 0 {
        let prev = key_plan(keys.drop_last());
        lemma_key_plan_positions(keys.drop_last());
        assert forall|j: int| 0 <= j < key_plan(keys).len() implies 0 <= #[trigger] key_plan(keys)[j].0 < keys.len() by {
            if j < prev.len() {
                assert(key_plan(keys)[j] == prev[j]);
            }
        }
    }
}

/// What `serde_json` reads from `content` as a JSON object: each member's key
/// with the compact JSON text of its value, in the order of the object's map;
/// none when the text is not a JSON object.
pub uninterp spec fn json_members(content: Seq<char>) -> Option<Seq<(Seq<char>, Seq<char>)>>;

/// The compact JSON text that `serde_json` writes for an object made of these
/// members, each value given as JSON text.
pub uninterp spec fn json_object(members: Seq<(Seq<char>, Seq<char>)>) -> Seq<char>;

/// Members by the characters of their keys and value texts.
pub open spec fn members_view(v: Seq<(String, String)>) -> Seq<(Seq<char>, Seq<char>)> {
    v.map_values(|p: (String, String)| (p.0@, p.1@))
}

/// The members of a JSON object as `serde_json` reads them: parses `content`
/// with `serde_json::from_str` into a `serde_json::Value`, and when it is an
/// object, gives each key with its value written back by `to_string`; the
/// contract names that result and states nothing more of it.
#[verifier::external_body]
fn json_object_members(content: &str) -> (r: Option<Vec<(String, String)>>)
    ensures
        match r {
            Some(ms) => json_members(content@) == Some(members_view(ms@)),
            None => json_members(content@) is None,
        },
{
    let value = serde_json::from_str::<serde_json::Value>(content).ok()?;
    let object = value.as_object()?;
    Some(object.iter().map(|(key, value)| (key.clone(), value.to_string())).collect())
}

/// The JSON object text of `members`: each value text is read back with
/// `serde_json::from_str` (null if it does not parse), the members are put in
/// a `serde_json::Map`, and the object is written with `to_string`; the
/// contract names that result and states nothing more of it.
#[verifier::external_body]
fn json_object_text(members: &Vec<(String, String)>) -> (r: String)
    ensures
        r@ == json_object(members_view(members@)),
{
    let mut object = serde_json::Map::new();
    for (key, value) in members {
        object.insert(key.clone(), serde_json::from_str(value).unwrap_or(serde_json::Value::Null));
    }
    serde_json::Value::Object(object).to_string()
}

/// The members kept by the key plan, under their new keys.
pub open spec fn repaired_members(ms: Seq<(Seq<char>, Seq<char>)>) -> Seq<(Seq<char>, Seq<char>)> {
    key_plan(ms.map_values(|m: (Seq<char>, Seq<char>)| m.0)).map_values(|p: (int, Seq<char>)| (p.1, ms[p.0].1))
}

/// The model's reply with its members' keys normalized: when the reply is a
/// JSON object, each key is normalized and of several members with the same
/// key only the first is kept; any other reply is returned as it is.
pub fn repair_generated_summary_payload(content: &str) -> (r: String)
    ensures
        r@ == (match json_members(content@) {
            Some(ms) => json_object(repaired_members(ms)),
            None => content@,
        }),
{
    match json_object_members(content) {
        None => content.to_owned(),
        Some(members) => {
            let ghost ms = members_view(members@);
            let mut keys: Vec<String> = Vec::new();
            let mut i: usize = 0;
            while i < members.len()
                invariant
                    i <= members@.len(),
                    ms == members_view(members@),
                    users_view(keys@) == ms.take(i as int).map_values(|m: (Seq<char>, Seq<char>)| m.0),
                decreases members@.len() - i,
            {
                let ghost before = keys@;
                keys.push(members[i].0.clone());
                proof {
                    assert(ms[i as int] == (members@[i as int].0@, members@[i as int].1@));
                    assert(keys@ == before.push(members@[i as int].0));
                    let lhs = users_view(keys@);
                    let rhs = ms.take(i + 1).map_values(|m: (Seq<char>, Seq<char>)| m.0);
                    let old_l = users_view(before);
                    let old_r = ms.take(i as int).map_values(|m: (Seq<char>, Seq<char>)| m.0);
                    assert(old_l.len() == before.len());
                    assert(old_r.len() == i);
                    assert(lhs.len() == rhs.len());
                    assert forall|k: int| 0 <= k < lhs.len() implies lhs[k] == rhs[k] by {
                        if k < i {
                            assert(lhs[k] == old_l[k]);
                            assert(rhs[k] == old_r[k]);
                        }
                    }
                    assert(lhs =~= rhs);
                }
                i = i + 1;
            }
            proof {
                assert(ms.take(ms.len() as int) =~= ms);
            }
            let plan = plan_payload_keys(&keys);
            let ghost kv = ms.map_values(|m: (Seq<char>, Seq<char>)| m.0);
            let ghost pv = key_plan(kv);
            proof {
                lemma_key_plan_positions(kv);
                assert(plan@.map_values(|p: (usize, String)| (p.0 as int, p.1@)) == pv);
            }
            let mut picked: Vec<(String, String)> = Vec::new();
            let mut j: usize = 0;
            while j < plan.len()
                invariant
                    j <= plan@.len(),
                    ms == members_view(members@),
                    kv == ms.map_values(|m: (Seq<char>, Seq<char>)| m.0),
                    pv == key_plan(kv),
                    plan@.map_values(|p: (usize, String)| (p.0 as int, p.1@)) == pv,
                    forall|q: int| 0 <= q < pv.len() ==> 0 <= #[trigger] pv[q].0 < kv.len(),
                    members_view(picked@) == pv.take(j as int).map_values(|p: (int, Seq<char>)| (p.1, ms[p.0].1)),
                decreases plan@.len() - j,
            {
                let idx = plan[j].0;
                proof {
                    assert(plan@.map_values(|p: (usize, String)| (p.0 as int, p.1@))[j as int] == pv[j as int]);
                    assert(pv[j as int].0 < kv.len());
                    assert(kv.len() == members@.len());
                    assert(idx < members@.len());
                }
                let ghost before = picked@;
                let key = plan[j].1.clone();
                let value = members[idx].1.clone();
                picked.push((key, value));
                proof {
                    assert(picked@ == before.push((key, value)));
                    assert(key@ == pv[j as int].1);
                    assert(ms[idx as int] == (members@[idx as int].0@, members@[idx as int].1@));
                    assert(value@ == ms[pv[j as int].0].1);
                    let lhs = members_view(picked@);
                    let rhs = pv.take(j + 1).map_values(|p: (int, Seq<char>)| (p.1, ms[p.0].1));
                    let old_l = members_view(before);
                    let old_r = pv.take(j as int).map_values(|p: (int, Seq<char>)| (p.1, ms[p.0].1));
                    assert(old_l.len() == before.len());
                    assert(old_r.len() == j);
                    assert(lhs.len() == rhs.len());
                    assert forall|k: int| 0 <= k < lhs.len() implies lhs[k] == rhs[k] by {
                        if k < j {
                            assert(lhs[k] == old_l[k]);
                            assert(rhs[k] == old_r[k]);
                        }
                    }
                    assert(lhs =~= rhs);
                }
                j = j + 1;
            }
            proof {
                assert(pv.take(pv.len() as int) =~= pv);
            }
            json_object_text(&picked)
        },
    }
}

} // verus!
