//! The prompt that asks the summary model for a thread's summary.
use vstd::prelude::*;
use crate::domain::Message;
use crate::language::{language_requirement, build_language_requirement, LanguageHint};
use crate::rows::ThreadSummaryRow;
use crate::summary_text::{compact_text, compact_text_spec, first_with_ts, find_ts, NO_TEXT};
use crate::text::{extend_str, int_text, push_int, string_of};

verus! {

/// How many messages the prompt quotes.
pub const MAX_PROMPT_MESSAGES: usize = 40;

/// How many characters of each message the prompt quotes.
pub const MAX_MESSAGE_CHARS: usize = 400;

/// The prompt's opening instructions.
pub const PROMPT_INTRO: &'static str = "Summarize the following messages with a short preview summary and a fuller markdown recap.\n\nWrite natural standalone sentences that read like neutral notes, release notes, or blog text.\nDo not refer to the source conversation or medium itself.\nAvoid phrases like \"this thread\", \"the discussion\", \"someone asked\", \"a user said\", \"in Slack\", \"in the channel\", or equivalents in any language.\nStart directly with the topic, tool, decision, or outcome rather than the people or the conversation.\nKeep the text generic and self-contained, as if it could be published outside the chat context.\n";

/// The prompt's rules, up to the thread metadata.
pub const PROMPT_RULES: &'static str = "\nReturn a JSON object with keys: summary, full_summary, why_it_mattered, status, topic_tags.\nRules:\n- summary: 1 to 2 concise factual sentences optimized for a card preview; keep it tighter than the full recap and aim for roughly 220 characters when possible\n- full_summary: a markdown summary of the thread covering the important context, key points, decisions, and next steps without a hard length cap; keep it factual and reasonably concise\n- merge related ideas instead of retelling the conversation chronologically\n- prefer topic-first phrasing and outcome-first wording\n- do not mention people unless their identity materially matters to the outcome; when it does, preserve user mentions in Slack format like <@U123>\n- do not invent facts, users, or outcomes not present in the messages\n- summary, full_summary, and why_it_mattered must match the dominant thread language exactly; do not translate them to English unless the thread is in English\n- why_it_mattered: one concise sentence describing the practical takeaway, workflow, recommendation, or decision in the same neutral editorial style; use null if unclear\n- status: one of answered, unresolved, announcement, debate, resource, discussion\n- topic_tags: 2 to 5 short lowercase tags without # describing the main tools, technologies, or concepts someone might search for\n- stay grounded in the provided messages only\n\nThread metadata:\nchannel_id=";

/// One quoted message: timestamp, author (or "unknown") and compacted text.
pub open spec fn prompt_line(m: Message) -> Seq<char> {
    "- ts="@ + m.ts@ + " user="@ + (match m.user_id {
        Some(u) => u@,
        None => "unknown"@,
    }) + " text="@ + compact_text_spec(m.text@, MAX_MESSAGE_CHARS as nat)
}

/// The quoted messages, one per line.
pub open spec fn prompt_transcript(msgs: Seq<Message>) -> Seq<char>
    decreases msgs.len(),
{
    if msgs.len() == 0 {
        Seq::empty()
    } else if msgs.len() == 1 {
        prompt_line(msgs[0])
    } else {
        prompt_transcript(msgs.drop_last()) + seq!['\n'] + prompt_line(msgs.last())
    }
}

/// The title line: the compacted text of the root message, if it is among the
/// messages, else the no-text marker.
pub open spec fn prompt_title(root_ts: Seq<char>, msgs: Seq<Message>) -> Seq<char> {
    match first_with_ts(msgs, root_ts) {
        Some(m) => compact_text_spec(m.text@, MAX_MESSAGE_CHARS as nat),
        None => NO_TEXT@,
    }
}

/// `build_prompt`: the instructions, the language requirement, the rules, the
/// thread's metadata and the first `MAX_PROMPT_MESSAGES` messages.
pub open spec fn prompt_text(
    summary: ThreadSummaryRow,
    msgs: Seq<Message>,
    hint: Option<LanguageHint>,
    retrying: bool,
) -> Seq<char> {
    let n = if msgs.len() < MAX_PROMPT_MESSAGES { msgs.len() as int } else { MAX_PROMPT_MESSAGES as int };
    PROMPT_INTRO@ + language_requirement(hint, retrying) + PROMPT_RULES@ + summary.channel_id@
        + "\nroot_ts="@ + summary.root_ts@
        + "\ntitle="@ + prompt_title(summary.root_ts@, msgs)
        + "\nreply_count="@ + int_text(summary.reply_count as int)
        + "\nparticipant_count="@ + int_text(summary.participant_count as int)
        + "\nreaction_count="@ + int_text(summary.reaction_count as int)
        + "\nfile_count="@ + int_text(summary.file_count as int)
        + "\n\nMessages:\n"@ + prompt_transcript(msgs.take(n))
}

fn push_line(out: &mut Vec<char>, m: &Message)
    ensures
        final(out)@ == old(out)@ + prompt_line(*m),
{
    extend_str(out, "- ts=");
    extend_str(out, m.ts.as_str());
    extend_str(out, " user=");
    match &m.user_id {
        Some(u) => extend_str(out, u.as_str()),
        None => extend_str(out, "unknown"),
    }
    extend_str(out, " text=");
    let t = compact_text(m.text.as_str(), MAX_MESSAGE_CHARS);
    extend_str(out, t.as_str());
    proof {
        assert(out@ =~= old(out)@ + prompt_line(*m));
    }
}

pub fn build_prompt(
    summary: &ThreadSummaryRow,
    messages: &[Message],
    language_hint: Option<LanguageHint>,
    retrying_after_language_mismatch: bool,
) -> (r: String)
    ensures
        r@ == prompt_text(*summary, messages@, language_hint, retrying_after_language_mismatch),
{
    let mut out: Vec<char> = Vec::new();
    extend_str(&mut out, PROMPT_INTRO);
    let req = build_language_requirement(language_hint, retrying_after_language_mismatch);
    extend_str(&mut out, req.as_str());
    extend_str(&mut out, PROMPT_RULES);
    extend_str(&mut out, summary.channel_id.as_str());
    extend_str(&mut out, "\nroot_ts=");
    extend_str(&mut out, summary.root_ts.as_str());
    extend_str(&mut out, "\ntitle=");
    match find_ts(messages, summary.root_ts.as_str()) {
        Some(i) => {
            let t = compact_text(messages[i].text.as_str(), MAX_MESSAGE_CHARS);
            extend_str(&mut out, t.as_str());
        },
        None => extend_str(&mut out, NO_TEXT),
    }
    extend_str(&mut out, "\nreply_count=");
    push_int(&mut out, summary.reply_count);
    extend_str(&mut out, "\nparticipant_count=");
    push_int(&mut out, summary.participant_count);
    extend_str(&mut out, "\nreaction_count=");
    push_int(&mut out, summary.reaction_count);
    extend_str(&mut out, "\nfile_count=");
    push_int(&mut out, summary.file_count);
    extend_str(&mut out, "\n\nMessages:\n");
    let ghost head = out@;
    let n: usize = if messages.len() < MAX_PROMPT_MESSAGES { messages.len() } else { MAX_PROMPT_MESSAGES };
    let mut i: usize = 0;
    proof {
        assert(messages@.take(0) =~= Seq::<Message>::empty());
        assert(head + prompt_transcript(messages@.take(0)) =~= head);
    }
    while i < n
        invariant
            i <= n,
            n <= messages@.len(),
            out@ == head + prompt_transcript(messages@.take(i as int)),
        decreases n - i,
    {
        proof {
            assert(messages@.take(i + 1).drop_last() =~= messages@.take(i as int));
            assert(messages@.take(i + 1).last() == messages@[i as int]);
        }
        let ghost before = out@;
        if i > 0 {
            out.push('\n');
        }
        push_line(&mut out, &messages[i]);
        proof {
            if i == 0 {
                assert(messages@.take(1)[0] == messages@[0]);
                assert(out@ =~= head + prompt_transcript(messages@.take(1)));
            } else {
                assert(out@ =~= head + prompt_transcript(messages@.take(i + 1)));
            }
        }
        i = i + 1;
    }
    proof {
        assert(out@ =~= prompt_text(*summary, messages@, language_hint, retrying_after_language_mismatch));
    }
    string_of(&out)
}

} // verus!
