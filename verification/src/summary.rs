//! Rolling summaries: when a conversation needs one, which messages it
//! covers, and the prompt that asks the model to write it.
use vstd::prelude::*;
use crate::budget::{
    estimate_tokens, fit_start, fit_suffix_start, spec_available_context_tokens, suffix_sum,
    lemma_fit_start_exists,
    available_context_tokens, token_estimate, SUMMARY_KEEP_RATIO, SUMMARY_TRIGGER_RATIO,
};
use crate::model::StoredMessage;
use crate::text::{
    concat_all, lemma_concat_all_lists, lemma_lists_in_middle, lemma_occurs_in_middle, lists_at,
    occurs_at, str_eq, total_len,
};

verus! {

/// Whether a conversation needs summarizing, and the figures behind it.
#[derive(Debug, Clone, PartialEq, Eq)]
pub struct SummaryStatus {
    pub needs_summary: bool,
    pub unsummarized_tokens: u32,
    pub trigger_threshold: u32,
}

/// The unsummarized tokens at which a summary is due: 60% of the available budget.
pub open spec fn trigger_threshold(available: u32) -> int {
    available * SUMMARY_TRIGGER_RATIO / 100
}

/// Whether the summary figures can be computed without overflow.
pub open spec fn summary_figures_fit(context_window_size: u32, max_tokens: u32) -> bool {
    spec_available_context_tokens(context_window_size, max_tokens) * SUMMARY_TRIGGER_RATIO
        <= u32::MAX
}

/// Summary status for a conversation whose unsummarized messages hold
/// `content_length` bytes: their tokens are a quarter of that length (taken
/// modulo 2^32 as `as u32` does), and a summary is needed once they reach
/// 60% of the available budget.
pub fn summary_status(context_window_size: u32, max_tokens: u32, content_length: u64) -> (r:
    SummaryStatus)
    requires
        summary_figures_fit(context_window_size, max_tokens),
    ensures
        r.trigger_threshold == trigger_threshold(
            spec_available_context_tokens(context_window_size, max_tokens),
        ),
        r.unsummarized_tokens == (content_length as u32) / 4,
        r.needs_summary == (r.unsummarized_tokens >= r.trigger_threshold),
{
    let available = available_context_tokens(context_window_size, max_tokens);
    let trigger_threshold = available * SUMMARY_TRIGGER_RATIO / 100;
    let unsummarized_tokens = (content_length as u32) / 4;
    SummaryStatus {
        needs_summary: unsummarized_tokens >= trigger_threshold,
        unsummarized_tokens,
        trigger_threshold,
    }
}

/// Tokens of recent messages kept raw when summarizing: 30% of the available budget.
pub open spec fn keep_budget(available: u32) -> int {
    available * SUMMARY_KEEP_RATIO / 100
}

/// Token estimate of each message's content.
pub open spec fn content_tokens(msgs: Seq<StoredMessage>) -> Seq<u32> {
    msgs.map_values(|m: StoredMessage| token_estimate(m.content@))
}

/// How many of the oldest unsummarized messages to summarize: all but the
/// longest run of newest messages whose tokens fit in `budget`.
pub open spec fn summary_split(msgs: Seq<StoredMessage>, budget: u32) -> int {
    fit_start(content_tokens(msgs), 0, budget as int)
}

/// Label of a message's author in a transcript.
pub open spec fn role_label(role: Seq<char>) -> Seq<char> {
    if role == "user"@ {
        "User"@
    } else {
        "Companion"@
    }
}

/// A message as a transcript line: `"<label>: <content>\n"`.
pub open spec fn transcript_line(m: StoredMessage) -> Seq<char> {
    role_label(m.role@) + ": "@ + m.content@ + "\n"@
}

/// The transcript lines of messages, in order.
pub open spec fn transcript(msgs: Seq<StoredMessage>) -> Seq<char>
    decreases msgs.len(),
{
    if msgs.len() == 0 {
        Seq::empty()
    } else {
        transcript(msgs.drop_last()) + transcript_line(msgs.last())
    }
}

/// Opening instructions of the summary prompt.
pub open spec fn summary_instructions() -> Seq<char> {
    "You are summarizing a conversation between an AI companion and a user. Write a concise summary that captures:\n- Key topics discussed\n- Important facts, preferences, or personal details the user shared (name, interests, life situation, etc.)\n- Emotional tone and how the relationship is developing\n- Any plans, promises, or things to follow up on\n\nRefer to the human as \"the user\" and the AI as \"the companion\".\n\n"@
}

/// Closing instructions of the summary prompt.
pub open spec fn summary_closing() -> Seq<char> {
    "\nWrite an updated summary (2-4 paragraphs) that merges any previous summary with these new messages. Focus on what the companion needs to remember to continue the conversation naturally. Be concise but preserve specific details (names, preferences, facts)."@
}

/// The prompt asking the model for an updated summary.
pub open spec fn summary_prompt_text(previous: Option<Seq<char>>, msgs: Seq<StoredMessage>) -> Seq<
    char,
> {
    summary_instructions() + match previous {
        Some(p) => "Previous summary to build on:\n"@ + p + "\n\n"@,
        None => Seq::empty(),
    } + "New messages to incorporate:\n\n"@ + transcript(msgs) + summary_closing()
}

/// Appends the transcript line of `m` to `out`.
pub fn push_transcript_line(out: &mut String, m: &StoredMessage)
    ensures
        final(out)@ == old(out)@ + transcript_line(*m),
{
    if str_eq(m.role.as_str(), "user") {
        out.append("User");
    } else {
        out.append("Companion");
    }
    out.append(": ");
    out.append(m.content.as_str());
    out.append("\n");
}

/// The transcript of `msgs`.
pub fn render_transcript(msgs: &[StoredMessage]) -> (r: String)
    ensures
        r@ == transcript(msgs@),
{
    let mut r = String::new();
    let mut i: usize = 0;
    while i < msgs.len()
        invariant
            i <= msgs@.len(),
            r@ == transcript(msgs@.take(i as int)),
        decreases msgs@.len() - i,
    {
        push_transcript_line(&mut r, &msgs[i]);
        proof {
            let t = msgs@.take(i + 1);
            assert(t.drop_last() =~= msgs@.take(i as int));
        }
        i = i + 1;
    }
    assert(msgs@.take(msgs@.len() as int) =~= msgs@);
    r
}

/// The prompt asking for a summary of `msgs` that builds on `previous`.
pub fn summary_prompt(previous: Option<&str>, msgs: &[StoredMessage]) -> (r: String)
    ensures
        r@ == summary_prompt_text(
            match previous {
                Some(p) => Some(p@),
                None => None,
            },
            msgs@,
        ),
{
    let mut r = "You are summarizing a conversation between an AI companion and a user. Write a concise summary that captures:\n- Key topics discussed\n- Important facts, preferences, or personal details the user shared (name, interests, life situation, etc.)\n- Emotional tone and how the relationship is developing\n- Any plans, promises, or things to follow up on\n\nRefer to the human as \"the user\" and the AI as \"the companion\".\n\n".to_owned();
    if let Some(p) = previous {
        r.append("Previous summary to build on:\n");
        r.append(p);
        r.append("\n\n");
    }
    r.append("New messages to incorporate:\n\n");
    let t = render_transcript(msgs);
    r.append(t.as_str());
    r.append(
        "\nWrite an updated summary (2-4 paragraphs) that merges any previous summary with these new messages. Focus on what the companion needs to remember to continue the conversation naturally. Be concise but preserve specific details (names, preferences, facts).",
    );
    r
}

/// Which messages a summarization pass covers.
#[derive(Debug, Clone, PartialEq, Eq)]
pub struct SummaryPlan {
    /// How many of the oldest unsummarized messages are summarized.
    pub split: usize,
    /// Id of the first summarized message.
    pub start_id: i64,
    /// Id of the last summarized message.
    pub end_id: i64,
    /// Number of summarized messages, as recorded with the summary.
    pub count: u32,
}

/// Whether the summary budget can be computed without overflow.
pub open spec fn keep_budget_fits(context_window_size: u32, max_tokens: u32) -> bool {
    spec_available_context_tokens(context_window_size, max_tokens) * SUMMARY_KEEP_RATIO
        <= u32::MAX
}

/// Plans a summarization pass over the unsummarized messages `msgs` (oldest
/// first). Nothing is planned when there are no such messages or when all of
/// them fit in the recent-message budget (30% of the available tokens);
/// otherwise the older messages that do not fit are to be summarized.
pub fn plan_summary(msgs: &[StoredMessage], context_window_size: u32, max_tokens: u32) -> (r:
    Option<SummaryPlan>)
    requires
        keep_budget_fits(context_window_size, max_tokens),
    ensures
        ({
            let budget = keep_budget(spec_available_context_tokens(context_window_size, max_tokens));
            let split = summary_split(msgs@, budget as u32);
            &&& (r is None <==> split == 0)
            &&& r matches Some(p) ==> {
                &&& 0 < split <= msgs@.len()
                &&& p.split == split
                &&& p.start_id == msgs@[0].id
                &&& p.end_id == msgs@[split - 1].id
                &&& p.count == split as u32
            }
        }),
{
    let available = available_context_tokens(context_window_size, max_tokens);
    let budget = available * SUMMARY_KEEP_RATIO / 100;
    let mut tokens: Vec<u32> = Vec::new();
    let mut j: usize = 0;
    while j < msgs.len()
        invariant
            j <= msgs@.len(),
            tokens@ == content_tokens(msgs@).take(j as int),
        decreases msgs@.len() - j,
    {
        tokens.push(estimate_tokens(msgs[j].content.as_str()));
        j = j + 1;
        assert(tokens@ =~= content_tokens(msgs@).take(j as int));
    }
    assert(tokens@ =~= content_tokens(msgs@));
    let split = fit_suffix_start(&tokens, 0, budget);
    if split == 0 {
        return None;
    }
    Some(SummaryPlan { split, start_id: msgs[0].id, end_id: msgs[split - 1].id, count: split as u32 })
}

/// The prompt for a planned pass: the summarized messages are the first
/// `plan.split` of `msgs`, and the summary builds on `previous`.
pub fn plan_prompt(plan: &SummaryPlan, msgs: &[StoredMessage], previous: Option<&str>) -> (r:
    String)
    requires
        plan.split <= msgs@.len(),
    ensures
        r@ == summary_prompt_text(
            match previous {
                Some(s) => Some(s@),
                None => None,
            },
            msgs@.take(plan.split as int),
        ),
{
    let older = vstd::slice::slice_subrange(msgs, 0, plan.split);
    assert(older@ =~= msgs@.take(plan.split as int));
    summary_prompt(previous, older)
}

/// A summarization pass covers the oldest unsummarized messages; the newest
/// ones it leaves raw fit in the keep budget, and keeping one more would not fit.
pub proof fn law_summary_leaves_newest_that_fit(msgs: Seq<StoredMessage>, budget: u32)
    ensures
        0 <= summary_split(msgs, budget) <= msgs.len(),
        suffix_sum(content_tokens(msgs), summary_split(msgs, budget)) <= budget,
        summary_split(msgs, budget) > 0 ==> suffix_sum(
            content_tokens(msgs),
            summary_split(msgs, budget) - 1,
        ) > budget,
{
    let ts = content_tokens(msgs);
    assert(suffix_sum(ts, ts.len() as int) == 0);
    lemma_fit_start_exists(ts, 0, budget as int, ts.len() as int);
}

/// The transcript lines of messages, one per message: `"User: <content>\n"`
/// for a message of the user, `"Companion: <content>\n"` for any other.
pub open spec fn transcript_lines_of(msgs: Seq<StoredMessage>) -> Seq<Seq<char>> {
    msgs.map_values(
        |m: StoredMessage|
            (if m.role@ == "user"@ {
                "User"@
            } else {
                "Companion"@
            }) + ": "@ + m.content@ + "\n"@,
    )
}

proof fn lemma_transcript_is_concat(msgs: Seq<StoredMessage>)
    ensures
        transcript(msgs) == concat_all(transcript_lines_of(msgs)),
    decreases msgs.len(),
{
    if msgs.len() > 0 {
        lemma_transcript_is_concat(msgs.drop_last());
        assert(transcript_lines_of(msgs).drop_last() =~= transcript_lines_of(msgs.drop_last()));
        assert(transcript_lines_of(msgs).last() == transcript_line(msgs.last()));
    }
}

/// A transcript leaves no message out: it is exactly as long as the lines
/// `"<User|Companion>: <content>\n"` of all its messages together, and holds
/// the line of each message, in order, right after those before it.
pub proof fn law_transcript_lists_every_message(msgs: Seq<StoredMessage>)
    ensures
        transcript(msgs).len() == total_len(transcript_lines_of(msgs)),
        lists_at(transcript(msgs), transcript_lines_of(msgs), 0),
{
    lemma_transcript_is_concat(msgs);
    lemma_concat_all_lists(transcript_lines_of(msgs));
}

/// The summary prompt incorporates every message it is given: after the
/// instructions and the previous summary (if any) comes the heading
/// `"New messages to incorporate:\n\n"`, then the transcript line of each
/// message in order, then the closing instructions, which end the prompt.
pub proof fn law_summary_prompt_lists_every_message(
    previous: Option<Seq<char>>,
    msgs: Seq<StoredMessage>,
)
    ensures
        ({
            let p = summary_prompt_text(previous, msgs);
            let lines = transcript_lines_of(msgs);
            let heading_at: int = summary_instructions().len() as int + match previous {
                Some(q) => ("Previous summary to build on:\n"@.len() + q.len() + "\n\n"@.len()) as int,
                None => 0int,
            };
            let o: int = heading_at + "New messages to incorporate:\n\n"@.len();
            &&& occurs_at(p, "New messages to incorporate:\n\n"@, heading_at)
            &&& lists_at(p, lines, o)
            &&& occurs_at(p, summary_closing(), o + total_len(lines))
            &&& p.len() == o + total_len(lines) + summary_closing().len()
        }),
{
    law_transcript_lists_every_message(msgs);
    let lines = transcript_lines_of(msgs);
    let prev_part: Seq<char> = match previous {
        Some(q) => "Previous summary to build on:\n"@ + q + "\n\n"@,
        None => Seq::empty(),
    };
    let heading = "New messages to incorporate:\n\n"@;
    let t = transcript(msgs);
    let a = summary_instructions() + prev_part + heading;
    let p = summary_prompt_text(previous, msgs);
    assert(p =~= a + t + summary_closing());
    lemma_lists_in_middle(a, t, summary_closing(), lines, 0);
    assert(occurs_at(heading, heading, 0)) by {
        assert(heading.subrange(0, heading.len() as int) =~= heading);
    }
    lemma_occurs_in_middle(summary_instructions() + prev_part, heading, t + summary_closing(), heading, 0);
    assert(summary_instructions() + prev_part + heading + (t + summary_closing()) =~= p);
    assert(occurs_at(summary_closing(), summary_closing(), 0)) by {
        assert(summary_closing().subrange(0, summary_closing().len() as int) =~= summary_closing());
    }
    lemma_occurs_in_middle(a + t, summary_closing(), Seq::<char>::empty(), summary_closing(), 0);
    assert(a + t + summary_closing() + Seq::<char>::empty() =~= p);
}

} // verus!
