//! Assembly of the messages sent to the model for a chat turn: the
//! companion's system prompt, the rolling summary, recalled memories and the
//! recent history, trimmed from the oldest message on to fit the budget.
use vstd::prelude::*;
use crate::budget::{
    estimate_tokens, fit_start, fit_suffix_start, is_fit_start, lemma_fit_start_exists, suffix_sum,
    token_estimate,
};
use crate::model::{chat_message, chat_view, chat_views, ChatMessage, Memory, StoredMessage};
use crate::text::{chars_of, has_prefix, starts_with};

verus! {

/// Text that opens the system message carrying the rolling summary.
pub open spec fn summary_intro() -> Seq<char> {
    "[Context: summary of earlier messages in this conversation. Use this to remember what was discussed, but continue speaking naturally in second person — address the user as \"you\", never refer to them in third person.]\n"@
}

/// The prefix by which a summary message is recognised.
pub open spec fn summary_marker() -> Seq<char> {
    "[Context: summary of earlier messages"@
}

/// Text that opens the system message carrying recalled memories.
pub open spec fn memory_header() -> Seq<char> {
    "[Memories about the user — reference these naturally when relevant, don't force them into conversation]\n"@
}

/// The system message content that carries a rolling summary.
pub open spec fn summary_context_text(summary: Seq<char>) -> Seq<char> {
    summary_intro() + summary
}

/// One recalled memory as a bullet line.
pub open spec fn memory_line(m: Memory) -> Seq<char> {
    "- "@ + m.content@ + " ("@ + m.confidence@ + " confidence, "@ + m.memory_type@ + ")\n"@
}

/// The bullet lines of all memories, in order.
pub open spec fn memory_lines(ms: Seq<Memory>) -> Seq<char>
    decreases ms.len(),
{
    if ms.len() == 0 {
        Seq::empty()
    } else {
        memory_lines(ms.drop_last()) + memory_line(ms.last())
    }
}

/// The system message content that carries recalled memories.
pub open spec fn memory_block_text(ms: Seq<Memory>) -> Seq<char> {
    memory_header() + memory_lines(ms)
}

/// Role and content of each stored message.
pub open spec fn history_views(h: Seq<StoredMessage>) -> Seq<(Seq<char>, Seq<char>)> {
    h.map_values(|m: StoredMessage| (m.role@, m.content@))
}

/// The messages of a turn before trimming: system prompt, optional summary,
/// optional memories, then the history in chronological order.
pub open spec fn assembled_context(
    personality: Seq<char>,
    summary: Option<Seq<char>>,
    memories: Seq<Memory>,
    history: Seq<StoredMessage>,
) -> Seq<(Seq<char>, Seq<char>)> {
    seq![("system"@, personality)] + match summary {
        Some(s) => seq![("system"@, summary_context_text(s))],
        None => Seq::empty(),
    } + if memories.len() > 0 {
        seq![("system"@, memory_block_text(memories))]
    } else {
        Seq::empty()
    } + history_views(history)
}

/// Tokens of the summary message: that of the second message when it
/// carries the summary marker, else 0.
pub open spec fn summary_slot(msgs: Seq<(Seq<char>, Seq<char>)>) -> u32 {
    if msgs.len() > 1 && has_prefix(msgs[1].1, summary_marker()) {
        token_estimate(msgs[1].1)
    } else {
        0
    }
}

/// Tokens of the memory message, 0 when no memory was recalled.
pub open spec fn memory_slot(memories: Seq<Memory>) -> u32 {
    if memories.len() > 0 {
        token_estimate(memory_block_text(memories))
    } else {
        0
    }
}

/// How many leading messages are always kept.
pub open spec fn preamble_count(msgs: Seq<(Seq<char>, Seq<char>)>, memories: Seq<Memory>) -> int {
    1 + (if summary_slot(msgs) > 0 {
        1int
    } else {
        0int
    }) + (if memory_slot(memories) > 0 {
        1int
    } else {
        0int
    })
}

/// Tokens left for history messages.
pub open spec fn history_budget(
    personality: Seq<char>,
    msgs: Seq<(Seq<char>, Seq<char>)>,
    memories: Seq<Memory>,
    context_window_size: u32,
    max_tokens: u32,
) -> u32 {
    context_window_size.saturating_sub(max_tokens).saturating_sub(
        token_estimate(personality),
    ).saturating_sub(summary_slot(msgs)).saturating_sub(memory_slot(memories))
}

/// Token estimate of each message's content.
pub open spec fn message_tokens(msgs: Seq<(Seq<char>, Seq<char>)>) -> Seq<u32> {
    msgs.map_values(|m: (Seq<char>, Seq<char>)| token_estimate(m.1))
}

/// `msgs` with the messages `p..k` dropped, when there are any.
pub open spec fn drop_between(msgs: Seq<(Seq<char>, Seq<char>)>, p: int, k: int) -> Seq<
    (Seq<char>, Seq<char>),
> {
    if k > p {
        msgs.take(p) + msgs.skip(k)
    } else {
        msgs
    }
}

/// The messages sent for a chat turn.
pub open spec fn chat_context(
    personality: Seq<char>,
    summary: Option<Seq<char>>,
    memories: Seq<Memory>,
    history: Seq<StoredMessage>,
    context_window_size: u32,
    max_tokens: u32,
) -> Seq<(Seq<char>, Seq<char>)> {
    let msgs = assembled_context(personality, summary, memories, history);
    let p = preamble_count(msgs, memories);
    let budget = history_budget(personality, msgs, memories, context_window_size, max_tokens);
    drop_between(msgs, p, fit_start(message_tokens(msgs), p, budget as int))
}

/// The system message content that carries the rolling summary `summary`.
pub fn summary_context(summary: &str) -> (r: String)
    ensures
        r@ == summary_context_text(summary@),
{
    let mut r = "[Context: summary of earlier messages in this conversation. Use this to remember what was discussed, but continue speaking naturally in second person — address the user as \"you\", never refer to them in third person.]\n".to_owned();
    r.append(summary);
    r
}

/// The system message content listing recalled memories.
pub fn memory_block(memories: &[Memory]) -> (r: String)
    ensures
        r@ == memory_block_text(memories@),
{
    let mut r = "[Memories about the user — reference these naturally when relevant, don't force them into conversation]\n".to_owned();
    let mut i: usize = 0;
    while i < memories.len()
        invariant
            i <= memories@.len(),
            r@ == memory_header() + memory_lines(memories@.take(i as int)),
        decreases memories@.len() - i,
    {
        let m = &memories[i];
        r.append("- ");
        r.append(m.content.as_str());
        r.append(" (");
        r.append(m.confidence.as_str());
        r.append(" confidence, ");
        r.append(m.memory_type.as_str());
        r.append(")\n");
        proof {
            let t = memories@.take(i + 1);
            assert(t.drop_last() =~= memories@.take(i as int));
            assert(t.last() == memories@[i as int]);
            assert(r@ =~= memory_header() + memory_lines(t));
        }
        i = i + 1;
    }
    assert(memories@.take(memories@.len() as int) =~= memories@);
    r
}

/// The text of a recalled-memory block never carries the summary marker.
proof fn lemma_memory_block_unmarked(ms: Seq<Memory>)
    ensures
        !has_prefix(memory_block_text(ms), summary_marker()),
{
    reveal_strlit("[Context: summary of earlier messages");
    reveal_strlit(
        "[Memories about the user — reference these naturally when relevant, don't force them into conversation]\n",
    );
    let t = memory_block_text(ms);
    assert(t[1] == memory_header()[1]);
    if has_prefix(t, summary_marker()) {
        assert(t.take(summary_marker().len() as int)[1] == t[1]);
    }
}

/// Copies role and content of a chat message.
fn copy_chat(m: &ChatMessage) -> (r: ChatMessage)
    ensures
        chat_view(r) == chat_view(*m),
{
    ChatMessage { role: m.role.clone(), content: m.content.clone() }
}

/// The messages to send for a chat turn.
///
/// The system prompt comes first, then the rolling summary (if any), then
/// recalled memories (if any), then `history` in chronological order. The
/// leading system messages are always kept; of the history, the newest
/// messages are kept as long as their estimated tokens fit in what remains
/// of the context window after the response reserve, the system prompt, the
/// summary and the memories.
pub fn build_chat_context(
    personality: &str,
    summary: Option<&str>,
    memories: &[Memory],
    history: &[StoredMessage],
    context_window_size: u32,
    max_tokens: u32,
) -> (r: Vec<ChatMessage>)
    ensures
        chat_views(r@) == chat_context(
            personality@,
            match summary {
                Some(s) => Some(s@),
                None => None,
            },
            memories@,
            history@,
            context_window_size,
            max_tokens,
        ),
{
    let ghost sum_view: Option<Seq<char>> = match summary {
        Some(s) => Some(s@),
        None => None,
    };
    let ghost full = assembled_context(personality@, sum_view, memories@, history@);
    let mut msgs: Vec<ChatMessage> = Vec::new();
    msgs.push(chat_message("system", personality.to_owned()));
    if let Some(s) = summary {
        msgs.push(chat_message("system", summary_context(s)));
    }
    let mut memory_tokens: u32 = 0;
    if memories.len() > 0 {
        let block = memory_block(memories);
        memory_tokens = estimate_tokens(block.as_str());
        msgs.push(chat_message("system", block));
    }
    let ghost lead = chat_views(msgs@);
    assert(lead + history_views(history@).take(0) =~= full.take(lead.len() as int));
    let mut i: usize = 0;
    while i < history.len()
        invariant
            i <= history@.len(),
            lead.len() + history@.len() == full.len(),
            chat_views(msgs@) == lead + history_views(history@).take(i as int),
            lead + history_views(history@) == full,
        decreases history@.len() - i,
    {
        let h = &history[i];
        let m = ChatMessage { role: h.role.clone(), content: h.content.clone() };
        proof {
            assert(chat_views(msgs@.push(m)) =~= chat_views(msgs@).push(chat_view(m)));
            assert(history_views(history@).take(i + 1) =~= history_views(history@).take(
                i as int,
            ).push(chat_view(m)));
        }
        msgs.push(m);
        i = i + 1;
    }
    assert(history_views(history@).take(history@.len() as int) =~= history_views(history@));
    assert(chat_views(msgs@) =~= full);
    let system_tokens = estimate_tokens(personality);
    let mut summary_tokens: u32 = 0;
    if msgs.len() > 1 {
        let second = chars_of(msgs[1].content.as_str());
        let marker = chars_of("[Context: summary of earlier messages");
        if starts_with(&second, &marker) {
            summary_tokens = estimate_tokens(msgs[1].content.as_str());
        }
    }
    assert(summary_tokens == summary_slot(full));
    let available = context_window_size.saturating_sub(max_tokens).saturating_sub(
        system_tokens,
    ).saturating_sub(summary_tokens).saturating_sub(memory_tokens);
    let preamble: usize = 1 + (if summary_tokens > 0 {
        1usize
    } else {
        0usize
    }) + (if memory_tokens > 0 {
        1usize
    } else {
        0usize
    });
    proof {
        if memory_tokens > 0 && summary_tokens > 0 && sum_view is None {
            lemma_memory_block_unmarked(memories@);
        }
    }
    assert(preamble <= msgs@.len());
    let mut tokens: Vec<u32> = Vec::new();
    let mut j: usize = 0;
    while j < msgs.len()
        invariant
            j <= msgs@.len(),
            tokens@ == message_tokens(chat_views(msgs@)).take(j as int),
            chat_views(msgs@) == full,
        decreases msgs@.len() - j,
    {
        let t = estimate_tokens(msgs[j].content.as_str());
        proof {
            assert(message_tokens(chat_views(msgs@))[j as int] == token_estimate(
                msgs@[j as int].content@,
            ));
        }
        tokens.push(t);
        j = j + 1;
        assert(tokens@ =~= message_tokens(chat_views(msgs@)).take(j as int));
    }
    assert(tokens@ =~= message_tokens(full));
    let keep_from = fit_suffix_start(&tokens, preamble, available);
    if keep_from > preamble {
        let mut out: Vec<ChatMessage> = Vec::new();
        let mut a: usize = 0;
        while a < preamble
            invariant
                a <= preamble <= keep_from <= msgs@.len(),
                chat_views(msgs@) == full,
                chat_views(out@) == full.take(a as int),
            decreases preamble - a,
        {
            let m = copy_chat(&msgs[a]);
            proof {
                assert(chat_views(out@.push(m)) =~= chat_views(out@).push(chat_view(m)));
                assert(full.take(a + 1) =~= full.take(a as int).push(full[a as int]));
            }
            out.push(m);
            a = a + 1;
        }
        let mut b: usize = keep_from;
        while b < msgs.len()
            invariant
                preamble <= keep_from <= b <= msgs@.len(),
                chat_views(msgs@) == full,
                chat_views(out@) == full.take(preamble as int) + full.subrange(
                    keep_from as int,
                    b as int,
                ),
            decreases msgs@.len() - b,
        {
            let m = copy_chat(&msgs[b]);
            proof {
                assert(chat_views(out@.push(m)) =~= chat_views(out@).push(chat_view(m)));
                assert(full.subrange(keep_from as int, b + 1) =~= full.subrange(
                    keep_from as int,
                    b as int,
                ).push(full[b as int]));
            }
            out.push(m);
            b = b + 1;
        }
        assert(full.subrange(keep_from as int, full.len() as int) =~= full.skip(keep_from as int));
        out
    } else {
        msgs
    }
}


/// The always-kept leading messages are among the assembled messages.
pub proof fn lemma_preamble_within(
    personality: Seq<char>,
    summary: Option<Seq<char>>,
    memories: Seq<Memory>,
    history: Seq<StoredMessage>,
)
    ensures
        ({
            let msgs = assembled_context(personality, summary, memories, history);
            1 <= preamble_count(msgs, memories) <= msgs.len()
        }),
{
    let msgs = assembled_context(personality, summary, memories, history);
    if memories.len() > 0 && summary is None {
        assert(msgs[1] == ("system"@, memory_block_text(memories)));
        lemma_memory_block_unmarked(memories);
    }
}

/// A chat turn keeps all its leading system messages (system prompt,
/// summary, memories) and, of the history, exactly the newest messages
/// whose estimated tokens fit in what is left of the context window: the
/// kept history fits, and keeping one more (older) message would not.
pub proof fn law_context_keeps_newest_history_that_fits(
    personality: Seq<char>,
    summary: Option<Seq<char>>,
    memories: Seq<Memory>,
    history: Seq<StoredMessage>,
    context_window_size: u32,
    max_tokens: u32,
)
    ensures
        ({
            let msgs = assembled_context(personality, summary, memories, history);
            let p = preamble_count(msgs, memories);
            let budget = history_budget(personality, msgs, memories, context_window_size, max_tokens);
            let ts = message_tokens(msgs);
            let r = chat_context(personality, summary, memories, history, context_window_size, max_tokens);
            exists|k: int|
                #![trigger suffix_sum(ts, k)]
                p <= k <= msgs.len() && r == msgs.take(p) + msgs.skip(k) && suffix_sum(ts, k)
                    <= budget && (k > p ==> suffix_sum(ts, k - 1) > budget)
        }),
{
    let msgs = assembled_context(personality, summary, memories, history);
    let p = preamble_count(msgs, memories);
    let budget = history_budget(personality, msgs, memories, context_window_size, max_tokens);
    let ts = message_tokens(msgs);
    lemma_preamble_within(personality, summary, memories, history);
    assert(suffix_sum(ts, ts.len() as int) == 0);
    lemma_fit_start_exists(ts, p, budget as int, ts.len() as int);
    let k = fit_start(ts, p, budget as int);
    if k <= p {
        assert(msgs.take(p) + msgs.skip(k) =~= msgs);
    }
    assert(suffix_sum(ts, k) <= budget);
}

/// When the whole history fits in the budget, nothing is dropped.
pub proof fn law_context_keeps_everything_that_fits(
    personality: Seq<char>,
    summary: Option<Seq<char>>,
    memories: Seq<Memory>,
    history: Seq<StoredMessage>,
    context_window_size: u32,
    max_tokens: u32,
)
    requires
        ({
            let msgs = assembled_context(personality, summary, memories, history);
            suffix_sum(message_tokens(msgs), preamble_count(msgs, memories)) <= history_budget(
                personality,
                msgs,
                memories,
                context_window_size,
                max_tokens,
            )
        }),
    ensures
        chat_context(personality, summary, memories, history, context_window_size, max_tokens)
            == assembled_context(personality, summary, memories, history),
{
    let msgs = assembled_context(personality, summary, memories, history);
    let p = preamble_count(msgs, memories);
    let budget = history_budget(personality, msgs, memories, context_window_size, max_tokens);
    let ts = message_tokens(msgs);
    lemma_preamble_within(personality, summary, memories, history);
    assert(is_fit_start(ts, p, budget as int, p));
    lemma_fit_start_exists(ts, p, budget as int, p);
    crate::budget::lemma_fit_start_unique(ts, p, budget as int, p, fit_start(ts, p, budget as int));
}

} // verus!
