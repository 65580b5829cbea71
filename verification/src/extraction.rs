//! Memory extraction: the prompt that asks the sidecar model for memories,
//! the cleaning of its reply before JSON parsing, and the records to store
//! for what it extracted.
use vstd::prelude::*;
use crate::json::{encode_string_array, json_string_array, string_views};
use crate::model::{Memory, StoredMessage};
use crate::summary::{render_transcript, transcript};
use crate::text::{
    chars_of, concat_all, ends_with, find, first_occurrence, has_prefix, has_suffix,
    lemma_concat_all_lists, lemma_lists_in_middle, lemma_occurs_in_middle, lists_at, occurs_at,
    occurs_in, starts_with, string_of_range, sub_chars, total_len, trim_chars, trimmed,
};

verus! {

/// Number of `c` in `s`.
pub open spec fn count_char(s: Seq<char>, c: char) -> int
    decreases s.len(),
{
    if s.len() == 0 {
        0
    } else {
        count_char(s.drop_last(), c) + if s.last() == c {
            1int
        } else {
            0int
        }
    }
}

/// The `'}'` at index `i` closes the first brace level opened in `s`: after
/// it, as many braces have been closed as opened.
pub open spec fn closes_at(s: Seq<char>, i: int) -> bool {
    0 <= i < s.len() && s[i] == '}' && count_char(s.take(i + 1), '{') == count_char(
        s.take(i + 1),
        '}',
    )
}

/// Length of the first complete JSON object at the start of `s`: up to and
/// including the first `'}'` that brings the brace depth back to zero, or
/// all of `s` when there is none.
#[verifier::opaque]
pub open spec fn object_end(s: Seq<char>) -> int {
    if exists|i: int| closes_at(s, i) {
        (choose|i: int| closes_at(s, i) && forall|j: int| 0 <= j < i ==> !closes_at(s, j)) + 1
    } else {
        s.len() as int
    }
}

/// `s` after the first `</think>` marker, trimmed; `s` itself without one.
#[verifier::opaque]
pub open spec fn after_think(s: Seq<char>) -> Seq<char> {
    match first_occurrence(s, "</think>"@) {
        Some(i) => trimmed(s.skip(i + "</think>"@.len())),
        None => s,
    }
}

/// `s` without an opening code fence (```` ```json ```` or ```` ``` ````).
pub open spec fn strip_open_fence(s: Seq<char>) -> Seq<char> {
    if has_prefix(s, "```json"@) {
        s.skip("```json"@.len() as int)
    } else if has_prefix(s, "```"@) {
        s.skip("```"@.len() as int)
    } else {
        s
    }
}

/// `s` without a closing code fence.
pub open spec fn strip_close_fence(s: Seq<char>) -> Seq<char> {
    if has_suffix(s, "```"@) {
        s.take(s.len() - "```"@.len())
    } else {
        s
    }
}

/// The JSON text taken from a sidecar reply: trimmed, after any reasoning
/// block, without code fences, cut after the first complete object.
pub open spec fn cleaned_reply(reply: Seq<char>) -> Seq<char> {
    let a = after_think(trimmed(reply));
    let b = trimmed(strip_close_fence(strip_open_fence(a)));
    b.take(object_end(b))
}

proof fn lemma_count_char_step(s: Seq<char>, i: int, c: char)
    requires
        0 <= i < s.len(),
    ensures
        count_char(s.take(i + 1), c) == count_char(s.take(i), c) + if s[i] == c {
            1int
        } else {
            0int
        },
        count_char(s.take(i), c) <= i,
    decreases i,
{
    assert(s.take(i + 1).drop_last() =~= s.take(i));
    if i > 0 {
        lemma_count_char_step(s, i - 1, c);
    } else {
        assert(s.take(0) =~= Seq::<char>::empty());
    }
}

/// Length of the first complete JSON object at the start of `s`.
pub fn first_object_end(s: &[char]) -> (r: usize)
    ensures
        r == object_end(s@),
        r <= s@.len(),
{
    let n = s.len();
    let mut opens: usize = 0;
    let mut closes: usize = 0;
    let mut i: usize = 0;
    assert(s@.take(0) =~= Seq::<char>::empty());
    while i < n
        invariant
            n == s@.len(),
            i <= n,
            opens <= i,
            closes <= i,
            opens == count_char(s@.take(i as int), '{'),
            closes == count_char(s@.take(i as int), '}'),
            forall|j: int| 0 <= j < i ==> !closes_at(s@, j),
        decreases n - i,
    {
        proof {
            lemma_count_char_step(s@, i as int, '{');
            lemma_count_char_step(s@, i as int, '}');
        }
        let c = s[i];
        if c == '{' {
            opens = opens + 1;
        } else if c == '}' {
            closes = closes + 1;
            if opens == closes {
                proof {
                    reveal(object_end);
                    assert(closes_at(s@, i as int));
                    let w = choose|k: int| closes_at(s@, k) && forall|j: int| 0 <= j < k ==> !closes_at(s@, j);
                    if w < i {
                    } else if w > i {
                        assert(!closes_at(s@, i as int));
                    }
                }
                return i + 1;
            }
        }
        i = i + 1;
    }
    proof {
        reveal(object_end);
        assert forall|j: int| !closes_at(s@, j) by {
            if 0 <= j < n {
            }
        }
    }
    n
}

/// `s` after the first `</think>` marker, trimmed.
pub fn skip_reasoning(s: Vec<char>) -> (r: Vec<char>)
    ensures
        r@ == after_think(s@),
{
    let think = chars_of("</think>");
    reveal(after_think);
    match find(&s, &think) {
        Some(i) => {
            assert(occurs_at(s@, think@, i as int));
            assert(s@.len() == s.len() && think@.len() == think.len());
            let rest = sub_chars(&s, i + think.len(), s.len());
            assert(rest@ =~= s@.skip(i + "</think>"@.len()));
            trim_chars(&rest)
        },
        None => s,
    }
}

/// `s` without code fences, trimmed.
pub fn strip_fences(a: Vec<char>) -> (r: Vec<char>)
    ensures
        r@ == trimmed(strip_close_fence(strip_open_fence(a@))),
{
    let json = chars_of("```json");
    let fence = chars_of("```");
    let b = if starts_with(&a, &json) {
        sub_chars(&a, json.len(), a.len())
    } else if starts_with(&a, &fence) {
        sub_chars(&a, fence.len(), a.len())
    } else {
        a
    };
    assert(b@ =~= strip_open_fence(a@));
    let c = if ends_with(&b, &fence) {
        sub_chars(&b, 0, b.len() - fence.len())
    } else {
        b
    };
    assert(c@ =~= strip_close_fence(b@));
    trim_chars(&c)
}

/// The JSON text to parse from a sidecar reply.
///
/// The reply is trimmed; a reasoning block ending in `</think>` is dropped;
/// an opening ```` ```json ```` or ```` ``` ```` fence and a closing
/// ```` ``` ```` fence are removed; and anything after the first complete
/// JSON object (by brace counting) is cut off.
pub fn clean_extraction_reply(reply: &str) -> (r: String)
    ensures
        r@ == cleaned_reply(reply@),
{
    let chars = chars_of(reply);
    let t = trim_chars(&chars);
    let a = skip_reasoning(t);
    let d = strip_fences(a);
    let ghost dv = trimmed(strip_close_fence(strip_open_fence(after_think(trimmed(reply@)))));
    assert(d@ == dv);
    let end = first_object_end(&d);
    let r = string_of_range(&d, 0, end);
    assert(r@ =~= dv.take(object_end(dv)));
    r
}

/// The session-summary section of the extraction prompt.
pub open spec fn session_summary_text(summary: Option<Seq<char>>) -> Seq<char> {
    match summary {
        Some(s) => "\nSession summary so far:\n"@ + s + "\n"@,
        None => Seq::empty(),
    }
}

/// One existing memory as a line of the extraction prompt.
pub open spec fn existing_memory_line(m: Memory) -> Seq<char> {
    "- ["@ + m.memory_type@ + "] "@ + m.content@ + "\n"@
}

/// The lines of existing memories, in order.
pub open spec fn existing_memory_lines(ms: Seq<Memory>) -> Seq<char>
    decreases ms.len(),
{
    if ms.len() == 0 {
        Seq::empty()
    } else {
        existing_memory_lines(ms.drop_last()) + existing_memory_line(ms.last())
    }
}

/// How many existing memories the extraction prompt lists at most.
pub const EXISTING_MEMORIES_LISTED: usize = 10;

/// The existing-memories section of the extraction prompt: the first ten
/// memories given, or nothing when there are none.
pub open spec fn existing_memories_text(ms: Seq<Memory>) -> Seq<char> {
    if ms.len() == 0 {
        Seq::empty()
    } else {
        "\nExisting memories (prefer updating over creating duplicates):\n"@ + existing_memory_lines(
            ms.take(if ms.len() < 10 {
                ms.len() as int
            } else {
                10
            }),
        )
    }
}

/// Instructions that open the extraction prompt.
pub open spec fn extraction_intro() -> Seq<char> {
    "You are a memory extraction agent. Your job is to decide what, if anything, from the newest exchange is worth remembering long-term about the user.\n\nYou have access to recent conversation context, a session summary, and existing memories.\n\nEXTRACT only:\n- Durable facts the user shared about themselves (name, job, hobbies, relationships, life events)\n- Stable preferences or opinions that would be useful in future conversations\n- Meaningful relationship moments (emotional breakthroughs, commitments, recurring themes)\n\nDO NOT EXTRACT:\n- Jokes, casual banter, or one-off comments unless clearly reinforced\n- Greetings, small talk, or mood that is obviously momentary\n- Generic observations or paraphrasing without added meaning\n- Anything about how the companion behaves or speaks\n- Characterizations or descriptions the companion made about the user — only extract what the USER explicitly stated about themselves\n- Inferred emotional states or vibes; only save if the user directly stated it as a persistent trait (e.g. \"I'm always anxious\", \"I love mornings\")\n\nCRITICAL: If a memory you are about to write is already captured in the existing memories list — same fact, same person, even if worded differently — output {\"memories\": [], \"nothing_notable\": true} instead of duplicating it.\nCRITICAL: Extract ONLY from the [NEWEST EXCHANGE] section. The recent context is provided so you understand the conversation — do NOT extract memories from it, only use it as background.\nPREFER updating an existing memory over creating a new one.\nWhen in doubt, output nothing. Most exchanges have nothing worth saving.\n"@
}

/// Heading of the background-context section.
pub open spec fn recent_context_heading() -> Seq<char> {
    "\nRecent context (background only — do NOT extract from this):\n"@
}

/// Heading of the newest-exchange section.
pub open spec fn newest_exchange_heading() -> Seq<char> {
    "\n[NEWEST EXCHANGE — extract only from here]\n"@
}

/// Instructions that close the extraction prompt.
pub open spec fn extraction_outro() -> Seq<char> {
    "\nOutput ONLY raw JSON. Pick ONE memory_type per memory.\nIf nothing notable: {\"memories\": [], \"nothing_notable\": true}\nExample: {\"memories\": [{\"content\": \"User's name is Alex\", \"memory_type\": \"personal_fact\", \"source\": \"stated\", \"confidence\": \"high\", \"importance\": 7, \"tags\": [\"name\"]}], \"nothing_notable\": false}"@
}

/// The extraction prompt for the last messages `recent` (oldest first): all
/// but the last two are background, the last two are the exchange to
/// extract from.
pub open spec fn extraction_prompt_text(
    summary: Option<Seq<char>>,
    existing: Seq<Memory>,
    recent: Seq<StoredMessage>,
) -> Seq<char> {
    let cut = recent.len() - 2;
    extraction_intro() + session_summary_text(summary) + existing_memories_text(existing)
        + recent_context_heading() + transcript(recent.take(cut)) + newest_exchange_heading()
        + transcript(recent.skip(cut)) + extraction_outro()
}

/// The existing-memories section of the extraction prompt.
pub fn existing_memories_section(existing: &[Memory]) -> (r: String)
    ensures
        r@ == existing_memories_text(existing@),
{
    if existing.len() == 0 {
        return String::new();
    }
    let mut r = "\nExisting memories (prefer updating over creating duplicates):\n".to_owned();
    let limit = if existing.len() < EXISTING_MEMORIES_LISTED {
        existing.len()
    } else {
        EXISTING_MEMORIES_LISTED
    };
    let ghost head = "\nExisting memories (prefer updating over creating duplicates):\n"@;
    let mut i: usize = 0;
    while i < limit
        invariant
            i <= limit <= existing@.len(),
            r@ == head + existing_memory_lines(existing@.take(i as int)),
        decreases limit - i,
    {
        let m = &existing[i];
        r.append("- [");
        r.append(m.memory_type.as_str());
        r.append("] ");
        r.append(m.content.as_str());
        r.append("\n");
        proof {
            let t = existing@.take(i + 1);
            assert(t.drop_last() =~= existing@.take(i as int));
        }
        i = i + 1;
    }
    r
}

/// The prompt asking the sidecar model for memories, or `None` when fewer
/// than two messages (one user/companion exchange) are available.
pub fn extraction_prompt(
    summary: Option<&str>,
    existing: &[Memory],
    recent: &[StoredMessage],
) -> (r: Option<String>)
    ensures
        r is None <==> recent@.len() < 2,
        r matches Some(p) ==> p@ == extraction_prompt_text(
            match summary {
                Some(s) => Some(s@),
                None => None,
            },
            existing@,
            recent@,
        ),
{
    if recent.len() < 2 {
        return None;
    }
    let cut = recent.len() - 2;
    let older = vstd::slice::slice_subrange(recent, 0, cut);
    let newest = vstd::slice::slice_subrange(recent, cut, recent.len());
    assert(older@ =~= recent@.take(cut as int));
    assert(newest@ =~= recent@.skip(cut as int));
    let mut p = "You are a memory extraction agent. Your job is to decide what, if anything, from the newest exchange is worth remembering long-term about the user.\n\nYou have access to recent conversation context, a session summary, and existing memories.\n\nEXTRACT only:\n- Durable facts the user shared about themselves (name, job, hobbies, relationships, life events)\n- Stable preferences or opinions that would be useful in future conversations\n- Meaningful relationship moments (emotional breakthroughs, commitments, recurring themes)\n\nDO NOT EXTRACT:\n- Jokes, casual banter, or one-off comments unless clearly reinforced\n- Greetings, small talk, or mood that is obviously momentary\n- Generic observations or paraphrasing without added meaning\n- Anything about how the companion behaves or speaks\n- Characterizations or descriptions the companion made about the user — only extract what the USER explicitly stated about themselves\n- Inferred emotional states or vibes; only save if the user directly stated it as a persistent trait (e.g. \"I'm always anxious\", \"I love mornings\")\n\nCRITICAL: If a memory you are about to write is already captured in the existing memories list — same fact, same person, even if worded differently — output {\"memories\": [], \"nothing_notable\": true} instead of duplicating it.\nCRITICAL: Extract ONLY from the [NEWEST EXCHANGE] section. The recent context is provided so you understand the conversation — do NOT extract memories from it, only use it as background.\nPREFER updating an existing memory over creating a new one.\nWhen in doubt, output nothing. Most exchanges have nothing worth saving.\n".to_owned();
    if let Some(s) = summary {
        p.append("\nSession summary so far:\n");
        p.append(s);
        p.append("\n");
    }
    let existing_text = existing_memories_section(existing);
    p.append(existing_text.as_str());
    p.append("\nRecent context (background only — do NOT extract from this):\n");
    let context_block = render_transcript(older);
    p.append(context_block.as_str());
    p.append("\n[NEWEST EXCHANGE — extract only from here]\n");
    let exchange_block = render_transcript(newest);
    p.append(exchange_block.as_str());
    p.append(
        "\nOutput ONLY raw JSON. Pick ONE memory_type per memory.\nIf nothing notable: {\"memories\": [], \"nothing_notable\": true}\nExample: {\"memories\": [{\"content\": \"User's name is Alex\", \"memory_type\": \"personal_fact\", \"source\": \"stated\", \"confidence\": \"high\", \"importance\": 7, \"tags\": [\"name\"]}], \"nothing_notable\": false}",
    );
    Some(p)
}


/// The prompt lines `"- [<memory_type>] <content>\n"` of memories, one per memory.
pub open spec fn existing_memory_lines_of(ms: Seq<Memory>) -> Seq<Seq<char>> {
    ms.map_values(|m: Memory| "- ["@ + m.memory_type@ + "] "@ + m.content@ + "\n"@)
}

/// How many of `n` existing memories the prompt lists.
pub open spec fn listed_memory_count(n: int) -> int {
    if n < 10 {
        n
    } else {
        10
    }
}

proof fn lemma_existing_lines_are_concat(ms: Seq<Memory>)
    ensures
        existing_memory_lines(ms) == concat_all(existing_memory_lines_of(ms)),
    decreases ms.len(),
{
    if ms.len() > 0 {
        lemma_existing_lines_are_concat(ms.drop_last());
        assert(existing_memory_lines_of(ms).drop_last() =~= existing_memory_lines_of(ms.drop_last()));
        assert(existing_memory_lines_of(ms).last() == existing_memory_line(ms.last()));
    }
}

/// The existing-memories section is empty when there are no memories;
/// otherwise it is the heading followed by exactly the lines
/// `"- [<memory_type>] <content>\n"` of the first `min(n, 10)` memories, in
/// order, and nothing else.
pub proof fn law_existing_memories_section_lists_first_ten(ms: Seq<Memory>)
    ensures
        ms.len() == 0 ==> existing_memories_text(ms).len() == 0,
        ms.len() > 0 ==> ({
            let heading = "\nExisting memories (prefer updating over creating duplicates):\n"@;
            let lines = existing_memory_lines_of(ms.take(listed_memory_count(ms.len() as int)));
            let text = existing_memories_text(ms);
            &&& occurs_at(text, heading, 0)
            &&& lists_at(text, lines, heading.len() as int)
            &&& text.len() == heading.len() + total_len(lines)
        }),
{
    if ms.len() > 0 {
        let heading = "\nExisting memories (prefer updating over creating duplicates):\n"@;
        let listed = ms.take(listed_memory_count(ms.len() as int));
        let lines = existing_memory_lines_of(listed);
        lemma_existing_lines_are_concat(listed);
        lemma_concat_all_lists(lines);
        let body = concat_all(lines);
        let text = existing_memories_text(ms);
        assert(text =~= heading + body + Seq::<char>::empty());
        lemma_lists_in_middle(heading, body, Seq::<char>::empty(), lines, 0);
        assert(text.subrange(0, heading.len() as int) =~= heading);
    }
}

/// The extraction prompt shows the model the first `min(n, 10)` existing
/// memories: after the instructions and the session summary comes the
/// existing-memories heading, then the line of each of those memories in
/// order, then directly the recent-context heading. In particular the line
/// of every memory among the first ten occurs in the prompt.
pub proof fn law_extraction_prompt_lists_first_ten_memories(
    summary: Option<Seq<char>>,
    existing: Seq<Memory>,
    recent: Seq<StoredMessage>,
)
    requires
        existing.len() > 0,
    ensures
        ({
            let p = extraction_prompt_text(summary, existing, recent);
            let heading = "\nExisting memories (prefer updating over creating duplicates):\n"@;
            let k = listed_memory_count(existing.len() as int);
            let lines = existing_memory_lines_of(existing.take(k));
            let at: int = (extraction_intro().len() + session_summary_text(summary).len()) as int;
            &&& occurs_at(p, heading, at)
            &&& lists_at(p, lines, at + heading.len())
            &&& occurs_at(p, recent_context_heading(), at + heading.len() + total_len(lines))
            &&& forall|i: int|
                0 <= i < k ==> occurs_in(
                    p,
                    "- ["@ + (#[trigger] existing[i]).memory_type@ + "] "@ + existing[i].content@
                        + "\n"@,
                )
        }),
{
    law_existing_memories_section_lists_first_ten(existing);
    let p = extraction_prompt_text(summary, existing, recent);
    let heading = "\nExisting memories (prefer updating over creating duplicates):\n"@;
    let k = listed_memory_count(existing.len() as int);
    let lines = existing_memory_lines_of(existing.take(k));
    let a = extraction_intro() + session_summary_text(summary);
    let text = existing_memories_text(existing);
    let cut = recent.len() - 2;
    let c = recent_context_heading() + transcript(recent.take(cut)) + newest_exchange_heading()
        + transcript(recent.skip(cut)) + extraction_outro();
    assert(p =~= a + text + c);
    lemma_occurs_in_middle(a, text, c, heading, 0);
    lemma_lists_in_middle(a, text, c, lines, heading.len() as int);
    let rch = recent_context_heading();
    assert(occurs_at(c, rch, 0)) by {
        assert(c.subrange(0, rch.len() as int) =~= rch);
    }
    lemma_occurs_in_middle(a + text, c, Seq::<char>::empty(), rch, 0);
    assert(a + text + c + Seq::<char>::empty() =~= p);
    assert forall|i: int| 0 <= i < k implies occurs_in(
        p,
        "- ["@ + (#[trigger] existing[i]).memory_type@ + "] "@ + existing[i].content@ + "\n"@,
    ) by {
        assert(lines[i] == "- ["@ + existing[i].memory_type@ + "] "@ + existing[i].content@ + "\n"@);
        assert(occurs_at(p, lines[i], a.len() + heading.len() + total_len(lines.take(i))));
    }
}

/// A memory as the sidecar model reports it; absent fields take defaults.
#[derive(Debug, Clone, PartialEq, Eq)]
pub struct ExtractedMemory {
    pub content: String,
    pub memory_type: Option<String>,
    pub source: Option<String>,
    pub confidence: Option<String>,
    pub importance: Option<u32>,
    pub tags: Option<Vec<String>>,
}

/// The sidecar model's answer.
#[derive(Debug, Clone, PartialEq, Eq)]
pub struct ExtractionResult {
    pub memories: Vec<ExtractedMemory>,
    pub nothing_notable: bool,
}

/// A memory ready to be stored.
#[derive(Debug, Clone, PartialEq, Eq)]
pub struct MemoryDraft {
    pub content: String,
    pub memory_type: String,
    pub source: String,
    pub confidence: String,
    pub importance: u32,
    /// The tags as a JSON array.
    pub tags: String,
}

/// The view of an optional text, or `default`.
pub open spec fn text_or(v: Option<String>, default: Seq<char>) -> Seq<char> {
    match v {
        Some(s) => s@,
        None => default,
    }
}

/// Default memory type of an extracted memory.
pub open spec fn default_memory_type() -> Seq<char> {
    "personal_fact"@
}

/// Default source of an extracted memory.
pub open spec fn default_source() -> Seq<char> {
    "observed"@
}

/// Default confidence of an extracted memory.
pub open spec fn default_confidence() -> Seq<char> {
    "medium"@
}

/// Default importance of an extracted memory.
pub const DEFAULT_IMPORTANCE: u32 = 5;

/// The tags of an extracted memory; none when absent.
pub open spec fn tag_views(m: ExtractedMemory) -> Seq<Seq<char>> {
    match m.tags {
        Some(t) => string_views(t@),
        None => Seq::empty(),
    }
}

/// What is stored for an extracted memory.
pub open spec fn is_draft_of(d: MemoryDraft, m: ExtractedMemory) -> bool {
    &&& d.content@ == m.content@
    &&& d.memory_type@ == text_or(m.memory_type, default_memory_type())
    &&& d.source@ == text_or(m.source, default_source())
    &&& d.confidence@ == text_or(m.confidence, default_confidence())
    &&& d.importance == match m.importance {
        Some(i) => i,
        None => DEFAULT_IMPORTANCE,
    }
    &&& d.tags@ == json_string_array(tag_views(m))
}

/// The tags text to store: the encoded tags, or `[]` when encoding failed.
pub fn tags_text_or_empty(encoded: Option<String>) -> (r: String)
    ensures
        match encoded {
            Some(t) => r@ == t@,
            None => r@ == "[]"@,
        },
{
    match encoded {
        Some(t) => t,
        None => "[]".to_owned(),
    }
}

/// Copies an optional text, falling back to `default`.
fn text_or_default(v: &Option<String>, default: &str) -> (r: String)
    ensures
        r@ == text_or(*v, default@),
{
    match v {
        Some(s) => s.clone(),
        None => default.to_owned(),
    }
}

/// The record to store for an extracted memory: absent fields default to
/// type personal_fact, source observed, confidence medium, importance 5 and
/// no tags; the tags are stored as a JSON array.
pub fn memory_draft(m: &ExtractedMemory) -> (d: MemoryDraft)
    ensures
        is_draft_of(d, *m),
{
    let tags: Vec<String> = match &m.tags {
        Some(t) => t.clone(),
        None => Vec::new(),
    };
    assert(string_views(tags@) =~= tag_views(*m));
    let encoded = match encode_string_array(&tags) {
        Ok(t) => Some(t),
        Err(_) => None,
    };
    MemoryDraft {
        content: m.content.clone(),
        memory_type: text_or_default(&m.memory_type, "personal_fact"),
        source: text_or_default(&m.source, "observed"),
        confidence: text_or_default(&m.confidence, "medium"),
        importance: match m.importance {
            Some(i) => i,
            None => DEFAULT_IMPORTANCE,
        },
        tags: tags_text_or_empty(encoded),
    }
}

/// The memories to store from the sidecar's answer: none when it reports
/// nothing notable or lists no memory, else one draft per listed memory, in order.
pub fn memories_to_store(result: &ExtractionResult) -> (r: Vec<MemoryDraft>)
    ensures
        (result.nothing_notable || result.memories@.len() == 0) ==> r@.len() == 0,
        !result.nothing_notable ==> r@.len() == result.memories@.len(),
        !result.nothing_notable ==> forall|i: int|
            0 <= i < r@.len() ==> is_draft_of(#[trigger] r@[i], result.memories@[i]),
{
    let mut r: Vec<MemoryDraft> = Vec::new();
    if result.nothing_notable || result.memories.len() == 0 {
        return r;
    }
    let mut i: usize = 0;
    while i < result.memories.len()
        invariant
            i <= result.memories@.len(),
            r@.len() == i,
            forall|k: int| 0 <= k < i ==> is_draft_of(#[trigger] r@[k], result.memories@[k]),
        decreases result.memories@.len() - i,
    {
        let d = memory_draft(&result.memories[i]);
        r.push(d);
        i = i + 1;
    }
    r
}

} // verus!
