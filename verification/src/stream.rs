//! Streaming responses: framing of server-sent-event lines and collection
//! of streamed chunks into a complete reply.
use vstd::prelude::*;
use crate::model::StreamChunk;
use crate::text::{
    chars_eq, chars_of, has_prefix, lemma_newline_at, lemma_newline_at_props, newline_at,
    starts_with, string_of, sub_chars, trim_chars, trimmed,
};

verus! {

/// What one server-sent-event line means.
#[derive(Debug, Clone, PartialEq, Eq)]
pub enum SseLine {
    /// A blank line, a comment, or a field other than `data`.
    Ignored,
    /// The `data: [DONE]` terminator.
    Done,
    /// A `data:` payload.
    Data(String),
}

/// The view of an event line.
pub enum SseLineView {
    Ignored,
    Done,
    Data(Seq<char>),
}

/// The view of an event line.
pub open spec fn sse_line_view(l: SseLine) -> SseLineView {
    match l {
        SseLine::Ignored => SseLineView::Ignored,
        SseLine::Done => SseLineView::Done,
        SseLine::Data(d) => SseLineView::Data(d@),
    }
}

/// The meaning of a trimmed event line.
pub open spec fn classify_line(line: Seq<char>) -> SseLineView {
    if line.len() == 0 || line[0] == ':' {
        SseLineView::Ignored
    } else if has_prefix(line, "data: "@) {
        let data = line.skip("data: "@.len() as int);
        if trimmed(data) == "[DONE]"@ {
            SseLineView::Done
        } else {
            SseLineView::Data(data)
        }
    } else {
        SseLineView::Ignored
    }
}

/// The meaning of a trimmed event line: blank lines and comments (`:`) are
/// ignored, `data: [DONE]` ends the stream, other `data: ` lines carry a payload.
pub fn classify_sse_line(line: &[char]) -> (r: SseLine)
    ensures
        sse_line_view(r) == classify_line(line@),
{
    if line.len() == 0 || line[0] == ':' {
        return SseLine::Ignored;
    }
    let prefix = chars_of("data: ");
    if starts_with(line, &prefix) {
        let data = sub_chars(line, prefix.len(), line.len());
        assert(data@ =~= line@.skip("data: "@.len() as int));
        let t = trim_chars(&data);
        let done = chars_of("[DONE]");
        if chars_eq(&t, &done) {
            SseLine::Done
        } else {
            SseLine::Data(string_of(&data))
        }
    } else {
        SseLine::Ignored
    }
}

/// The complete lines of `s`: the pieces before each `'\n'`.
pub open spec fn complete_lines(s: Seq<char>) -> Seq<Seq<char>>
    decreases s.len(),
{
    let i = newline_at(s);
    if i < s.len() {
        seq![s.take(i as int)] + complete_lines(s.skip(i as int + 1))
    } else {
        Seq::empty()
    }
}

/// What follows the last `'\n'` of `s` (all of `s` when there is none).
pub open spec fn line_remainder(s: Seq<char>) -> Seq<char>
    decreases s.len(),
{
    let i = newline_at(s);
    if i < s.len() {
        line_remainder(s.skip(i as int + 1))
    } else {
        s
    }
}

/// The meaning of each complete line, trimmed.
pub open spec fn line_events(ls: Seq<Seq<char>>) -> Seq<SseLineView> {
    ls.map_values(|l: Seq<char>| classify_line(trimmed(l)))
}

/// The views of event lines.
pub open spec fn sse_line_views(v: Seq<SseLine>) -> Seq<SseLineView> {
    v.map_values(|l: SseLine| sse_line_view(l))
}

/// Framing does not depend on how the text arrived: the complete lines of
/// `a + b` are those of `a` followed by those of what `a` left pending
/// followed by `b`, and the same text is left pending.
pub proof fn law_sse_framing_ignores_chunk_boundaries(a: Seq<char>, b: Seq<char>)
    ensures
        complete_lines(a + b) == complete_lines(a) + complete_lines(line_remainder(a) + b),
        line_remainder(a + b) == line_remainder(line_remainder(a) + b),
    decreases a.len(),
{
    lemma_newline_at_props(a);
    let i = newline_at(a);
    if i < a.len() {
        let ab = a + b;
        assert forall|k: int| 0 <= k < i implies #[trigger] ab[k] != '\n' by {
            assert(ab[k] == a[k]);
        }
        assert(ab[i as int] == a[i as int]);
        lemma_newline_at(ab, i as int);
        assert(ab.take(i as int) =~= a.take(i as int));
        assert(ab.skip(i as int + 1) =~= a.skip(i as int + 1) + b);
        law_sse_framing_ignores_chunk_boundaries(a.skip(i as int + 1), b);
        assert(complete_lines(ab) =~= complete_lines(a) + complete_lines(line_remainder(a) + b));
    } else {
        assert(complete_lines(a) =~= Seq::<Seq<char>>::empty());
        assert(complete_lines(a) + complete_lines(line_remainder(a) + b) =~= complete_lines(a + b));
    }
}

/// Splits the text received so far into event lines.
pub struct SseDecoder {
    buffer: Vec<char>,
}

impl SseDecoder {
    /// The text received but not yet taken as lines.
    pub closed spec fn pending(&self) -> Seq<char> {
        self.buffer@
    }

    /// A decoder with nothing pending.
    pub fn new() -> (r: SseDecoder)
        ensures
            r.pending() == Seq::<char>::empty(),
    {
        SseDecoder { buffer: Vec::new() }
    }

    /// Appends received text.
    pub fn push_text(&mut self, text: &str)
        ensures
            final(self).pending() == old(self).pending() + text@,
    {
        let cs = chars_of(text);
        let mut i: usize = 0;
        let ghost start = self.buffer@;
        while i < cs.len()
            invariant
                i <= cs@.len(),
                cs@ == text@,
                self.buffer@ == start + cs@.take(i as int),
            decreases cs@.len() - i,
        {
            self.buffer.push(cs[i]);
            i = i + 1;
            assert(self.buffer@ =~= start + cs@.take(i as int));
        }
        assert(cs@.take(cs@.len() as int) =~= cs@);
    }

    /// Takes the next complete line (up to a `'\n'`), trimmed, and says what
    /// it means; `None`, with nothing taken, when no complete line is pending.
    pub fn next_line(&mut self) -> (r: Option<SseLine>)
        ensures
            ({
                let b = old(self).pending();
                let i = newline_at(b) as int;
                if i < b.len() {
                    &&& r matches Some(l) && sse_line_view(l) == classify_line(trimmed(b.take(i)))
                    &&& final(self).pending() == b.skip(i + 1)
                } else {
                    &&& r is None
                    &&& final(self).pending() == b
                }
            }),
    {
        let n = self.buffer.len();
        let mut j: usize = 0;
        while j < n && self.buffer[j] != '\n'
            invariant
                n == self.buffer@.len(),
                j <= n,
                forall|k: int| 0 <= k < j ==> #[trigger] self.buffer@[k] != '\n',
            decreases n - j,
        {
            j = j + 1;
        }
        proof {
            lemma_newline_at(self.buffer@, j as int);
        }
        if j == n {
            return None;
        }
        let raw = sub_chars(&self.buffer, 0, j);
        let line = trim_chars(&raw);
        let rest = sub_chars(&self.buffer, j + 1, n);
        proof {
            assert(raw@ =~= self.buffer@.take(j as int));
            assert(rest@ =~= self.buffer@.skip(j + 1));
        }
        self.buffer = rest;
        Some(classify_sse_line(&line))
    }

    /// Takes every complete pending line, in order, and says what each means;
    /// what follows the last `'\n'` stays pending.
    pub fn drain_lines(&mut self) -> (r: Vec<SseLine>)
        ensures
            sse_line_views(r@) == line_events(complete_lines(old(self).pending())),
            final(self).pending() == line_remainder(old(self).pending()),
    {
        let ghost start = self.pending();
        let mut r: Vec<SseLine> = Vec::new();
        assert(sse_line_views(r@) + line_events(complete_lines(start)) =~= line_events(
            complete_lines(start),
        ));
        loop
            invariant
                sse_line_views(r@) + line_events(complete_lines(self.pending())) == line_events(
                    complete_lines(start),
                ),
                line_remainder(self.pending()) == line_remainder(start),
            ensures
                sse_line_views(r@) == line_events(complete_lines(start)),
                self.pending() == line_remainder(start),
            decreases self.pending().len(),
        {
            let ghost b = self.pending();
            match self.next_line() {
                Some(l) => {
                    proof {
                        let i = newline_at(b) as int;
                        lemma_newline_at_props(b);
                        assert(complete_lines(b) == seq![b.take(i)] + complete_lines(b.skip(i + 1)));
                        assert(line_events(complete_lines(b)) =~= seq![classify_line(trimmed(b.take(i)))]
                            + line_events(complete_lines(b.skip(i + 1))));
                        assert(sse_line_views(r@.push(l)) =~= sse_line_views(r@).push(sse_line_view(l)));
                    }
                    r.push(l);
                    proof {
                        assert(sse_line_views(r@) + line_events(complete_lines(self.pending())) =~= line_events(
                            complete_lines(start),
                        ));
                    }
                },
                None => {
                    proof {
                        assert(complete_lines(b) =~= Seq::<Seq<char>>::empty());
                        assert(line_events(complete_lines(b)) =~= Seq::<SseLineView>::empty());
                        assert(sse_line_views(r@) =~= sse_line_views(r@) + line_events(complete_lines(b)));
                    }
                    break;
                },
            }
        }
        r
    }
}

/// One choice of a streamed completion event: the text it adds, if any,
/// and the reason the completion stopped, once it has.
#[derive(Debug, Clone, PartialEq, Eq)]
pub struct StreamChoice {
    pub content: Option<String>,
    pub finish_reason: Option<String>,
}

/// One decoded `data:` payload of a streamed completion.
#[derive(Debug, Clone, PartialEq, Eq)]
pub struct StreamEvent {
    pub choices: Vec<StreamChoice>,
}

/// A chunk as a pair of its delta and its done flag.
pub open spec fn chunk_view(c: StreamChunk) -> (Seq<char>, bool) {
    (c.delta@, c.done)
}

/// The views of chunks, in order.
pub open spec fn chunk_views(v: Seq<StreamChunk>) -> Seq<(Seq<char>, bool)> {
    v.map_values(|c: StreamChunk| chunk_view(c))
}

/// The text an optional content carries (none when absent).
pub open spec fn content_text(content: Option<String>) -> Seq<char> {
    match content {
        Some(c) => c@,
        None => Seq::empty(),
    }
}

/// The chunks owed for an event with the given text and finish flag: a delta
/// chunk when the text is non-empty, then an empty final chunk when finished.
pub open spec fn event_chunk_views(text: Seq<char>, finished: bool) -> Seq<(Seq<char>, bool)> {
    (if text.len() > 0 { seq![(text, false)] } else { Seq::empty() }) + (if finished {
        seq![(Seq::<char>::empty(), true)]
    } else {
        Seq::empty()
    })
}

/// The chunks to forward for one parsed event: the delta when there is
/// non-empty content, then a final chunk when the event carries a finish reason.
pub fn chunks_for_event(content: Option<String>, finished: bool) -> (r: Vec<StreamChunk>)
    ensures
        chunk_views(r@) == event_chunk_views(content_text(content), finished),
{
    let ghost text = content_text(content);
    let mut r: Vec<StreamChunk> = Vec::new();
    if let Some(c) = content {
        if !c.as_str().is_empty() {
            r.push(StreamChunk { delta: c, done: false });
        }
    }
    proof {
        assert(chunk_views(r@) =~= (if text.len() > 0 { seq![(text, false)] } else {
            Seq::empty()
        }));
    }
    if finished {
        let ghost before = r@;
        r.push(StreamChunk { delta: String::new(), done: true });
        proof {
            assert(chunk_views(r@) =~= chunk_views(before).push((Seq::<char>::empty(), true)));
        }
    }
    proof {
        assert(chunk_views(r@) =~= event_chunk_views(text, finished));
    }
    r
}

/// What one decoded event contributes to the stream: the chunks to forward
/// (those of its first choice) and whether the stream ends with it (its
/// first choice carries a finish reason). An event with no choice adds
/// nothing and does not end the stream.
pub fn event_chunks(event: &StreamEvent) -> (r: (Vec<StreamChunk>, bool))
    ensures
        event.choices@.len() == 0 ==> r.0@.len() == 0 && !r.1,
        event.choices@.len() > 0 ==> {
            let choice = event.choices@[0];
            &&& r.1 == (choice.finish_reason is Some)
            &&& chunk_views(r.0@) == event_chunk_views(content_text(choice.content), r.1)
        },
{
    if event.choices.len() == 0 {
        return (Vec::new(), false);
    }
    let choice = &event.choices[0];
    let finished = choice.finish_reason.is_some();
    let content = match &choice.content {
        Some(c) => Some(c.clone()),
        None => None,
    };
    (chunks_for_event(content, finished), finished)
}

/// The final chunk sent when a stream ends.
pub fn done_chunk() -> (r: StreamChunk)
    ensures
        r.delta@.len() == 0,
        r.done,
{
    StreamChunk { delta: String::new(), done: true }
}

/// The text of streamed chunks: the deltas of all chunks up to and including
/// the first one marked done.
pub open spec fn collected_text(chunks: Seq<StreamChunk>) -> Seq<char>
    decreases chunks.len(),
{
    if chunks.len() == 0 {
        Seq::empty()
    } else if chunks[0].done {
        chunks[0].delta@
    } else {
        chunks[0].delta@ + collected_text(chunks.drop_first())
    }
}

/// Whether one of the chunks is marked done.
pub open spec fn any_done(chunks: Seq<StreamChunk>) -> bool {
    exists|i: int| 0 <= i < chunks.len() && chunks[i].done
}

/// Gathers streamed chunks into the complete reply.
pub struct ReplyCollector {
    text: String,
    finished: bool,
}

impl ReplyCollector {
    /// The text gathered so far.
    pub closed spec fn gathered(&self) -> Seq<char> {
        self.text@
    }

    /// Whether a final chunk has been seen.
    pub closed spec fn is_finished(&self) -> bool {
        self.finished
    }

    /// A collector with nothing gathered.
    pub fn new() -> (r: ReplyCollector)
        ensures
            r.gathered() == Seq::<char>::empty(),
            !r.is_finished(),
    {
        ReplyCollector { text: String::new(), finished: false }
    }

    /// Takes one chunk: its delta is appended until a final chunk has been
    /// seen. Returns whether the stream is finished.
    pub fn push(&mut self, chunk: &StreamChunk) -> (stop: bool)
        ensures
            old(self).is_finished() ==> final(self).gathered() == old(self).gathered(),
            !old(self).is_finished() ==> final(self).gathered() == old(self).gathered()
                + chunk.delta@,
            final(self).is_finished() == (old(self).is_finished() || chunk.done),
            stop == final(self).is_finished(),
    {
        if !self.finished {
            if !chunk.delta.as_str().is_empty() {
                self.text.append(chunk.delta.as_str());
            } else {
                assert(self.text@ =~= self.text@ + chunk.delta@);
            }
            if chunk.done {
                self.finished = true;
            }
        }
        self.finished
    }

    /// The gathered text.
    pub fn text(&self) -> (r: String)
        ensures
            r@ == self.gathered(),
    {
        self.text.clone()
    }

    /// The complete reply, or an error when nothing was gathered.
    pub fn finish(&self) -> (r: Result<String, String>)
        ensures
            self.gathered().len() > 0 ==> (r matches Ok(t) && t@ == self.gathered()),
            self.gathered().len() == 0 ==> (r matches Err(e) && e@
                == "Summary generation returned empty response"@),
    {
        if self.text.as_str().is_empty() {
            Err("Summary generation returned empty response".to_owned())
        } else {
            Ok(self.text.clone())
        }
    }
}

/// The reply of a stream that delivered `chunks`: the deltas up to the first
/// final chunk, or an error when they hold no text.
pub fn collect_reply(chunks: &[StreamChunk]) -> (r: Result<String, String>)
    ensures
        collected_text(chunks@).len() > 0 ==> (r matches Ok(t) && t@ == collected_text(chunks@)),
        collected_text(chunks@).len() == 0 ==> (r matches Err(e) && e@
            == "Summary generation returned empty response"@),
{
    let mut c = ReplyCollector::new();
    let mut i: usize = 0;
    assert(chunks@.skip(0) =~= chunks@);
    assert(c.gathered() + collected_text(chunks@) =~= collected_text(chunks@));
    while i < chunks.len()
        invariant
            i <= chunks@.len(),
            !c.is_finished() ==> c.gathered() + collected_text(chunks@.skip(i as int))
                == collected_text(chunks@),
            c.is_finished() ==> c.gathered() == collected_text(chunks@),
        decreases chunks@.len() - i,
    {
        let ghost before = c.gathered();
        let ghost rest = chunks@.skip(i as int);
        assert(rest.drop_first() =~= chunks@.skip(i + 1));
        assert(rest[0] == chunks@[i as int]);
        c.push(&chunks[i]);
        i = i + 1;
    }
    assert(chunks@.skip(chunks@.len() as int) =~= Seq::<StreamChunk>::empty());
    c.finish()
}

} // verus!
