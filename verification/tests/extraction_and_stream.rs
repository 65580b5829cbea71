use heartline::extraction::{
    clean_extraction_reply, extraction_prompt, memories_to_store, ExtractedMemory,
    ExtractionResult,
};
use heartline::model::{StoredMessage, StreamChunk};
use heartline::stream::{
    chunks_for_event, collect_reply, done_chunk, event_chunks, ReplyCollector, SseDecoder, SseLine, StreamChoice,
    StreamEvent,
};

fn msg(role: &str, content: &str) -> StoredMessage {
    StoredMessage {
        id: 1,
        companion_id: "nova".to_string(),
        conversation_id: "c".to_string(),
        role: role.to_string(),
        content: content.to_string(),
        timestamp: String::new(),
        emotion: None,
    }
}

#[test]
fn reply_cleaning_strips_reasoning_fences_and_trailing_objects() {
    assert_eq!(
        clean_extraction_reply("  <think>hmm {x}</think>\n```json\n{\"memories\": []}\n```  "),
        "{\"memories\": []}"
    );
    assert_eq!(
        clean_extraction_reply("{\"a\": {\"b\": 1}}{\"nothing_notable\": false}"),
        "{\"a\": {\"b\": 1}}"
    );
    assert_eq!(clean_extraction_reply("```\n{}\n```"), "{}");
    assert_eq!(clean_extraction_reply("no json here"), "no json here");
    assert_eq!(clean_extraction_reply("} {x}"), "} {x}");
}

#[test]
fn extraction_needs_an_exchange() {
    assert!(extraction_prompt(None, &[], &[msg("user", "hi")]).is_none());
    let p = extraction_prompt(
        Some("They met."),
        &[],
        &[msg("user", "old"), msg("assistant", "older reply"), msg("user", "I'm Alex"), msg("assistant", "Hi Alex")],
    )
    .unwrap();
    assert!(p.starts_with("You are a memory extraction agent."));
    assert!(p.contains("\nSession summary so far:\nThey met.\n"));
    assert!(p.contains("do NOT extract from this):\nUser: old\nCompanion: older reply\n\n[NEWEST EXCHANGE"));
    assert!(p.contains("extract only from here]\nUser: I'm Alex\nCompanion: Hi Alex\n\nOutput ONLY raw JSON."));
    assert!(!p.contains("Existing memories"));
}

#[test]
fn extracted_memories_take_defaults_and_json_tags() {
    let result = ExtractionResult {
        memories: vec![
            ExtractedMemory {
                content: "User's name is Alex".to_string(),
                memory_type: None,
                source: Some("stated".to_string()),
                confidence: None,
                importance: None,
                tags: Some(vec!["name".to_string(), "id \"x\"".to_string()]),
            },
            ExtractedMemory {
                content: "Likes tea".to_string(),
                memory_type: Some("preference".to_string()),
                source: None,
                confidence: Some("high".to_string()),
                importance: Some(8),
                tags: None,
            },
        ],
        nothing_notable: false,
    };
    let drafts = memories_to_store(&result);
    assert_eq!(drafts.len(), 2);
    assert_eq!(drafts[0].memory_type, "personal_fact");
    assert_eq!(drafts[0].source, "stated");
    assert_eq!(drafts[0].confidence, "medium");
    assert_eq!(drafts[0].importance, 5);
    assert_eq!(drafts[0].tags, "[\"name\",\"id \\\"x\\\"\"]");
    assert_eq!(drafts[1].source, "observed");
    assert_eq!(drafts[1].importance, 8);
    assert_eq!(drafts[1].tags, "[]");
    let nothing = ExtractionResult { memories: result.memories.clone(), nothing_notable: true };
    assert!(memories_to_store(&nothing).is_empty());
}

#[test]
fn sse_lines_are_framed_and_classified() {
    let mut d = SseDecoder::new();
    d.push_text(": keep-alive\n\ndata: {\"x\":1}\r\nevent: y\ndata:  [DONE] \npartial");
    assert_eq!(d.next_line(), Some(SseLine::Ignored));
    assert_eq!(d.next_line(), Some(SseLine::Ignored));
    assert_eq!(d.next_line(), Some(SseLine::Data("{\"x\":1}".to_string())));
    assert_eq!(d.next_line(), Some(SseLine::Ignored));
    assert_eq!(d.next_line(), Some(SseLine::Done));
    assert_eq!(d.next_line(), None);
    d.push_text(" end\n");
    assert_eq!(d.next_line(), Some(SseLine::Ignored));
    assert_eq!(d.next_line(), None);
}

#[test]
fn chunks_for_event_gives_delta_then_final() {
    let c = chunks_for_event(Some("Hi".to_string()), true);
    assert_eq!(c.len(), 2);
    assert_eq!(c[0], StreamChunk { delta: "Hi".to_string(), done: false });
    assert_eq!(c[1], StreamChunk { delta: String::new(), done: true });
    assert!(chunks_for_event(Some(String::new()), false).is_empty());
}

#[test]
fn reply_is_collected_up_to_the_final_chunk() {
    let chunks = vec![
        StreamChunk { delta: "Hel".to_string(), done: false },
        StreamChunk { delta: "lo".to_string(), done: false },
        StreamChunk { delta: String::new(), done: true },
        StreamChunk { delta: "ignored".to_string(), done: false },
    ];
    assert_eq!(collect_reply(&chunks), Ok("Hello".to_string()));
    assert_eq!(
        collect_reply(&[StreamChunk { delta: String::new(), done: true }]),
        Err("Summary generation returned empty response".to_string())
    );
    let mut c = ReplyCollector::new();
    assert!(!c.push(&chunks[0]));
    assert!(c.push(&chunks[2]));
    assert_eq!(c.text(), "Hel");
}

#[test]
fn framing_does_not_depend_on_chunk_boundaries() {
    let text = "data: a\n\ndata: b\r\n: c\ndata: [DONE]\ntail";
    let mut whole = SseDecoder::new();
    whole.push_text(text);
    let all = whole.drain_lines();
    for cut in 0..text.len() {
        if !text.is_char_boundary(cut) {
            continue;
        }
        let mut d = SseDecoder::new();
        d.push_text(&text[..cut]);
        let mut got = d.drain_lines();
        d.push_text(&text[cut..]);
        got.extend(d.drain_lines());
        assert_eq!(got, all, "cut at {}", cut);
        assert_eq!(d.next_line(), None);
    }
    assert_eq!(
        all,
        vec![
            SseLine::Data("a".to_string()),
            SseLine::Ignored,
            SseLine::Data("b".to_string()),
            SseLine::Ignored,
            SseLine::Done,
        ]
    );
}

fn choice(content: Option<&str>, finish: Option<&str>) -> StreamChoice {
    StreamChoice {
        content: content.map(|c| c.to_string()),
        finish_reason: finish.map(|f| f.to_string()),
    }
}

#[test]
fn event_without_choices_adds_nothing() {
    let (chunks, finished) = event_chunks(&StreamEvent { choices: vec![] });
    assert!(chunks.is_empty());
    assert!(!finished);
}

#[test]
fn event_takes_only_its_first_choice() {
    let e = StreamEvent { choices: vec![choice(Some("a"), None), choice(Some("b"), Some("stop"))] };
    let (chunks, finished) = event_chunks(&e);
    assert_eq!(chunks, vec![StreamChunk { delta: "a".to_string(), done: false }]);
    assert!(!finished);
}

#[test]
fn event_with_finish_reason_ends_the_stream() {
    let e = StreamEvent { choices: vec![choice(Some("end"), Some("stop"))] };
    let (chunks, finished) = event_chunks(&e);
    assert!(finished);
    assert_eq!(
        chunks,
        vec![
            StreamChunk { delta: "end".to_string(), done: false },
            StreamChunk { delta: String::new(), done: true },
        ]
    );
    let (chunks, finished) = event_chunks(&StreamEvent { choices: vec![choice(None, Some("length"))] });
    assert!(finished);
    assert_eq!(chunks, vec![StreamChunk { delta: String::new(), done: true }]);
}

#[test]
fn event_with_empty_content_sends_no_delta() {
    let (chunks, finished) = event_chunks(&StreamEvent { choices: vec![choice(Some(""), None)] });
    assert!(chunks.is_empty());
    assert!(!finished);
}

fn decode_event(data: &str) -> StreamEvent {
    let v: serde_json::Value = serde_json::from_str(data).unwrap();
    let choices = v
        .get("choices")
        .and_then(|c| c.as_array())
        .map(|cs| {
            cs.iter()
                .map(|c| StreamChoice {
                    content: c
                        .get("delta")
                        .and_then(|d| d.get("content"))
                        .and_then(|t| t.as_str())
                        .map(|t| t.to_string()),
                    finish_reason: c
                        .get("finish_reason")
                        .and_then(|f| f.as_str())
                        .map(|f| f.to_string()),
                })
                .collect()
        })
        .unwrap_or_default();
    StreamEvent { choices }
}

#[test]
fn stream_line_split_across_network_chunks() {
    let arrivals = [
        "data: {\"choices\":[{\"delta\":{\"content\":\"Hel",
        "lo\"},\"finish_reason\":null}]}\n",
        "data: [DONE]\n",
    ];
    let mut decoder = SseDecoder::new();
    let mut sent: Vec<StreamChunk> = Vec::new();
    let mut ended = false;
    for part in arrivals {
        decoder.push_text(part);
        for line in decoder.drain_lines() {
            if ended {
                break;
            }
            match line {
                SseLine::Ignored => {}
                SseLine::Done => {
                    sent.push(done_chunk());
                    ended = true;
                }
                SseLine::Data(data) => {
                    let (chunks, finished) = event_chunks(&decode_event(&data));
                    sent.extend(chunks);
                    ended = finished;
                }
            }
        }
    }
    assert!(ended);
    assert_eq!(
        sent,
        vec![
            StreamChunk { delta: "Hello".to_string(), done: false },
            StreamChunk { delta: String::new(), done: true },
        ]
    );
}
