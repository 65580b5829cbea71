use heartline::context::{build_chat_context, memory_block, summary_context};
use heartline::model::{ChatMessage, Memory, StoredMessage};
use heartline::summary::{plan_prompt, plan_summary, render_transcript, summary_prompt, summary_status};

fn msg(id: i64, role: &str, content: &str) -> StoredMessage {
    StoredMessage {
        id,
        companion_id: "nova".to_string(),
        conversation_id: "c1".to_string(),
        role: role.to_string(),
        content: content.to_string(),
        timestamp: "2024-01-01 00:00:00".to_string(),
        emotion: None,
    }
}

fn memory(content: &str, confidence: &str, kind: &str) -> Memory {
    Memory {
        id: 1,
        companion_id: "nova".to_string(),
        memory_type: kind.to_string(),
        content: content.to_string(),
        source: "stated".to_string(),
        confidence: confidence.to_string(),
        importance: 5,
        tags: "[]".to_string(),
        source_message_id: None,
        supersedes: None,
        created_at: "now".to_string(),
        last_confirmed: None,
        retrieval_count: 0,
        last_accessed: None,
    }
}

fn contents(v: &[ChatMessage]) -> Vec<String> {
    v.iter().map(|m| m.content.clone()).collect()
}

#[test]
fn everything_is_kept_when_it_fits() {
    let history = vec![msg(1, "user", "hello"), msg(2, "assistant", "hi there")];
    let r = build_chat_context("You are Nova.", None, &[], &history, 4096, 1024);
    assert_eq!(r.len(), 3);
    assert_eq!(r[0].role, "system");
    assert_eq!(r[0].content, "You are Nova.");
    assert_eq!(r[1].role, "user");
    assert_eq!(r[2].content, "hi there");
}

#[test]
fn oldest_history_is_dropped_first() {
    // Each history message is 40 bytes = 10 tokens; the budget leaves 25.
    let a = "a".repeat(40);
    let b = "b".repeat(40);
    let c = "c".repeat(40);
    let history = vec![msg(1, "user", &a), msg(2, "assistant", &b), msg(3, "user", &c)];
    // window 1125, response 1100: 25 tokens left (empty system prompt).
    let r = build_chat_context("", None, &[], &history, 1125, 1100);
    assert_eq!(contents(&r), vec!["".to_string(), b.clone(), c.clone()]);
    // With room for nothing, only the system prompt stays.
    let r = build_chat_context("", None, &[], &history, 1100, 1100);
    assert_eq!(contents(&r), vec!["".to_string()]);
}

#[test]
fn summary_and_memories_are_kept_before_history() {
    let history = vec![msg(1, "user", "I like tea")];
    let mems = vec![memory("User likes tea", "high", "preference")];
    let r = build_chat_context("P", Some("Earlier they talked."), &mems, &history, 8192, 1024);
    assert_eq!(r.len(), 4);
    assert!(r[1].content.starts_with("[Context: summary of earlier messages in this conversation."));
    assert!(r[1].content.ends_with("]\nEarlier they talked."));
    assert_eq!(
        r[2].content,
        "[Memories about the user — reference these naturally when relevant, don't force them into conversation]\n- User likes tea (high confidence, preference)\n"
    );
    assert_eq!(r[3].content, "I like tea");
}

#[test]
fn preamble_survives_a_tiny_budget() {
    let history = vec![msg(1, "user", &"x".repeat(400))];
    let mems = vec![memory("m", "low", "moment")];
    let r = build_chat_context("P", Some("S"), &mems, &history, 10, 1024);
    assert_eq!(r.len(), 3);
    assert_eq!(r[1].content, summary_context("S"));
    assert_eq!(r[2].content, memory_block(&mems));
}

#[test]
fn summary_status_compares_with_sixty_percent_of_budget() {
    // available = 4096 - 1024 - 600 = 2472; threshold = 2472 * 60 / 100 = 1483.
    let s = summary_status(4096, 1024, 8000);
    assert_eq!(s.trigger_threshold, 1483);
    assert_eq!(s.unsummarized_tokens, 2000);
    assert!(s.needs_summary);
    let s = summary_status(4096, 1024, 100);
    assert_eq!(s.unsummarized_tokens, 25);
    assert!(!s.needs_summary);
}

#[test]
fn transcript_labels_roles() {
    let t = render_transcript(&[msg(1, "user", "hi"), msg(2, "assistant", "hello")]);
    assert_eq!(t, "User: hi\nCompanion: hello\n");
}

#[test]
fn summary_plan_summarizes_what_does_not_fit() {
    // keep budget = 2472 * 30 / 100 = 741 tokens.
    let big = "z".repeat(2000); // 500 tokens
    let msgs = vec![msg(10, "user", &big), msg(11, "assistant", &big), msg(12, "user", "short")];
    let plan = plan_summary(&msgs, 4096, 1024).unwrap();
    assert_eq!(plan.split, 1);
    assert_eq!(plan.start_id, 10);
    assert_eq!(plan.end_id, 10);
    assert_eq!(plan.count, 1);
    let prompt = plan_prompt(&plan, &msgs, Some("Before."));
    assert_eq!(prompt, summary_prompt(Some("Before."), &msgs[..1]));
    assert!(prompt.contains("Previous summary to build on:\nBefore.\n\n"));
    assert!(prompt.contains(&format!("User: {}\n", big)));
    assert!(!prompt.contains("short"));
}

#[test]
fn no_summary_when_everything_fits_or_nothing_is_there() {
    assert!(plan_summary(&[], 4096, 1024).is_none());
    let msgs = vec![msg(1, "user", "a"), msg(2, "assistant", "b")];
    assert!(plan_summary(&msgs, 4096, 1024).is_none());
}
