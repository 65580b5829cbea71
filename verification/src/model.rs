//! The records the application stores, exchanges with inference backends
//! and publishes on its event bus.
use vstd::prelude::*;

verus! {

/// A companion persona.
#[derive(Debug, Clone, PartialEq, Eq)]
pub struct CompanionProfile {
    pub id: String,
    pub name: String,
    pub personality: String,
    pub status: String,
    pub avatar_url: Option<String>,
    pub created_at: String,
}

/// One chat thread with a companion.
#[derive(Debug, Clone, PartialEq, Eq)]
pub struct Conversation {
    pub id: String,
    pub companion_id: String,
    pub title: String,
    pub created_at: String,
    pub updated_at: String,
}

/// A message as it is kept in the message store.
#[derive(Debug, Clone, PartialEq, Eq)]
pub struct StoredMessage {
    pub id: i64,
    pub companion_id: String,
    pub conversation_id: String,
    pub role: String,
    pub content: String,
    pub timestamp: String,
    pub emotion: Option<String>,
}

/// A summary that covers the messages `messages_start_id ..= messages_end_id`
/// of a conversation.
#[derive(Debug, Clone, PartialEq, Eq)]
pub struct RollingSummary {
    pub id: i64,
    pub conversation_id: String,
    pub summary: String,
    pub messages_start_id: i64,
    pub messages_end_id: i64,
    pub message_count: u32,
    pub created_at: String,
}

/// A long-term memory about the user.
///
/// `memory_type` is one of personal_fact, moment, preference,
/// relationship_shift, identity_note; `source` one of stated, observed,
/// pattern; `confidence` one of high, medium, low; `tags` a JSON array.
#[derive(Debug, Clone, PartialEq, Eq)]
pub struct Memory {
    pub id: i64,
    pub companion_id: String,
    pub memory_type: String,
    pub content: String,
    pub source: String,
    pub confidence: String,
    pub importance: u32,
    pub tags: String,
    pub source_message_id: Option<i64>,
    pub supersedes: Option<i64>,
    pub created_at: String,
    pub last_confirmed: Option<String>,
    pub retrieval_count: u32,
    pub last_accessed: Option<String>,
}

/// A single message of a chat request: `role` is "system", "user" or "assistant".
#[derive(Debug, Clone, PartialEq, Eq)]
pub struct ChatMessage {
    pub role: String,
    pub content: String,
}

/// A piece of a streamed response; `done` marks the last one.
#[derive(Debug, Clone, PartialEq, Eq)]
pub struct StreamChunk {
    pub delta: String,
    pub done: bool,
}

/// What an inference backend supports.
#[derive(Debug, Clone, PartialEq, Eq)]
pub struct BackendCapabilities {
    pub name: String,
    pub supports_streaming: bool,
    pub supports_system_prompt: bool,
    pub available_models: Vec<String>,
}

/// How to reach an OpenAI-compatible API.
#[derive(Debug, Clone, PartialEq, Eq)]
pub struct ApiBackendConfig {
    pub base_url: String,
    pub api_key: String,
    pub default_model: String,
}

/// A request for the embedding of `input`.
#[derive(Debug, Clone, PartialEq, Eq)]
pub struct EmbedRequest {
    pub input: String,
    pub model: Option<String>,
}

/// Events published on the application's event bus.
#[derive(Debug, Clone, PartialEq, Eq)]
pub enum AppEvent {
    MessageReceived { companion_id: String, content: String },
    MessageGenerated { companion_id: String, content: String },
    StreamToken { companion_id: String, token: String, done: bool },
    CompanionChanged { companion_id: String },
    SettingsChanged { key: String, value: String },
    AppStarted,
    AppFocused,
    AppBlurred,
}

/// The view of a chat message: its role and its content.
pub open spec fn chat_view(m: ChatMessage) -> (Seq<char>, Seq<char>) {
    (m.role@, m.content@)
}

/// The views of a list of chat messages.
pub open spec fn chat_views(v: Seq<ChatMessage>) -> Seq<(Seq<char>, Seq<char>)> {
    v.map_values(|m: ChatMessage| chat_view(m))
}

/// A chat message with the given role and content.
pub fn chat_message(role: &str, content: String) -> (m: ChatMessage)
    ensures
        m.role@ == role@,
        m.content@ == content@,
{
    ChatMessage { role: role.to_owned(), content }
}

} // verus!
