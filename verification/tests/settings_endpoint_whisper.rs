use heartline::endpoint::{
    backend_capabilities, backend_config_for, bearer_header, chat_completions_url, embeddings_url,
    is_ollama_url, models_url, ollama_pull_url, should_pull_memory_models, PullProgress,
};
use heartline::model::ApiBackendConfig;
use heartline::settings::{parse_bool, parse_u32, resolve_settings, settings_rows, u32_text, SettingsValues};
use heartline::storage::{
    default_companion, has_column, into_chronological, messages_migration, migrated_conversation_id,
    MessagesMigration,
};
use heartline::whisper::{
    clean_transcript, ready_from, is_cli_binary_name, is_library_name, model_download_url, transcription_language,
    whisper_archive_url, WhisperEngine,
};

#[test]
fn numbers_parse_like_std() {
    for t in ["0", "42", "+7", "0004", "4294967295", "4294967296", "", "+", "-1", "1a", " 1", "99999999999999999999"] {
        assert_eq!(parse_u32(t), t.parse::<u32>().ok(), "input {:?}", t);
    }
    for t in ["true", "false", "True", "", "1"] {
        assert_eq!(parse_bool(t), t.parse::<bool>().ok());
    }
    for n in [0u32, 9, 10, 1024, u32::MAX] {
        assert_eq!(u32_text(n), n.to_string());
    }
}

fn sample() -> SettingsValues {
    SettingsValues {
        api_base_url: "http://localhost:11434/v1".to_string(),
        api_key: String::new(),
        default_model: "llama3".to_string(),
        max_tokens: 2048,
        context_window_size: 32768,
        context_messages_limit: 20,
        memory_enabled: false,
        sidecar_model: "qwen".to_string(),
        embedding_model: "nomic".to_string(),
    }
}

#[test]
fn settings_read_back_what_was_written() {
    let v = sample();
    let mut rows = vec![("max_tokens".to_string(), "1".to_string())];
    rows.extend(settings_rows(&v));
    assert_eq!(resolve_settings(&rows), v);
}

#[test]
fn missing_or_unreadable_settings_take_defaults() {
    let rows = vec![
        ("max_tokens".to_string(), "lots".to_string()),
        ("memory_enabled".to_string(), "yes".to_string()),
        ("api_key".to_string(), "sk".to_string()),
    ];
    let s = resolve_settings(&rows);
    assert_eq!(s.api_base_url, "https://api.openai.com/v1");
    assert_eq!(s.api_key, "sk");
    assert_eq!(s.default_model, "gpt-4o-mini");
    assert_eq!(s.max_tokens, 1024);
    assert_eq!(s.context_window_size, 4096);
    assert_eq!(s.context_messages_limit, 50);
    assert!(s.memory_enabled);
    assert_eq!(s.sidecar_model, "gemma2:2b");
    assert_eq!(s.embedding_model, "all-minilm");
}

#[test]
fn api_addresses() {
    assert_eq!(chat_completions_url("https://api.openai.com/v1//"), "https://api.openai.com/v1/chat/completions");
    assert_eq!(embeddings_url("http://x"), "http://x/embeddings");
    assert_eq!(models_url("http://x/"), "http://x/models");
    assert_eq!(ollama_pull_url("http://localhost:11434/v1/"), "http://localhost:11434/api/pull");
    assert_eq!(ollama_pull_url("http://localhost:11434"), "http://localhost:11434/api/pull");
    assert_eq!(bearer_header("k"), "Bearer k");
    assert!(is_ollama_url("http://127.0.0.1:11434/v1"));
    assert!(!is_ollama_url("https://api.openai.com/v1"));
    assert!(should_pull_memory_models(true, "http://localhost:11434/v1"));
    assert!(!should_pull_memory_models(false, "http://localhost:11434/v1"));
    assert!(backend_config_for("", "k", "m").is_none());
    let cfg = backend_config_for("http://x", "", "m").unwrap();
    let caps = backend_capabilities(&cfg);
    assert_eq!(caps.name, "OpenAI-compatible (http://x)");
    assert_eq!(caps.available_models, vec!["m".to_string()]);
    assert_eq!(cfg, ApiBackendConfig { base_url: "http://x".into(), api_key: "".into(), default_model: "m".into() });
}

#[test]
fn pull_progress_reports_errors_and_success() {
    let mut p = PullProgress::new();
    assert_eq!(p.observe("{\"status\":\"pulling\"}\n\n{\"status\":\"success\"}\n"), Ok(()));
    assert!(p.succeeded());
    let mut q = PullProgress::new();
    assert_eq!(
        q.observe("{\"status\":\"pulling\"}\n{\"error\":\"model not found\"}\n"),
        Err("Ollama pull error: model not found".to_string())
    );
    let mut r = PullProgress::new();
    assert_eq!(r.observe("not json\n"), Ok(()));
    assert!(!r.succeeded());
}

#[test]
fn whisper_paths_and_output() {
    let e = WhisperEngine::new("/data");
    assert_eq!(e.data_dir(), "/data/whisper");
    assert_eq!(e.model_path("base.en"), "/data/whisper/ggml-base.en.bin");
    assert_eq!(e.exe_path(), "/data/whisper/whisper-cli.exe");
    assert!(!e.is_ready("base"));
    assert_eq!(transcription_language("base.en"), "en");
    assert_eq!(transcription_language("base"), "auto");
    assert_eq!(
        whisper_archive_url(),
        "https://github.com/ggerganov/whisper.cpp/releases/download/v1.5.0/whisper-bin-x64.zip"
    );
    assert_eq!(model_download_url("base"), "https://huggingface.co/ggerganov/whisper.cpp/resolve/main/ggml-base.bin");
    assert!(is_cli_binary_name("main.exe"));
    assert!(!is_cli_binary_name("main"));
    assert!(is_library_name("ggml.dll"));
    let out = "whisper_init: loading\nmain: processing\n Hello there.\n\nsystem_info: x\n How are you? \n";
    assert_eq!(clean_transcript(out), "Hello there.  How are you?");
}

#[test]
fn storage_helpers() {
    assert_eq!(migrated_conversation_id("nova"), "migrated-nova");
    assert!(has_column(&["id".to_string(), "conversation_id".to_string()], "conversation_id"));
    assert!(!has_column(&[], "conversation_id"));
    let c = default_companion();
    assert_eq!(c.id, "nova");
    assert!(c.personality.starts_with("You are Nova"));
    let make = |id: i64| heartline::model::StoredMessage {
        id,
        companion_id: String::new(),
        conversation_id: String::new(),
        role: String::new(),
        content: String::new(),
        timestamp: String::new(),
        emotion: None,
    };
    let r = into_chronological(vec![make(3), make(2), make(1)]);
    assert_eq!(r.iter().map(|m| m.id).collect::<Vec<_>>(), vec![1, 2, 3]);
}

#[test]
fn whisper_separators_and_readiness() {
    assert_eq!(WhisperEngine::new("").data_dir(), "whisper");
    assert_eq!(WhisperEngine::new("/data/").data_dir(), "/data/whisper");
    assert_eq!(WhisperEngine::new("/data/").model_path("base"), "/data/whisper/ggml-base.bin");
    assert!(ready_from(true, true));
    assert!(!ready_from(true, false));
    assert!(!ready_from(false, true));
    assert!(!ready_from(false, false));
}

#[test]
fn message_table_migration_decision() {
    let current = ["id".to_string(), "conversation_id".to_string(), "role".to_string()];
    assert_eq!(messages_migration(&current, 1), MessagesMigration::UpToDate);
    let old = ["id".to_string(), "companion_id".to_string(), "role".to_string()];
    assert_eq!(messages_migration(&old, 1), MessagesMigration::AssignConversations);
    assert_eq!(messages_migration(&[], 0), MessagesMigration::CreateTable);
}
