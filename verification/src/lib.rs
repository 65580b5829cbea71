//! Core logic of the Heartline companion application: context assembly and
//! token budgeting, rolling-summary planning, memory-extraction response
//! cleaning, prompt construction, streaming-response framing, settings
//! persistence and helpers for the local speech-to-text engine.
pub mod budget;
pub mod context;
pub mod endpoint;
pub mod extraction;
pub mod json;
pub mod model;
pub mod settings;
pub mod storage;
pub mod stream;
pub mod summary;
pub mod text;
pub mod whisper;
