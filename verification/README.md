# heartline

The back end of Heartline, a desktop AI companion, as a Verus-verified
library (`src/`) with an ordinary Rust shell around it (`app/`).

`src/` holds the logic with its contracts and proofs:

- `budget` – token estimates, the context budget, and the "longest suffix
  that fits" search shared by context trimming and summary planning.
- `context` – assembly and token-aware trimming of the messages of a chat turn.
- `summary` – when a conversation needs a rolling summary, which messages it
  covers, and the summarization prompt.
- `extraction` – the memory-extraction prompt, cleaning of the sidecar
  model's reply, and the memory records to store.
- `stream` – server-sent-event framing and collection of streamed replies.
- `endpoint` – API and Ollama addresses, backend capabilities, and Ollama
  pull progress.
- `settings` – the stored text form of the settings, defaults, and the
  write-then-read round trip.
- `storage` – message ordering, schema-migration decisions, seed data.
- `whisper` – paths, download addresses and output cleaning of the local
  speech-to-text program.
- `text`, `json`, `model` – character-level string operations, the JSON
  calls made through `serde_json`, and the shared records.

`app/` performs the input and output: the SQLite store (`rusqlite`), HTTP
calls (`reqwest`), the event bus and tasks (`tokio`), the speech-to-text
process, the embedding similarity search (floating point), and the Tauri
command layer.
