# local_agent

Local AI agent coordination: a capability-graph router, semantic intent extraction with an
optional cache, a supervisor that runs workflows of worker agents with an audit trail, a loan
approval workflow built on it, and generators of domain documentation from Rust sources.

The library (`src/`) is written in Verus; each function carries a contract that Verus proves.

- `capability_router` — actions, resources, intents and the routing table.
- `intent_extractor` — prompts and schema, reading intents from model replies, the extractor.
- `llm_interface` — the model client trait, the embedding configuration, request and reply
  shapes of the chat and embedding APIs.
- `json` — a JSON tree of the library's own, read and written through serde_json.
- `supervisor`, `step_outputs`, `workflow_laws` — the workflow engine, its state model and the
  properties proved of every run.
- `loan_orchestrator` — the loan workflow and its decision text.
- `cache_policy` — which entries a bounded cache keeps.
- `source_text`, `text` — text operations on character sequences.
- `domain_language`, `domain_model` — parsing Rust sources into entities and types, and the
  Markdown, Mermaid and text documents generated from them.

`app/` is the command-line program: HTTP clients, float embeddings and similarity, the
in-memory and SQLite caches, file I/O and argument handling.
