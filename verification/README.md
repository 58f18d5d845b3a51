# axiomsync

A verified core for a local context store: document parsing (Markdown,
JSON, JSONL, YAML, TOML, XML), retrieval query planning and expansion,
observation-memory (OM) state planning, sink ingest and cursor planning,
editor checks, state-store migration decisions and CLI argument rules.

Layout:

- `src/` — the library, written in Verus. Each public function carries a
  contract over spec functions and views; the public `lemma_*` proof
  functions state the laws that relate several operations. Calls into
  `serde_json`, `serde_norway`, `toml` and `blake3` sit behind small
  trusted wrappers whose contracts are documented where they stand.
- `tests/` — ordinary Rust tests that run the library on concrete values.
- `app/` — the command-line program around the library: argument parsing,
  file and database I/O, the HTTP router and the float-based embedders.
