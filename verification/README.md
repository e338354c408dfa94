# mempalace

A memory palace for coding agents: verbatim text is filed into drawers
(wing / room), searched with SQLite FTS5 and vectors, linked by the entities
it mentions (hallways), and kept alongside a temporal knowledge graph and
per-agent diaries. It is served over MCP (JSON-RPC on stdio) and a small
command line.

## Layout

- `src/` — the library, verified with Verus: the rules on plain values that
  decide what is stored, found or answered, each with its contract (what a
  database query selects, counts or de-duplicates stays with the SQL in
  `app/`):
  - `text`, `numparse`, `fmt`, `timefmt` — characters, trimming, words,
    number parsing and printing, calendar dates;
  - `validate` — dates, names, content and search queries at the boundary;
  - `store`, `digest` — FTS5 query rewriting, find/replace, diary entries,
    deterministic drawer and fact ids (MD5 from the `md5` crate);
  - `hallways` — entity extraction and entity pairs (the graph queries over
    hallways — traversal, tunnels, counts — are SQL in `app/`);
  - `indexer` — which files are indexed, and their rooms, wings and text;
  - `import_sessions`, `sources`, `adapters` — coding-agent sessions
    (OpenCode, Codex, Grok, Zcode) turned into drawers, and incremental sync;
  - `kg` — knowledge-graph rules; `wal` — write-log redaction;
  - `mcp`, `tools` — request routing, tool arguments and response text;
  - `cli`, `paths` — command-line arguments and file locations.
- `app/` — the program: SQLite (rusqlite, sqlite-vec), the ONNX embedder
  (tract, tokenizers), file walking, the stdio server loop and the CLI.
- `tests/` — tests of the library.
