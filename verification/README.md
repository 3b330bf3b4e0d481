# frugal

Token and context economy for an AI coding assistant: a local ledger of tool
calls, duplicate-call detection, budgets, a health score, a provider registry
with conflict resolution, an MCP server and a terminal dashboard.

## Layout

- `src/` — the library, verified with Verus.
  - `json.rs` — the JSON value model and its canonical (sorted-key, compact)
    text; proves that the text ignores the order of object entries.
  - `hooks.rs` — call fingerprints (SHA-256 via `sha2`), token estimates and
    the plan one hook event makes for the ledger.
  - `providers.rs` — provider registry merging (later layers win by id),
    priority order and resolution of exclusive capabilities, detection probes.
  - `mcp.rs` — JSON-RPC dispatch, the tool catalogue and tool-call results.
  - `economics.rs` — per-tool statistics, duplicate waste and the health score.
  - `policy.rs` — profiles and budget scopes.
  - `cli.rs`, `dashboard.rs`, `telemetry.rs` — argument reading, printed
    lines, dashboard key handling, checkpoint text and file names.
  - `text.rs`, `order.rs` — string and ordering building blocks.
- `tests/` — tests of the library.
- `app/` — the program around it: command line, SQLite storage, configuration
  files, stdin/stdout, the terminal UI and everything that works on floats.
