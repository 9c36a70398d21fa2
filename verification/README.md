# codepulse (verified core)

Runtime intelligence for AI coding agents: a local store of what code actually
ran (windowed call counts, durations, observed caller -> callee edges) joined with
what an indexer found statically, answered through compact queries.

## Layout

- `src/` — the library, verified with Verus.
  - `protocol.rs` — wire and answer types (`SymbolId`, batches, probe commands,
    hot paths, caller counts, summaries).
  - `identity.rs` — durable symbol ids: hex SHA-256 of `language NUL path NUL qualname`.
  - `model.rs` — the store's mathematical model: one sequence of records per
    table, key constraints, and the state change of every write.
  - `answers.rs` — what every query answers, stated over the model.
  - `ranking.rs` — `ORDER BY value DESC LIMIT k` with its top-k contract.
  - `store.rs`, `store/queries.rs` — the store itself (writes, then queries).
  - `laws.rs` — properties relating several operations (accumulation of
    windows, idempotent writes, build clearing, probe window life cycle,
    callers/callees symmetry, agreement of ranked answers, the id join of the
    static/runtime comparison).
  - `clock.rs`, `controller.rs`, `indexer.rs`, `ingest.rs` — wall clock and the
    component handles (the last three are design-phase stubs).
- `tests/` — tests of the library.
- `app/` — the daemon: command line, HTTP API, JSON forms of the types, and
  the durable store file (a log of accepted writes, replayed on open).
