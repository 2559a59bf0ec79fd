# event_sourcing

An event-sourcing core whose logic is verified with Verus: tagged events in a
global order, queries over tags and event types, optimistic concurrency on
append, schema records and their compatibility, projection definitions, and
the small language in which read models are declared.

## Layout

- `src/` — the verified library.
  - `types.rs`: tags (never empty), tag sets, event type sets, global
    sequence identifiers.
  - `query.rs`: tag filters, criteria and queries, with their meaning as
    spec functions.
  - `memory.rs`: the in-memory log: gap-free positions, conditional append
    that checks the whole log before storing anything, and queries; with the
    laws that relate them (read-your-writes, ordered results, at most one of
    two racing conditional appends succeeds).
  - `schema.rs`, `schema_store.rs`, `event_log.rs`: schema records, their
    strict compatibility (an equivalence), startup validation, and how store
    errors and event streams surface at the event log.
  - `derive.rs`: the schema that `#[derive(Event)]` records for a struct,
    from the item's source text.
  - `projection/`: projection definitions and their builders
    (`definition.rs`), JSON path evaluation (`engine.rs`), the projection
    language's parser (`language.rs`), and what a parsed projection generates
    (`codegen.rs`).
  - `json.rs`, `clock.rs`, `text.rs`, `projection/maps.rs`: the declared
    outside types and the trusted wrappers over `serde_json`,
    `serde_json_path`, `indexmap` and `std`.
- `app/` — plain Rust around the library: the async storage and schema-store
  traits, the shared in-memory backend, the no-op schema store, the event log facade and stream helpers, macro
  expansion with `proc_macro2`/`syn`/`quote`, and serde forms of the records.
- `tests/` — tests of the library.
