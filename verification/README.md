# solidb_storage

The storage layer of a document database, written in Verus. Verus proves the
library's functions in `src/` against their contracts (a few private helpers
carry none, and are proved only as far as their callers need). The calls into
`std` and the outside crates (serde_json, chrono, uuid, lz4_flex) go through
small trusted wrappers, whose contracts state what those functions'
documentation and source promise and are not themselves proved.

The layer keeps documents, indexes and metadata as keys of an ordered
key-value store. The library holds what decides the contents of those keys
and what the entries read from them mean; reading and writing the store is
left to the caller, who hands scanned entries in and takes the keys to write
or delete back.

## Layout

- `src/` — the verified library.
  - Foundations: `bytes` (byte strings, their order, UTF-8), `digits`,
    `json` (JSON values and object operations), `json_equality` (equality
    of JSON values), `timestamps` (RFC 3339).
  - Keys: `codec` (binary-comparable value keys), `keys` (the layout of
    every key kind), `scans` (what a prefix scan yields), `truncate`.
  - Documents: `document`, `crud` (checks before a write), `content_merge`
    (an update's merge, as content), `batch_update` (planning a batch of
    updates or upserts, and its unique values), `document_cache`,
    `txn` (commit-time conflict checks), `versioning`, `locks`.
  - Indexes: `index_entries`, `index_lookup`, `fulltext`, `ttl`, `geo`,
    `hybrid`.
  - Columnar collections: `columnar`, `column_keys`, `columnar_layout`,
    `columnar_rows`, `column_groups`.
  - Catalog and settings: `registry`, `catalog`, `cf_ops`, `engine`,
    `auto_index`, `persistence`.
  - Each `*_laws` module states and proves what its module promises across
    several calls.
- `tests/` — tests run against the compiled library.
- `app/` — ordinary Rust around the library: serde forms of the library's
  records, conversions from `serde_json` values, floating-point distances and
  scores, and the process-wide state.
