# finstack-blotter

A verified core for the finstack blotter service (a small HTTP server
that serves the paper trading book of a market-making desk) and for the
self-contained helper logic of the finstack quant Python surface.

## Layout

- `src/` — the verified library (Verus).
  - `types.rs` — risk limits and kill-switch records of the book.
  - `metrics.rs` — UTC instants and the staleness rule; chrono parses the
    RFC 3339 stamps and computes the differences.
  - `ingest.rs` — authorization of `POST /api/book` (`Bearer` token) and
    the answers to refused requests.
  - `state.rs` — the configuration of the service state, the start-up plan
    (storage path and directory, demo fixture, ingest token) and API errors.
  - `quant/` — composite holiday-calendar codes, Python-style indexing,
    long-form grid columns and grid rows, nested-list matrices and their
    shape checks, per-period lookups and label vocabularies.
  - `text.rs` — string comparison and decimal formatting used by messages.
- `tests/` — tests of the library on concrete values.
- `app/` — the server itself: Axum routes, file I/O, JSON forms of the
  book, and the process entry point. It calls the library for every rule.
