# cmem_eval_bench

Verified core of a continuity-memory evaluation harness, written in Verus.

The library (`src/`) converts LongMemEval-S and LoCoMo benchmark rows into
continuity scenarios under a curated selection manifest, lists the texts those
scenarios embed and the similarity orderings they assert, and holds the
decisions a scenario run makes: which objects are admitted, which links and
corrections are allowed, how writes and restart probes are judged, how an
enrichment write is registered, and how the embedding service's answers are
checked and ordered. Every public function states its result in its contract,
and the properties that span functions (determinism, timelines, the update
mapping, admission independent of order, retry bounds) are proved as lemmas.

Layout:

- `src/selection.rs`: the selection manifest and its validation.
- `src/conversion.rs`, `src/convert.rs`, `src/locomo.rs`, `src/assemble.rs`,
  `src/batch.rs`: turning benchmark rows into scenarios.
- `src/embedding_manifest.rs`: embedding texts and similarity orderings.
- `src/embedding.rs`, `src/persist.rs`: retry decisions and response ordering.
- `src/driver.rs`, `src/ledger.rs`, `src/probe.rs`, `src/resolve.rs`,
  `src/registry.rs`, `src/telemetry.rs`: the decisions of a scenario run.
- `src/naming.rs`, `src/timestamp.rs`, `src/text.rs`, `src/order.rs`,
  `src/render.rs`, `src/textmap.rs`, `src/messages.rs`, `src/descriptions.rs`:
  shared building blocks.
- `tests/`: tests run against the compiled library with the real outside crates.
- `app/`: file I/O, the manifest reader and the HTTP embedding client, around
  the library.

Calls into chrono (timestamp parsing), uuid (version-5 ids) and std's `Debug`
formatting of strings go through small trusted wrappers whose contracts name
their results.
