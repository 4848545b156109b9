# arkivist

The core of a Slack archive, verified with Verus: event ingestion into an
event store, thread roll-ups and search documents, backfill planning, file
archive locations, QStash delivery signatures and endpoints, and the rules of
the thread summary generator.

- `src/` is the verified library. Every public function carries a contract
  over mathematical models (`Seq`, `Set`, `Map`, views of strings), and every
  function is verified free of panics and overflow; the laws that relate
  several functions are public proof functions (`lemma_*`). The calls into
  outside crates (serde_json, base64, hmac, sha2, reqwest's URL parser) and a
  few std functions sit behind small wrappers whose contracts are trusted.
- `tests/` exercises the library on concrete values.
- `app/` is the worker service around the library: the HTTP router, the
  Postgres and local event-log stores, the Slack, OpenRouter and R2 calls, and
  the few comparisons that read Slack timestamps as floating-point numbers.
