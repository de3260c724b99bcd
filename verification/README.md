# highwater

The verified core of Highwater, a durable streaming and workflow service: keyed Processes
with durable inboxes, managed event ingestion, native collection operators and a
Temporal-style workflow engine.

`src/` is a Verus library. Every public function there carries a contract, and the properties the
service promises across calls stand as proof functions named `law_*`:

- `text`, `document`, `keyspace`: text and JSON helpers, and the byte-ordered layout of
  every storage key.
- `ingest`, `process`, `leases`, `journal`, `outbox`: admission and numbering of events,
  per-key dispatch, batching and retries of process executions, ownership generations that
  fence stale runtimes, the conditional journal, and output delivery.
- `storage`: the shard count and replay order of the write-ahead log when the store opens.
- `relational`, `views`, `graph`, `operators`, `streaming`: collection normalization,
  retractable top-N, view materialization, operator graphs and stream operator settings.
- `transaction`: the write buffer of a storage transaction and its commit batch.
- `workflow`: workflow commands, closing and its parent close policies, and task polls.
- `server`, `cli`, `auth`, `state`, `console`, `errors`, `model`, `protocol`: settings,
  authorization, console health and the shared vocabulary.

`tests/` runs the library on concrete values. `app/` is the server's startup around the
library: command line, environment, token files and the event-time arithmetic on
floating-point seconds.
