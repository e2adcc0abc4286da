# litefan

`litefan` is a small, durable, at-least-once fan-out message log backed by
SQLite, written in Verus. A message body is stored once, while every matching
named consumer gets an independent delivery. Workers using the same consumer
name compete for that consumer's work.

- Consumer names are durable identities. Reopening a name resumes its inbox.
- New consumers start after the current retained high-water mark, so create a
  consumer before publishing messages it should receive.
- Polling leases messages for a visibility timeout. Unacknowledged deliveries
  can be retried, and stale lease receipts cannot affect a newer attempt.
- Optional idempotency keys suppress duplicate publishes for a configured
  window.
- Draining permanently stops new fan-out while allowing existing work to finish.
- Failed deliveries can be archived per consumer, inspected, and redriven.

## Layout

`src/` is the verified log. `LiteFan` holds the rows of the log, and each
operation is a transaction on them with an exact contract over
`model::StoreView`.

- `api.rs`, `error.rs`, `time.rs`, `tables.rs`: values, failures, time, and rows.
- `model.rs`: the log as mathematics, and what every operation makes of it.
  `StoreView::wf` is what the keys, unique columns and checks of the tables
  demand, and all that the operations ask for. `StoreView::consistent` is what a
  log has that nobody but its operations has changed.
- `opening.rs`, `store.rs`, `consumer.rs`, `archive.rs`, `signals.rs`: the
  operations. `storage.rs` and `names.rs` hold what they share.
- `sync.rs`: which rows have to be written to a database after an operation.
- `invariants.rs`, `claims.rs`, `counting.rs`, `seqs.rs`: why the operations do
  what they say.
- `laws/`: what holds across operations, such as that a claim loses no message,
  that claims of competing workers do not overlap, or that an unexpired key
  suppresses a duplicate. `laws/histories.rs` and `laws/workers.rs` speak of any
  sequence of operations: that the idempotency window is fixed, that workers of
  one consumer do not share a leased message, and that a consumer receives what
  is published for it once and in order. `laws/reading.rs` says which rows the
  work on receipts and archives depends on, so that no others need be read.

`app/` is the asynchronous surface on SQLite and tokio: it reads the rows inside
a transaction, runs one operation, writes the changed rows back, and lets polls
wait. `tests/` runs the log on explicit clock readings.
