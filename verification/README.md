# tc_chain

A write-ahead log of the requests to a transactional collection, verified with Verus.

`SyncChain` records PUT and DELETE requests, and the restoration of snapshots, before they are
executed. A commit publishes the requests of a transaction durably before the transaction becomes
visible. A finalization makes committed transactions part of the canonical collection and drops
them from the log. Recovery validates the log and replays what it retains, in the order of the
original transaction identities.

The library decides; it performs no I/O. A lifecycle operation returns an `Effect`, its owner
performs it and hands the `Reply` to `SyncChain::advance`. A request returns a `Task` and goes on
with `SyncChain::proceed`.

- `src/chain.rs`, `src/chain/mutation.rs`: the chain, its lifecycle operations and its requests.
- `src/script.rs`, `src/effect.rs`: the sequences of effects which operations are made of.
- `src/queue.rs`: pending work, admission and decision receipts.
- `src/capture.rs`, `src/store.rs`: captured collections.
- `src/file.rs`, `src/block.rs`, `src/record.rs`, `src/frame.rs`: the committed file.
- `src/handler.rs`: the handlers which stand before the subject's.
- `src/laws/`: what holds of a chain as a whole: decisions are final, every interrupted operation
  leaves a file which is loadable or refused, replay is exact, and operations whose effects are
  performed succeed.
- `app/`: the filesystem, the JSON encoding and the calls of the collection.

The digest of files comes from `sha2`, and the syntax of routes from `pathlink`.
