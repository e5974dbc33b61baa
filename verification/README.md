# ferrosa_cluster

The cluster layer of a distributed database, verified with Verus: how nodes find
each other, form pairs and clusters, agree on membership and schema, and commit
transactions that span several keys.

- `src/accord/` — the replica side of the Accord protocol: conflict tracking, the
  per-transaction state machine, per-shard quorums, commits of write sets, and
  schema changes in two phases. `protocol.rs` holds the protocol as functions on
  abstract states, with its laws.
- `src/controller/` — the mode of a node (standalone, pair, forming, cluster) and
  what each event changes: joining, leaving, invites, formation, streaming and
  recovery. Every decision is a function from state and event to next state and
  actions. `lifecycle.rs` holds the laws that span several events.
- `src/controller/bootstrap/` — what each phase of forming a cluster requires and
  guarantees.
- `src/*.rs` — configuration, addresses, texts, and the collections that the rest
  is stated over.
- `tests/` — the library from outside.
- `app/` — the process around the library: environment, files, network and tasks.
  It performs the actions and reports the events.

The library trusts three calls that it does not verify: `openraft::Config::validate`,
`openraft::Config::default` and `String::from_utf8`. Their contracts stand beside
them, in `src/controller/raft_config.rs` and `src/accord/delete_target.rs`.
