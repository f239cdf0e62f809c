# world_prototype

The deterministic core of a living-world sandbox prototype, written in Verus:
every function in `src/` carries a contract that Verus proves, except one
trusted wrapper around std's `format!` that describes an unexpected answer.

## Layout

- `src/rng.rs`: SplitMix64 streams isolated by stage, space and feature;
  seed derivation, draws in a range, forked streams.
- `src/protocol.rs`: typed command outcomes, version checks and the
  idempotency ledger.
- `src/authority/`: the authoritative world server. `model` holds the world,
  `decide` and `events` what a command does to it, `engine` the server with
  its receipts and journal, `projection` a client's view, `fingerprint` the
  semantic fingerprint, `scenario` the two-player fixture, and `laws` the
  properties that span calls (a retried command is answered as it first was,
  a rejection changes nothing, a synchronised client holds the server's
  state, and so on).
- `src/transport.rs`: the per-session ordering of requests in front of the
  server, and what a hosted server answers.
- `src/persistence.rs`: journal ordering and recovery from a snapshot and a
  journal, with the proof that recovery reproduces the served world.
- `src/blueprint/`: building blueprints by structure: validation with its
  errors in a fixed order, the room graph and the rooms no entry reaches,
  portal edges, what a change to a blueprint makes stale, applying a change,
  and its semantic fingerprint. Geometry enters as the verdicts that each element carries,
  and, for the fingerprint, as the bit patterns of its values.
- `src/key_order.rs`: a stable order of list positions by key, and the proof
  that lists with the same items and distinct keys come out the same.
- `src/terrain.rs`, `src/building.rs`, `src/stable.rs`, `src/viewer.rs`,
  `src/route_view.rs`, `src/validation.rs`, `src/replies.rs`: the smaller
  integer parts of the world model, the viewers' mode cycles, and what a
  client makes of a server's answers.
- `tests/`: executable tests of the library.
- `app/`: a TCP host for the authority and a client session that runs the
  acceptance steps against it, with JSON files for the snapshot and journal.
