# omnipaxos_ec

An erasure-coded variant of OmniPaxos, verified with Verus. The leader cuts each
log entry into Reed-Solomon fragments and gives every server one of them; any
fragments, as many as there are data shards, give the entry back.

- `src/erasure/` the code: framing of entries, encoding and decoding, the entries
  of the log. `codec.rs` is the boundary to the `reed-solomon-erasure` crate.
- `src/storage.rs` what a storage backend has to offer, with the backends in
  `memory_storage.rs`, `ec_memory_storage.rs` and `hybrid_storage.rs`.
- `src/internal_storage.rs` the cache and the batch in front of a backend.
- `src/leader_state.rs`, `src/messages.rs`, `src/util.rs` what the leader knows of
  its followers, what servers send each other, ballots and quorums.
- `src/sequence_paxos_ec/` the leader: `model.rs` says what every step does to the
  state of a server, `leader.rs` does it, `laws.rs` states what holds of all of it.
- `src/wire.rs` the bytes of values that are encoded as a whole; the boundary to
  the `bincode` crate.
- `app/` serialisable copies of the log entries.
