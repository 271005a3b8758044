# holochain_raft

Raft coordination logic for Holochain conductors, verified with Verus.

- `src/` — the verified library: raft timing (`config`), agent identities
  (`node`), last-seen bookkeeping (`presence`), absent-voter removal
  (`peer_tracker`), the quorum and fork decision (`forker`), peer messages and
  request handling decisions (`message`), zome-call addressing and the
  leader-following call state machine (`client`), the app-interface data model
  and its request planning (`interface`), the per-network raft registry
  (`registry`) and the remote error wrapper (`error`).
- `app/` — ordinary Rust around it: serialized forms, conversions to
  `holo_hash` keys, the openraft type configuration and network, and the async
  drivers that perform the calls the library decides on.
- `tests/` — executable tests of the library.
