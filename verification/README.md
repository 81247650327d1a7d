# rally_point_consensus

The decision-making core of a lockstep game relay: how deep the latency buffer is, who
decides it, when a player has left and from which frame on, whether the players' games still
agree, and when a session starts. Every rule is executable Rust with a contract that Verus
proves.

## Layout

- `src/law.rs`, `src/slot.rs`: what link conditions are made into: recent round trips, peaks,
  loss rates, bursts and outages.
- `src/maker/`: one session's decision-maker. `buffer` holds the control law, `authority`,
  `connection`, `departure`, `leave`, `session_start`, `silence`, `sync`, `homing` and `phase`
  the rest of a session's rules.
- `src/phase.rs`: alignment of the players' send phases.
- `src/sync/`: ordering and comparison of checksum reports, and the rate caps.
- `src/registry/`, `src/ops/`: all sessions of a relay, with the notices and flight records
  that their rules leave to be sent and kept.
- `src/laws/`: what holds of the library as a whole, as proof functions over the same models
  the contracts use. `laws/session.rs` states what no sequence of operations ever undoes,
  `laws/history.rs` that what a session tells of its past is what happened.
- `src/ordmap.rs`, `src/session_map.rs`, `src/time.rs`, `src/ids.rs`, `src/wire.rs`,
  `src/notice.rs`, `src/delivery.rs`: the collections and values these speak of.
- `app/`: the lock, the clocks, the channel to the coordinator and the log.

Time is a parameter everywhere: the library reads no clock, and nothing in it blocks or
allocates threads.
