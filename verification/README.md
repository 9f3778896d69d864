# warp_vote_consensus

Ternary agent voting on the model of GPU warp-vote hardware (`__ballot_sync`),
verified with Verus.

- `src/vote.rs` — the vote alphabet and its 2-bit code.
- `src/bits.rs` — bits and set-bit counts of 32-bit words.
- `src/ballot.rs` — the two-mask ballot word of a 32-thread warp: collection,
  tally, majority, 8-byte little-endian messages, and their laws.
- `src/warp.rs` — a warp of 32 agents with its simulated cycle counter.
- `src/quorum.rs` — a quorum that sums warp tallies and decides; the merge laws.
- `src/fleet.rs` — warps and quorums of a fleet and one consensus round.
- `src/comparison.rs` — a round measured against a CPU mutex baseline, and the
  fleet-level laws (vote counting, single-quorum majority, unanimity).
- `src/packed.rs` — votes packed 16 per `u32`.
- `app/lib.rs` — floating-point rates and ratios computed from the library's
  exact integer results.
