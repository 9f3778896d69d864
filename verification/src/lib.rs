//! Ternary agent voting modelled on GPU warp-vote (`__ballot_sync`) hardware:
//! two 32-bit ballot masks per warp, a quorum that sums warp tallies, and a
//! fleet that routes warp ballots to quorums and takes a majority of their
//! decisions.
pub mod ballot;
pub mod bits;
pub mod comparison;
pub mod fleet;
pub mod packed;
pub mod quorum;
pub mod vote;
pub mod warp;
