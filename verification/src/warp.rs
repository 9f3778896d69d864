use vstd::prelude::*;

use crate::ballot::{ballot_of, tally_of, BallotWord, VoteTally};
use crate::vote::Vote;

verus! {

/// Simulated clock cycles of one ballot round: ~8 cycles of setup and two
/// ballot passes of 4 cycles each.
pub const BALLOT_ROUND_CYCLES: u64 = 16;

/// A simulated GPU warp: 32 agents with a shared vote round.
#[derive(Debug)]
pub struct Warp {
    pub warp_id: u32,
    /// The votes of the warp's 32 threads.
    pub agents: [Vote; 32],
    pub ballot: Option<BallotWord>,
    /// Simulated clock cycles consumed (ballot = 4 cycles, setup = ~8).
    pub cycles: u64,
}

/// Thirty-two Abstain votes, the votes of a fresh warp.
pub open spec fn all_abstain() -> Seq<Vote> {
    Seq::new(32, |i: int| Vote::Abstain)
}

impl Warp {
    /// The current votes of the warp's 32 threads.
    pub open spec fn votes(&self) -> Seq<Vote> {
        self.agents@
    }

    /// A warp that has not voted yet: thread votes all Abstain, no ballot, no cycles.
    pub open spec fn is_fresh(&self, warp_id: u32) -> bool {
        &&& self.warp_id == warp_id
        &&& self.votes() == all_abstain()
        &&& self.ballot is None
        &&& self.cycles == 0
    }

    /// A warp has exactly 32 threads.
    pub proof fn lemma_votes_len(&self)
        ensures
            self.votes().len() == 32,
    {
    }

    pub fn new(warp_id: u32) -> (r: Self)
        ensures
            r.is_fresh(warp_id),
    {
        let r = Warp { warp_id, agents: [Vote::Abstain; 32], ballot: None, cycles: 0 };
        assert(r.votes() =~= all_abstain());
        r
    }

    /// Set an individual agent's vote (thread `thread_idx` in the warp).
    pub fn set_vote(&mut self, thread_idx: usize, vote: Vote)
        requires
            thread_idx < 32,
        ensures
            final(self).votes() == old(self).votes().update(thread_idx as int, vote),
            final(self).warp_id == old(self).warp_id,
            final(self).ballot == old(self).ballot,
            final(self).cycles == old(self).cycles,
    {
        self.agents[thread_idx] = vote;
    }

    /// Execute the two-pass ballot, simulating `__ballot_sync`.
    /// Returns the ballot word and records the simulated cycle cost.
    pub fn execute_ballot(&mut self) -> (r: BallotWord)
        requires
            old(self).cycles + BALLOT_ROUND_CYCLES <= u64::MAX,
        ensures
            r == ballot_of(old(self).votes()),
            final(self).ballot == Some(r),
            final(self).cycles == old(self).cycles + BALLOT_ROUND_CYCLES,
            final(self).votes() == old(self).votes(),
            final(self).warp_id == old(self).warp_id,
    {
        self.cycles = self.cycles + (8 + 4 + 4);
        let word = BallotWord::collect(&self.agents);
        self.ballot = Some(word);
        word
    }

    /// The tally of the last ballot, if one was executed.
    pub fn tally(&self) -> (r: Option<VoteTally>)
        ensures
            r == match self.ballot {
                Some(b) => Some(tally_of(b)),
                None => None,
            },
    {
        match self.ballot {
            Some(b) => Some(b.tally()),
            None => None,
        }
    }
}

} // verus!
