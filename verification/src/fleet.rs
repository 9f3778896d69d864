use vstd::prelude::*;

use crate::ballot::{ballot_of, lemma_ballot_bytes_roundtrip, BallotWord};
use crate::quorum::{
    decide, lemma_totals_bound, merged_decision, total_agree, total_reject, Quorum, QuorumDecision,
};
use crate::vote::Vote;
use crate::warp::{Warp, BALLOT_ROUND_CYCLES};

verus! {

/// Statistics of a fleet and of its last consensus round.
#[derive(Debug, Default, Clone)]
pub struct FleetStats {
    pub total_agents: usize,
    pub total_warps: usize,
    pub total_quorums: usize,
    /// Cycles consumed by all warps together.
    pub total_cycles: u64,
    pub final_decision: Option<QuorumDecision>,
    /// Cycles on the critical path of the last round: one warp's ballot (warps
    /// run in parallel) plus A2A routing and quorum merge. Nanoseconds per
    /// agent decision at 1 GHz are these cycles / agents × 1000.
    pub critical_path_cycles: u64,
}

/// A fleet of agents organized into warps of 32 and quorums of 32 warps.
#[derive(Debug)]
pub struct Fleet {
    pub warps: Vec<Warp>,
    pub quorums: Vec<Quorum>,
    pub stats: FleetStats,
}

/// The number of 32-agent warps that hold `n_agents` agents.
pub open spec fn warps_for(n_agents: int) -> int {
    (n_agents + 31) / 32
}

/// The number of 32-warp quorums that hold `n_warps` warps.
pub open spec fn quorums_for(n_warps: int) -> int {
    (n_warps + 31) / 32
}

/// The votes of warp `w` after the first `n` agents' votes were loaded:
/// agent `i` is thread `i % 32` of warp `i / 32`.
pub open spec fn loaded_votes(before: Seq<Vote>, votes: Seq<Vote>, w: int, n: int) -> Seq<Vote> {
    Seq::new(32, |t: int| if 32 * w + t < n { votes[32 * w + t] } else { before[t] })
}

/// Cycles of A2A message routing from warp leaders to quorum leaders.
pub const A2A_ROUTING_CYCLES: u64 = 100;

/// Cycles of a quorum merge.
pub const QUORUM_MERGE_CYCLES: u64 = 50;

/// The ballot words of a sequence of warps, from their current votes.
pub open spec fn warp_words(ws: Seq<Warp>) -> Seq<BallotWord> {
    Seq::new(ws.len(), |i: int| ballot_of(ws[i].votes()))
}

/// The words among the first `n` that are routed to quorum `q`: warp `i`
/// reports to quorum `i / 32`.
pub open spec fn routed(words: Seq<BallotWord>, q: int, n: int) -> Seq<BallotWord> {
    let lo = if 32 * q < n { 32 * q } else { n };
    let hi = if 32 * q + 32 < n { 32 * q + 32 } else { n };
    words.subrange(lo, hi)
}

/// The ballots quorum `q` holds after receiving its share of `words`.
pub open spec fn inbox_after(before: Quorum, words: Seq<BallotWord>, q: int) -> Seq<BallotWord> {
    before.ballots() + routed(words, q, words.len() as int)
}

/// The total cycles of a sequence of warps.
pub open spec fn cycles_sum(ws: Seq<Warp>) -> nat
    decreases ws.len(),
{
    if ws.len() == 0 {
        0
    } else {
        cycles_sum(ws.drop_last()) + ws.last().cycles as nat
    }
}

/// The number of decisions in `ds` that equal `d`.
pub open spec fn count_decisions(ds: Seq<QuorumDecision>, d: QuorumDecision) -> nat
    decreases ds.len(),
{
    if ds.len() == 0 {
        0
    } else {
        count_decisions(ds.drop_last(), d) + if ds.last() == d {
            1nat
        } else {
            0nat
        }
    }
}

/// Fleet-level majority over quorum decisions: more Accept than Reject
/// quorums accepts, more Reject than Accept rejects, otherwise deadlock.
pub open spec fn fleet_decision(ds: Seq<QuorumDecision>) -> QuorumDecision {
    decide(
        count_decisions(ds, QuorumDecision::Accept) as int,
        count_decisions(ds, QuorumDecision::Reject) as int,
    )
}

/// The decisions of the quorums after they received their share of `words`.
pub open spec fn quorum_decisions(before: Seq<Quorum>, words: Seq<BallotWord>) -> Seq<
    QuorumDecision,
> {
    Seq::new(before.len(), |q: int| merged_decision(inbox_after(before[q], words, q)))
}

/// The critical path of a round: one warp's cycles (warps run in
/// parallel), plus routing and merge.
pub open spec fn critical_path(ws: Seq<Warp>) -> int {
    (if ws.len() > 0 {
        ws[0].cycles as int
    } else {
        0
    }) + A2A_ROUTING_CYCLES + QUORUM_MERGE_CYCLES
}

impl Fleet {
    /// Build a fleet for `n_agents` agents, auto-sizing warps and quorums.
    ///
    /// Warp and quorum ids are `u32`: the number of warps (and of quorums)
    /// built is the count truncated to 32 bits, as the ids range over it.
    pub fn new(n_agents: usize) -> (r: Self)
        requires
            n_agents + 31 <= usize::MAX,
        ensures
            r.warps@.len() == (warps_for(n_agents as int) as u32),
            forall|i: int| 0 <= i < r.warps@.len() ==> (#[trigger] r.warps@[i]).is_fresh(i as u32),
            r.quorums@.len() == (quorums_for(warps_for(n_agents as int)) as u32),
            forall|i: int|
                0 <= i < r.quorums@.len() ==> (#[trigger] r.quorums@[i]).is_fresh(i as u32),
            r.stats.total_agents == n_agents,
            r.stats.total_warps == warps_for(n_agents as int),
            r.stats.total_quorums == quorums_for(warps_for(n_agents as int)),
            r.stats.total_cycles == 0,
            r.stats.final_decision is None,
            r.stats.critical_path_cycles == 0,
    {
        let n_warps = (n_agents + 31) / 32;
        let n_quorums = (n_warps + 31) / 32;
        let warp_count = n_warps as u32;
        let quorum_count = n_quorums as u32;

        let mut warps: Vec<Warp> = Vec::new();
        let mut i: u32 = 0;
        while i < warp_count
            invariant
                i <= warp_count,
                warps@.len() == i,
                forall|j: int| 0 <= j < i ==> (#[trigger] warps@[j]).is_fresh(j as u32),
            decreases warp_count - i,
        {
            warps.push(Warp::new(i));
            i = i + 1;
        }

        let mut quorums: Vec<Quorum> = Vec::new();
        let mut k: u32 = 0;
        while k < quorum_count
            invariant
                k <= quorum_count,
                quorums@.len() == k,
                forall|j: int| 0 <= j < k ==> (#[trigger] quorums@[j]).is_fresh(j as u32),
            decreases quorum_count - k,
        {
            quorums.push(Quorum::new(k));
            k = k + 1;
        }

        Fleet {
            warps,
            quorums,
            stats: FleetStats {
                total_agents: n_agents,
                total_warps: n_warps,
                total_quorums: n_quorums,
                total_cycles: 0,
                final_decision: None,
                critical_path_cycles: 0,
            },
        }
    }

    /// Load votes, one per agent: agent `i` votes as thread `i % 32` of warp
    /// `i / 32`; votes beyond the fleet's warps are ignored.
    pub fn load_votes(&mut self, votes: &[Vote])
        ensures
            final(self).warps@.len() == old(self).warps@.len(),
            forall|w: int|
                0 <= w < final(self).warps@.len() ==> {
                    &&& (#[trigger] final(self).warps@[w]).votes() == loaded_votes(
                        old(self).warps@[w].votes(),
                        votes@,
                        w,
                        votes@.len() as int,
                    )
                    &&& final(self).warps@[w].warp_id == old(self).warps@[w].warp_id
                    &&& final(self).warps@[w].ballot == old(self).warps@[w].ballot
                    &&& final(self).warps@[w].cycles == old(self).warps@[w].cycles
                },
            forall|w: int, t: int|
                0 <= w < final(self).warps@.len() && 0 <= t < 32 ==> {
                    &&& 32 * w + t < votes@.len() ==> (#[trigger] final(self).warps@[w].votes()[t])
                        == votes@[32 * w + t]
                    &&& 32 * w + t >= votes@.len() ==> final(self).warps@[w].votes()[t]
                        == old(self).warps@[w].votes()[t]
                },
            final(self).quorums@ == old(self).quorums@,
            final(self).stats == old(self).stats,
    {
        let ghost old_warps = self.warps@;
        let mut idx: usize = 0;
        while idx < votes.len()
            invariant
                idx <= votes@.len(),
                self.warps@.len() == old_warps.len(),
                forall|w: int|
                    0 <= w < self.warps@.len() ==> {
                        &&& (#[trigger] self.warps@[w]).votes() == loaded_votes(
                            old_warps[w].votes(),
                            votes@,
                            w,
                            idx as int,
                        )
                        &&& self.warps@[w].warp_id == old_warps[w].warp_id
                        &&& self.warps@[w].ballot == old_warps[w].ballot
                        &&& self.warps@[w].cycles == old_warps[w].cycles
                    },
                self.quorums@ == old(self).quorums@,
                self.stats == old(self).stats,
            decreases votes@.len() - idx,
        {
            let warp_idx = idx / 32;
            let thread_idx = idx % 32;
            if warp_idx < self.warps.len() {
                self.warps[warp_idx].set_vote(thread_idx, votes[idx]);
            }
            proof {
                assert forall|w: int| 0 <= w < self.warps@.len() implies (#[trigger] self.warps@[w]).votes()
                    == loaded_votes(old_warps[w].votes(), votes@, w, idx + 1) by {
                    old_warps[w].lemma_votes_len();
                    self.warps@[w].lemma_votes_len();
                    assert(self.warps@[w].votes() =~= loaded_votes(old_warps[w].votes(), votes@, w, idx + 1));
                }
            }
            idx = idx + 1;
        }
    }

    /// The counters of one consensus round fit their machine integers: the
    /// warps' total cycles after a ballot round, the first warp's critical
    /// path, and every quorum's agree and reject sums after routing.
    pub open spec fn round_fits(&self) -> bool {
        &&& cycles_sum(self.warps@) + BALLOT_ROUND_CYCLES * self.warps@.len() <= u64::MAX
        &&& self.warps@.len() > 0 ==> self.warps@[0].cycles + BALLOT_ROUND_CYCLES
            + A2A_ROUTING_CYCLES + QUORUM_MERGE_CYCLES <= u64::MAX
        &&& forall|q: int|
            0 <= q < self.quorums@.len() ==> {
                &&& total_agree(
                    inbox_after(#[trigger] self.quorums@[q], warp_words(self.warps@), q),
                ) <= u64::MAX
                &&& total_reject(inbox_after(self.quorums@[q], warp_words(self.warps@), q))
                    <= u64::MAX
            }
    }

    /// A fleet that has not run a round yet (no warp cycles, no quorum
    /// ballots), with no more warps than its `u32` ids number, can run one.
    pub proof fn lemma_fresh_round_fits(&self)
        requires
            self.warps@.len() <= u32::MAX,
            forall|w: int| 0 <= w < self.warps@.len() ==> (#[trigger] self.warps@[w]).cycles == 0,
            forall|q: int|
                0 <= q < self.quorums@.len() ==> (#[trigger] self.quorums@[q]).ballots().len() == 0,
        ensures
            self.round_fits(),
    {
        lemma_zero_cycles(self.warps@);
        let words = warp_words(self.warps@);
        assert forall|q: int| 0 <= q < self.quorums@.len() implies {
            &&& total_agree(inbox_after(#[trigger] self.quorums@[q], words, q)) <= u64::MAX
            &&& total_reject(inbox_after(self.quorums@[q], words, q)) <= u64::MAX
        } by {
            let share = routed(words, q, words.len() as int);
            assert(inbox_after(self.quorums@[q], words, q) =~= share);
            lemma_totals_bound(share);
        }
    }

    /// Run the full consensus pipeline: warp ballots, A2A messages to the
    /// quorums (warp `i` reports to quorum `i / 32`), quorum merges, and a
    /// fleet-level majority over the quorum decisions.
    pub fn run_consensus(&mut self) -> (r: QuorumDecision)
        requires
            old(self).round_fits(),
        ensures
            final(self).warps@.len() == old(self).warps@.len(),
            forall|w: int|
                0 <= w < final(self).warps@.len() ==> {
                    &&& (#[trigger] final(self).warps@[w]).ballot == Some(
                        ballot_of(old(self).warps@[w].votes()),
                    )
                    &&& final(self).warps@[w].cycles == old(self).warps@[w].cycles
                        + BALLOT_ROUND_CYCLES
                    &&& final(self).warps@[w].votes() == old(self).warps@[w].votes()
                    &&& final(self).warps@[w].warp_id == old(self).warps@[w].warp_id
                },
            final(self).quorums@.len() == old(self).quorums@.len(),
            forall|q: int|
                0 <= q < final(self).quorums@.len() ==> {
                    &&& (#[trigger] final(self).quorums@[q]).ballots() == inbox_after(
                        old(self).quorums@[q],
                        warp_words(old(self).warps@),
                        q,
                    )
                    &&& final(self).quorums@[q].decision == Some(
                        merged_decision(final(self).quorums@[q].ballots()),
                    )
                    &&& final(self).quorums@[q].quorum_id == old(self).quorums@[q].quorum_id
                },
            r == fleet_decision(quorum_decisions(old(self).quorums@, warp_words(old(self).warps@))),
            ({
                let ds = quorum_decisions(old(self).quorums@, warp_words(old(self).warps@));
                &&& (r == QuorumDecision::Accept) <==> count_decisions(ds, QuorumDecision::Accept)
                    > count_decisions(ds, QuorumDecision::Reject)
                &&& (r == QuorumDecision::Reject) <==> count_decisions(ds, QuorumDecision::Reject)
                    > count_decisions(ds, QuorumDecision::Accept)
                &&& (r == QuorumDecision::Deadlock) <==> count_decisions(ds, QuorumDecision::Accept)
                    == count_decisions(ds, QuorumDecision::Reject)
            }),
            final(self).stats.total_cycles == cycles_sum(final(self).warps@),
            final(self).stats.total_cycles == cycles_sum(old(self).warps@) + BALLOT_ROUND_CYCLES
                * old(self).warps@.len(),
            final(self).stats.final_decision == Some(r),
            final(self).stats.critical_path_cycles == critical_path(final(self).warps@),
            final(self).stats.total_agents == old(self).stats.total_agents,
            final(self).stats.total_warps == old(self).stats.total_warps,
            final(self).stats.total_quorums == old(self).stats.total_quorums,
    {
        let ghost old_warps = self.warps@;
        let ghost old_quorums = self.quorums@;
        let ghost words_spec = warp_words(old_warps);

        // Step 1: each warp executes its ballot (in parallel on a GPU).
        let words = ballot_warps(&mut self.warps);
        let total_warp_cycles = sum_warp_cycles(&self.warps);

        // Step 2: warp leaders send A2A messages to quorum leaders.
        route_ballots(&mut self.quorums, &words);

        // Step 3: each quorum merges its ballots.
        let decisions = merge_quorums(&mut self.quorums);
        proof {
            assert forall|q: int| 0 <= q < decisions@.len() implies decisions@[q]
                == quorum_decisions(old_quorums, words_spec)[q] by {
                assert(self.quorums@[q].ballots() == inbox_after(old_quorums[q], words_spec, q));
            }
            assert(decisions@ =~= quorum_decisions(old_quorums, words_spec));
        }

        // Step 4: fleet-level majority across quorum decisions.
        let fleet_decision = majority_of(&decisions);

        // On a GPU the warps run in parallel: the critical path is one
        // warp's cycles plus A2A routing (~100 cycles) and the merge (~50).
        let first_cycles: u64 = if self.warps.len() > 0 {
            self.warps[0].cycles
        } else {
            0
        };
        let critical_path_cycles = first_cycles + A2A_ROUTING_CYCLES + QUORUM_MERGE_CYCLES;

        self.stats.total_cycles = total_warp_cycles;
        self.stats.final_decision = Some(fleet_decision);
        self.stats.critical_path_cycles = critical_path_cycles;
        fleet_decision
    }
}

/// Execute the ballot of every warp, in order, and collect the words.
fn ballot_warps(warps: &mut Vec<Warp>) -> (words: Vec<BallotWord>)
    requires
        cycles_sum(old(warps)@) + BALLOT_ROUND_CYCLES * old(warps)@.len() <= u64::MAX,
    ensures
        words@ == warp_words(old(warps)@),
        final(warps)@.len() == old(warps)@.len(),
        forall|j: int|
            0 <= j < final(warps)@.len() ==> {
                &&& (#[trigger] final(warps)@[j]).ballot == Some(words@[j])
                &&& final(warps)@[j].cycles == old(warps)@[j].cycles + BALLOT_ROUND_CYCLES
                &&& final(warps)@[j].votes() == old(warps)@[j].votes()
                &&& final(warps)@[j].warp_id == old(warps)@[j].warp_id
            },
        cycles_sum(final(warps)@) == cycles_sum(old(warps)@) + BALLOT_ROUND_CYCLES
            * old(warps)@.len(),
{
    let ghost old_warps = warps@;
    let ghost words_spec = warp_words(old_warps);
    let mut words: Vec<BallotWord> = Vec::new();
    let mut w: usize = 0;
    while w < warps.len()
        invariant
            w <= warps@.len(),
            warps@.len() == old_warps.len(),
            words_spec == warp_words(old_warps),
            words@ == words_spec.take(w as int),
            cycles_sum(old_warps) + BALLOT_ROUND_CYCLES * old_warps.len() <= u64::MAX,
            forall|j: int|
                0 <= j < warps@.len() ==> {
                    &&& (#[trigger] warps@[j]).votes() == old_warps[j].votes()
                    &&& warps@[j].warp_id == old_warps[j].warp_id
                    &&& (j < w ==> warps@[j].ballot == Some(words_spec[j]))
                    &&& (j < w ==> warps@[j].cycles == old_warps[j].cycles + BALLOT_ROUND_CYCLES)
                    &&& (j >= w ==> warps@[j] == old_warps[j])
                },
        decreases old_warps.len() - w,
    {
        proof {
            lemma_cycles_element(old_warps, w as int);
        }
        let b = warps[w].execute_ballot();
        words.push(b);
        proof {
            assert(words@ =~= words_spec.take(w + 1));
        }
        w = w + 1;
    }
    proof {
        assert(words@ =~= words_spec);
        lemma_cycles_shift(old_warps, warps@);
    }
    words
}

/// The total cycles of all warps.
fn sum_warp_cycles(warps: &Vec<Warp>) -> (r: u64)
    requires
        cycles_sum(warps@) <= u64::MAX,
    ensures
        r == cycles_sum(warps@),
{
    let mut total: u64 = 0;
    let mut w: usize = 0;
    while w < warps.len()
        invariant
            w <= warps@.len(),
            total == cycles_sum(warps@.take(w as int)),
            cycles_sum(warps@) <= u64::MAX,
        decreases warps@.len() - w,
    {
        proof {
            assert(warps@.take(w + 1).drop_last() =~= warps@.take(w as int));
            lemma_cycles_prefix(warps@, w + 1);
        }
        total = total + warps[w].cycles;
        w = w + 1;
    }
    proof {
        assert(warps@.take(warps@.len() as int) =~= warps@);
    }
    total
}

/// Send every word as an A2A message to its quorum: word `i` goes to quorum
/// `i / 32`, when there is one.
fn route_ballots(quorums: &mut Vec<Quorum>, words: &Vec<BallotWord>)
    ensures
        final(quorums)@.len() == old(quorums)@.len(),
        forall|q: int|
            0 <= q < final(quorums)@.len() ==> {
                &&& (#[trigger] final(quorums)@[q]).ballots() == inbox_after(
                    old(quorums)@[q],
                    words@,
                    q,
                )
                &&& final(quorums)@[q].quorum_id == old(quorums)@[q].quorum_id
                &&& final(quorums)@[q].decision == old(quorums)@[q].decision
            },
{
    let ghost old_quorums = quorums@;
    let mut w: usize = 0;
    while w < words.len()
        invariant
            w <= words@.len(),
            quorums@.len() == old_quorums.len(),
            forall|q: int|
                0 <= q < quorums@.len() ==> {
                    &&& (#[trigger] quorums@[q]).ballots() == old_quorums[q].ballots() + routed(
                        words@,
                        q,
                        w as int,
                    )
                    &&& quorums@[q].quorum_id == old_quorums[q].quorum_id
                    &&& quorums@[q].decision == old_quorums[q].decision
                },
        decreases words@.len() - w,
    {
        let quorum_idx = w / 32;
        if quorum_idx < quorums.len() {
            let msg = words[w].to_bytes();
            proof {
                lemma_ballot_bytes_roundtrip(words@[w as int]);
            }
            quorums[quorum_idx].receive_a2a_message(&msg);
        }
        proof {
            assert forall|q: int| 0 <= q < quorums@.len() implies (#[trigger] quorums@[q]).ballots()
                == old_quorums[q].ballots() + routed(words@, q, w + 1) by {
                lemma_routed_step(words@, q, w as int);
            }
        }
        w = w + 1;
    }
}

/// Let every quorum merge its ballots and decide; the decisions in quorum order.
fn merge_quorums(quorums: &mut Vec<Quorum>) -> (ds: Vec<QuorumDecision>)
    requires
        forall|q: int|
            0 <= q < old(quorums)@.len() ==> {
                &&& total_agree((#[trigger] old(quorums)@[q]).ballots()) <= u64::MAX
                &&& total_reject(old(quorums)@[q].ballots()) <= u64::MAX
            },
    ensures
        final(quorums)@.len() == old(quorums)@.len(),
        ds@.len() == old(quorums)@.len(),
        forall|q: int|
            0 <= q < final(quorums)@.len() ==> {
                &&& (#[trigger] final(quorums)@[q]).ballots() == old(quorums)@[q].ballots()
                &&& ds@[q] == merged_decision(old(quorums)@[q].ballots())
                &&& final(quorums)@[q].decision == Some(ds@[q])
                &&& final(quorums)@[q].quorum_id == old(quorums)@[q].quorum_id
            },
{
    let ghost old_quorums = quorums@;
    let mut ds: Vec<QuorumDecision> = Vec::new();
    let mut q: usize = 0;
    while q < quorums.len()
        invariant
            q <= quorums@.len(),
            quorums@.len() == old_quorums.len(),
            ds@.len() == q,
            forall|j: int|
                0 <= j < old_quorums.len() ==> {
                    &&& total_agree((#[trigger] old_quorums[j]).ballots()) <= u64::MAX
                    &&& total_reject(old_quorums[j].ballots()) <= u64::MAX
                },
            forall|j: int|
                0 <= j < quorums@.len() ==> {
                    &&& (#[trigger] quorums@[j]).ballots() == old_quorums[j].ballots()
                    &&& quorums@[j].quorum_id == old_quorums[j].quorum_id
                    &&& (j < q ==> ds@[j] == merged_decision(old_quorums[j].ballots()))
                    &&& (j < q ==> quorums@[j].decision == Some(ds@[j]))
                    &&& (j >= q ==> quorums@[j] == old_quorums[j])
                },
        decreases old_quorums.len() - q,
    {
        let d = quorums[q].merge_and_decide();
        ds.push(d);
        q = q + 1;
    }
    ds
}

/// Fleet-level majority: more Accept than Reject quorums accepts, more Reject
/// than Accept rejects, otherwise deadlock.
fn majority_of(ds: &Vec<QuorumDecision>) -> (r: QuorumDecision)
    ensures
        r == fleet_decision(ds@),
        (r == QuorumDecision::Accept) <==> count_decisions(ds@, QuorumDecision::Accept)
            > count_decisions(ds@, QuorumDecision::Reject),
        (r == QuorumDecision::Reject) <==> count_decisions(ds@, QuorumDecision::Reject)
            > count_decisions(ds@, QuorumDecision::Accept),
{
    let mut accept_count: usize = 0;
    let mut reject_count: usize = 0;
    let mut k: usize = 0;
    while k < ds.len()
        invariant
            k <= ds@.len(),
            accept_count == count_decisions(ds@.take(k as int), QuorumDecision::Accept),
            reject_count == count_decisions(ds@.take(k as int), QuorumDecision::Reject),
            accept_count <= k,
            reject_count <= k,
        decreases ds@.len() - k,
    {
        proof {
            assert(ds@.take(k + 1).drop_last() =~= ds@.take(k as int));
        }
        match ds[k] {
            QuorumDecision::Accept => {
                accept_count = accept_count + 1;
            },
            QuorumDecision::Reject => {
                reject_count = reject_count + 1;
            },
            QuorumDecision::Deadlock => {},
        }
        k = k + 1;
    }
    proof {
        assert(ds@.take(ds@.len() as int) =~= ds@);
    }
    if accept_count > reject_count {
        QuorumDecision::Accept
    } else if reject_count > accept_count {
        QuorumDecision::Reject
    } else {
        QuorumDecision::Deadlock
    }
}

/// Loading votes writes exactly the threads the votes cover: thread `t` of
/// warp `w` takes the vote of agent `32w + t` when there is one, and keeps
/// its vote otherwise.
pub proof fn lemma_loaded_votes(before: Seq<Vote>, votes: Seq<Vote>, w: int, t: int)
    requires
        before.len() == 32,
        0 <= t < 32,
    ensures
        loaded_votes(before, votes, w, votes.len() as int).len() == 32,
        32 * w + t < votes.len() ==> loaded_votes(before, votes, w, votes.len() as int)[t]
            == votes[32 * w + t],
        32 * w + t >= votes.len() ==> loaded_votes(before, votes, w, votes.len() as int)[t]
            == before[t],
{
}

/// Loading a second, shorter batch of votes keeps the first batch's votes
/// for the agents the second batch does not cover.
pub proof fn lemma_load_twice(before: Seq<Vote>, first: Seq<Vote>, second: Seq<Vote>, w: int, t: int)
    requires
        before.len() == 32,
        0 <= t < 32,
        second.len() <= 32 * w + t < first.len(),
    ensures
        loaded_votes(
            loaded_votes(before, first, w, first.len() as int),
            second,
            w,
            second.len() as int,
        )[t] == first[32 * w + t],
{
}

/// The fleet decision counts only Accept and Reject quorums: Accept exactly
/// when Accept quorums outnumber Reject quorums, Reject exactly when Reject
/// quorums outnumber Accept quorums, Deadlock exactly on a tie. Deadlocked
/// quorums count for neither side.
pub proof fn lemma_fleet_decision_rule(ds: Seq<QuorumDecision>)
    ensures
        (fleet_decision(ds) == QuorumDecision::Accept) <==> count_decisions(
            ds,
            QuorumDecision::Accept,
        ) > count_decisions(ds, QuorumDecision::Reject),
        (fleet_decision(ds) == QuorumDecision::Reject) <==> count_decisions(
            ds,
            QuorumDecision::Reject,
        ) > count_decisions(ds, QuorumDecision::Accept),
        (fleet_decision(ds) == QuorumDecision::Deadlock) <==> count_decisions(
            ds,
            QuorumDecision::Accept,
        ) == count_decisions(ds, QuorumDecision::Reject),
        fleet_decision(ds.push(QuorumDecision::Deadlock)) == fleet_decision(ds),
{
    assert(ds.push(QuorumDecision::Deadlock).drop_last() =~= ds);
}

/// `count_decisions` counts the decisions equal to `d`: it is the length of
/// the subsequence of those decisions.
pub proof fn lemma_count_decisions_filter(ds: Seq<QuorumDecision>, d: QuorumDecision)
    ensures
        count_decisions(ds, d) == ds.filter(|x: QuorumDecision| x == d).len(),
        count_decisions(ds, d) <= ds.len(),
    decreases ds.len(),
{
    reveal_with_fuel(Seq::filter, 1);
    if ds.len() > 0 {
        lemma_count_decisions_filter(ds.drop_last(), d);
    }
}

/// A fleet has just enough warps for its agents and just enough quorums for
/// its warps: the least counts whose 32 slots each hold them all.
pub proof fn lemma_fleet_sizes(n: int)
    requires
        n >= 0,
    ensures
        32 * warps_for(n) >= n,
        32 * (warps_for(n) - 1) < n || n == 0,
        warps_for(n) >= 0,
        n == 0 ==> warps_for(n) == 0,
        32 * quorums_for(warps_for(n)) >= warps_for(n),
        32 * (quorums_for(warps_for(n)) - 1) < warps_for(n) || warps_for(n) == 0,
{
}

/// Warp `w` reports to quorum `w / 32`: its word is in that quorum's share,
/// at position `w % 32`; every other quorum's share covers warps outside
/// `w`'s block of 32.
pub proof fn lemma_routed_member(words: Seq<BallotWord>, w: int, q: int)
    requires
        0 <= w < words.len(),
        0 <= q,
    ensures
        q == w / 32 ==> routed(words, q, words.len() as int)[w % 32] == words[w],
        q == w / 32 ==> w % 32 < routed(words, q, words.len() as int).len(),
        routed(words, q, words.len() as int).len() <= 32,
        q != w / 32 ==> !(32 * q <= w < 32 * q + 32),
{
}

/// Warps that have spent no cycles spend none in total.
proof fn lemma_zero_cycles(ws: Seq<Warp>)
    requires
        forall|i: int| 0 <= i < ws.len() ==> (#[trigger] ws[i]).cycles == 0,
    ensures
        cycles_sum(ws) == 0,
    decreases ws.len(),
{
    if ws.len() > 0 {
        lemma_zero_cycles(ws.drop_last());
        assert(ws.last() == ws[ws.len() - 1]);
    }
}

/// One warp's cycles are at most the total.
proof fn lemma_cycles_element(ws: Seq<Warp>, i: int)
    requires
        0 <= i < ws.len(),
    ensures
        ws[i].cycles <= cycles_sum(ws),
    decreases ws.len(),
{
    if i < ws.len() - 1 {
        lemma_cycles_element(ws.drop_last(), i);
    }
}

/// The cycles of a prefix are at most the total.
proof fn lemma_cycles_prefix(ws: Seq<Warp>, n: int)
    requires
        0 <= n <= ws.len(),
    ensures
        cycles_sum(ws.take(n)) <= cycles_sum(ws),
    decreases ws.len(),
{
    if n == ws.len() {
        assert(ws.take(n) =~= ws);
    } else {
        assert(ws.drop_last().take(n) =~= ws.take(n));
        lemma_cycles_prefix(ws.drop_last(), n);
    }
}

/// Adding one ballot round to every warp adds a round per warp to the total.
proof fn lemma_cycles_shift(a: Seq<Warp>, b: Seq<Warp>)
    requires
        a.len() == b.len(),
        forall|i: int| 0 <= i < a.len() ==> (#[trigger] b[i]).cycles == a[i].cycles + BALLOT_ROUND_CYCLES,
    ensures
        cycles_sum(b) == cycles_sum(a) + BALLOT_ROUND_CYCLES * a.len(),
    decreases a.len(),
{
    if a.len() > 0 {
        lemma_cycles_shift(a.drop_last(), b.drop_last());
        assert(b.last() == b[b.len() - 1]);
    }
}

/// Routing word `w` extends the share of quorum `w / 32` by that word and
/// leaves the other shares as they were.
proof fn lemma_routed_step(words: Seq<BallotWord>, q: int, w: int)
    requires
        0 <= w < words.len(),
        0 <= q,
    ensures
        routed(words, q, w + 1) == if q == w / 32 {
            routed(words, q, w).push(words[w])
        } else {
            routed(words, q, w)
        },
{
    if q == w / 32 {
        assert(routed(words, q, w + 1) =~= routed(words, q, w).push(words[w]));
    } else {
        assert(routed(words, q, w + 1) =~= routed(words, q, w));
    }
}

} // verus!
