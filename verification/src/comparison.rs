use vstd::prelude::*;

use crate::ballot::{
    agreement_fraction_of, ballot_of, count_votes, lemma_collect_tally_counts, tally_of,
    BallotWord, VoteTally,
};
use crate::fleet::{
    count_decisions, fleet_decision, inbox_after, loaded_votes, quorum_decisions, quorums_for,
    routed, warp_words, warps_for, Fleet, A2A_ROUTING_CYCLES, QUORUM_MERGE_CYCLES,
};
use crate::quorum::{
    decide, lemma_totals_bound, lemma_totals_concat, merged_decision, total_abstain, total_agree,
    total_reject, QuorumDecision,
};
use crate::vote::Vote;
use crate::warp::{all_abstain, BALLOT_ROUND_CYCLES};

verus! {

/// Cycles a CPU spends per agent on a mutex-guarded shared counter (cache
/// miss and lock contention at scale).
pub const CPU_MUTEX_CYCLES_PER_AGENT: u64 = 100;

/// Cycles of one level of the quorum tree: a warp ballot (16), A2A routing
/// (100) and a quorum merge (50).
pub const TREE_LEVEL_CYCLES: u64 = 166;

/// Warp-vote consensus compared with a CPU mutex baseline on the same votes.
#[derive(Debug, Clone)]
pub struct ConsensusComparison {
    pub n_agents: usize,
    pub warp_critical_path_cycles: u64,
    /// ~100 cycles per agent, serialized.
    pub cpu_mutex_cycles: u64,
    pub decision: QuorumDecision,
    /// Agree votes summed over all quorums.
    pub total_agree: u64,
    /// Reject votes summed over all quorums.
    pub total_reject: u64,
}

/// Levels of the quorum tree for `n` agents.
pub open spec fn quorum_levels(n: int) -> int {
    if n <= 32 {
        1
    } else if n <= 1024 {
        2
    } else {
        3
    }
}

/// The number of warps a fleet for `n` agents has (warp ids are `u32`).
pub open spec fn fleet_warp_count(n: int) -> int {
    (warps_for(n) as u32) as int
}

/// The number of quorums a fleet for `n` agents has (quorum ids are `u32`).
pub open spec fn fleet_quorum_count(n: int) -> int {
    (quorums_for(warps_for(n)) as u32) as int
}

/// The ballot words of a fresh fleet after loading `votes`.
pub open spec fn consensus_words(votes: Seq<Vote>) -> Seq<BallotWord> {
    Seq::new(
        fleet_warp_count(votes.len() as int) as nat,
        |w: int| ballot_of(loaded_votes(all_abstain(), votes, w, votes.len() as int)),
    )
}

/// The ballots each quorum of a fresh fleet holds after one round on `votes`.
pub open spec fn consensus_inboxes(votes: Seq<Vote>) -> Seq<Seq<BallotWord>> {
    let words = consensus_words(votes);
    Seq::new(
        fleet_quorum_count(votes.len() as int) as nat,
        |q: int| routed(words, q, words.len() as int),
    )
}

/// The fleet decision of one round on `votes` from a fresh fleet.
pub open spec fn consensus_decision(votes: Seq<Vote>) -> QuorumDecision {
    fleet_decision(consensus_inboxes(votes).map_values(|b: Seq<BallotWord>| merged_decision(b)))
}

/// The words that reach a quorum: those of the first `32 × quorums` warps.
pub open spec fn routed_words(votes: Seq<Vote>) -> Seq<BallotWord> {
    let words = consensus_words(votes);
    let reach = 32 * fleet_quorum_count(votes.len() as int);
    words.take(if reach < words.len() { reach } else { words.len() as int })
}

impl ConsensusComparison {
    /// Run warp-vote consensus on `votes` and set it against the CPU mutex baseline.
    pub fn run(votes: &[Vote]) -> (r: Self)
        requires
            votes@.len() + 31 <= usize::MAX,
            votes@.len() * CPU_MUTEX_CYCLES_PER_AGENT <= u64::MAX,
        ensures
            r.n_agents == votes@.len(),
            r.cpu_mutex_cycles == votes@.len() * CPU_MUTEX_CYCLES_PER_AGENT,
            r.warp_critical_path_cycles == TREE_LEVEL_CYCLES * quorum_levels(votes@.len() as int),
            votes@.len() <= 32 ==> r.warp_critical_path_cycles == TREE_LEVEL_CYCLES,
            32 < votes@.len() <= 1024 ==> r.warp_critical_path_cycles == 2 * TREE_LEVEL_CYCLES,
            votes@.len() > 1024 ==> r.warp_critical_path_cycles == 3 * TREE_LEVEL_CYCLES,
            r.decision == consensus_decision(votes@),
            r.total_agree == total_agree(routed_words(votes@)),
            r.total_reject == total_reject(routed_words(votes@)),
    {
        let n = votes.len();
        let mut fleet = Fleet::new(n);
        let ghost fresh_warps = fleet.warps@;
        fleet.load_votes(votes);
        let ghost words = consensus_words(votes@);
        let ghost nq = fleet_quorum_count(n as int);
        proof {
            let ws = fleet.warps@;
            assert forall|w: int| 0 <= w < ws.len() implies (#[trigger] ws[w]).votes()
                == loaded_votes(all_abstain(), votes@, w, n as int) by {
                assert(fresh_warps[w].is_fresh(w as u32));
            }
            assert(warp_words(ws) =~= words);
            fleet.lemma_fresh_round_fits();
            assert forall|q: int| 0 <= q < fleet.quorums@.len() implies inbox_after(
                #[trigger] fleet.quorums@[q],
                words,
                q,
            ) == routed(words, q, words.len() as int) by {
                assert(fleet.quorums@[q].is_fresh(q as u32));
                assert(inbox_after(fleet.quorums@[q], words, q) =~= routed(
                    words,
                    q,
                    words.len() as int,
                ));
            }
            assert(quorum_decisions(fleet.quorums@, words) =~= consensus_inboxes(
                votes@,
            ).map_values(|b: Seq<BallotWord>| merged_decision(b)));
        }
        let decision = fleet.run_consensus();

        // CPU mutex baseline: each agent takes a mutex and updates a shared counter.
        let cpu_cycles = n as u64 * CPU_MUTEX_CYCLES_PER_AGENT;

        // GPU critical path: one warp's ballot (all warps run in parallel)
        // plus A2A routing and merge, per level of the quorum tree.
        let warp_cycles: u64 = BALLOT_ROUND_CYCLES + A2A_ROUTING_CYCLES + QUORUM_MERGE_CYCLES;
        let quorum_levels: u64 = if n <= 32 {
            1
        } else if n <= 1024 {
            2
        } else {
            3
        };
        let gpu_critical = warp_cycles * quorum_levels;

        let mut total_agree_acc: u64 = 0;
        let mut total_abstain_acc: u64 = 0;
        let mut total_reject_acc: u64 = 0;
        let mut q: usize = 0;
        while q < fleet.quorums.len()
            invariant
                q <= fleet.quorums@.len(),
                fleet.quorums@.len() == nq,
                words.len() <= u32::MAX,
                forall|j: int|
                    0 <= j < fleet.quorums@.len() ==> (#[trigger] fleet.quorums@[j]).ballots()
                        == routed(words, j, words.len() as int),
                total_agree_acc == total_agree(words.take(prefix_len(32 * q, words.len() as int))),
                total_abstain_acc == total_abstain(
                    words.take(prefix_len(32 * q, words.len() as int)),
                ),
                total_reject_acc == total_reject(
                    words.take(prefix_len(32 * q, words.len() as int)),
                ),
            decreases nq - q,
        {
            let ghost before = words.take(prefix_len(32 * q, words.len() as int));
            let ghost share = routed(words, q as int, words.len() as int);
            let ghost after = words.take(prefix_len(32 * (q + 1), words.len() as int));
            proof {
                lemma_totals_bound(share);
                lemma_totals_bound(after);
                assert(after =~= before + share);
                lemma_totals_concat(before, share);
            }
            let (qa, qab, qr) = fleet.quorums[q].total_tally();
            total_agree_acc = total_agree_acc + qa;
            total_abstain_acc = total_abstain_acc + qab;
            total_reject_acc = total_reject_acc + qr;
            q = q + 1;
        }

        ConsensusComparison {
            n_agents: n,
            warp_critical_path_cycles: gpu_critical,
            cpu_mutex_cycles: cpu_cycles,
            decision,
            total_agree: total_agree_acc,
            total_reject: total_reject_acc,
        }
    }

    /// The agreement rate over all quorums as a fraction
    /// `(agree, agree + reject)`; `(1, 2)` when no vote was decisive.
    pub fn agreement_fraction(&self) -> (r: (u64, u64))
        requires
            self.total_agree + self.total_reject <= u64::MAX,
        ensures
            r.0 == agreement_fraction_of(self.total_agree as int, self.total_reject as int).0,
            r.1 == agreement_fraction_of(self.total_agree as int, self.total_reject as int).1,
            self.total_agree + self.total_reject > 0 ==> r.0 == self.total_agree && r.1
                == self.total_agree + self.total_reject,
            self.total_agree + self.total_reject == 0 ==> r.0 == 1 && r.1 == 2,
    {
        let decisive = self.total_agree + self.total_reject;
        if decisive > 0 {
            (self.total_agree, decisive)
        } else {
            (1, 2)
        }
    }
}

/// The quorum tree has one level for the warp ballot, one more when the
/// agents fill more than one warp (quorums merge warp ballots), and one more
/// when they fill more than one quorum (the fleet decides over quorums): at
/// most three levels, and exactly three for every fleet above 1024 agents.
pub proof fn lemma_quorum_levels(n: int)
    requires
        n >= 0,
    ensures
        quorum_levels(n) == 1 + (if warps_for(n) > 1 { 1int } else { 0int }) + (if quorums_for(
            warps_for(n),
        ) > 1 {
            1int
        } else {
            0int
        }),
        1 <= quorum_levels(n) <= 3,
        n <= 32 ==> quorum_levels(n) == 1,
        32 < n <= 1024 ==> quorum_levels(n) == 2,
        n > 1024 ==> quorum_levels(n) == 3,
        n > 1024 ==> TREE_LEVEL_CYCLES * quorum_levels(n) == 498,
{
}

/// `n` capped at `len`.
pub open spec fn prefix_len(n: int, len: int) -> int {
    if n < len {
        n
    } else {
        len
    }
}


/// The count of `v` among the first `t` loaded votes of warp `w` is its
/// count among agents `32w .. 32w + t` (the filler votes are Abstain).
proof fn lemma_loaded_count(votes: Seq<Vote>, v: Vote, w: int, t: nat)
    requires
        v != Vote::Abstain,
        0 <= w,
        t <= 32,
    ensures
        count_votes(loaded_votes(all_abstain(), votes, w, votes.len() as int), v, t)
            == count_votes(votes, v, prefix_len(32 * w + t, votes.len() as int) as nat)
            - count_votes(votes, v, prefix_len(32 * w, votes.len() as int) as nat),
    decreases t,
{
    if t > 0 {
        lemma_loaded_count(votes, v, w, (t - 1) as nat);
    }
}

/// The agree (reject) total of the first `k` warps' words is the number of
/// agree (reject) votes among the agents of those warps.
proof fn lemma_words_prefix_counts(votes: Seq<Vote>, k: int)
    requires
        0 <= k <= consensus_words(votes).len(),
    ensures
        total_agree(consensus_words(votes).take(k)) == count_votes(
            votes,
            Vote::Agree,
            prefix_len(32 * k, votes.len() as int) as nat,
        ),
        total_reject(consensus_words(votes).take(k)) == count_votes(
            votes,
            Vote::Reject,
            prefix_len(32 * k, votes.len() as int) as nat,
        ),
    decreases k,
{
    let words = consensus_words(votes);
    if k == 0 {
        assert(words.take(0) =~= Seq::<BallotWord>::empty());
    } else {
        lemma_words_prefix_counts(votes, k - 1);
        assert(words.take(k).drop_last() =~= words.take(k - 1));
        let loaded = loaded_votes(all_abstain(), votes, k - 1, votes.len() as int);
        assert(words.take(k).last() == ballot_of(loaded));
        lemma_collect_tally_counts(loaded);
        lemma_loaded_count(votes, Vote::Agree, k - 1, 32);
        lemma_loaded_count(votes, Vote::Reject, k - 1, 32);
    }
}

/// One consensus round counts every vote: when the fleet's warp count fits
/// its `u32` ids, the agree and reject totals over all quorums are the
/// numbers of Agree and Reject votes.
pub proof fn lemma_consensus_counts_votes(votes: Seq<Vote>)
    requires
        votes.len() <= 32 * (u32::MAX as int),
    ensures
        total_agree(routed_words(votes)) == count_votes(votes, Vote::Agree, votes.len()),
        total_reject(routed_words(votes)) == count_votes(votes, Vote::Reject, votes.len()),
{
    let n = votes.len() as int;
    let words = consensus_words(votes);
    assert(fleet_warp_count(n) == warps_for(n));
    assert(fleet_quorum_count(n) == quorums_for(warps_for(n)));
    assert(32 * quorums_for(warps_for(n)) >= warps_for(n));
    assert(32 * warps_for(n) >= n);
    assert(routed_words(votes) =~= words.take(words.len() as int));
    lemma_words_prefix_counts(votes, words.len() as int);
}

/// A fleet of at most 1024 agents has a single quorum, so its decision is
/// the simple majority of all decisive votes: Accept when agree votes
/// outnumber reject votes, Reject when reject votes outnumber agree votes,
/// Deadlock on a tie.
pub proof fn lemma_single_quorum_majority(votes: Seq<Vote>)
    requires
        votes.len() <= 1024,
    ensures
        consensus_decision(votes) == decide(
            count_votes(votes, Vote::Agree, votes.len()) as int,
            count_votes(votes, Vote::Reject, votes.len()) as int,
        ),
{
    let n = votes.len() as int;
    let words = consensus_words(votes);
    let inboxes = consensus_inboxes(votes);
    let ds = inboxes.map_values(|b: Seq<BallotWord>| merged_decision(b));
    lemma_consensus_counts_votes(votes);
    assert(fleet_warp_count(n) == warps_for(n));
    assert(warps_for(n) <= 32);
    if n == 0 {
        assert(fleet_quorum_count(n) == 0);
        assert(ds.len() == 0);
        assert(count_votes(votes, Vote::Agree, 0) == 0);
        assert(count_votes(votes, Vote::Reject, 0) == 0);
    } else {
        assert(fleet_quorum_count(n) == 1);
        assert(routed_words(votes) =~= words);
        assert(inboxes[0] =~= words);
        let d = ds[0];
        assert(d == merged_decision(words));
        assert(ds.drop_last() =~= Seq::<QuorumDecision>::empty());
        assert(ds.last() == d);
        assert(count_decisions(ds.drop_last(), QuorumDecision::Accept) == 0);
        assert(count_decisions(ds.drop_last(), QuorumDecision::Reject) == 0);
    }
}

/// The count of `v` in a tally.
pub open spec fn vote_total(t: VoteTally, v: Vote) -> u32 {
    match v {
        Vote::Agree => t.agree,
        Vote::Abstain => t.abstain,
        Vote::Reject => t.reject,
    }
}

proof fn lemma_count_unanimous(votes: Seq<Vote>, v: Vote, u: Vote, m: nat)
    requires
        m <= votes.len(),
        forall|i: int| 0 <= i < votes.len() ==> #[trigger] votes[i] == v,
        u != v,
    ensures
        count_votes(votes, v, m) == m,
        count_votes(votes, u, m) == 0,
    decreases m,
{
    if m > 0 {
        lemma_count_unanimous(votes, v, u, (m - 1) as nat);
    }
}

proof fn lemma_totals_all_agree(s: Seq<BallotWord>)
    requires
        forall|i: int| 0 <= i < s.len() ==> tally_of(#[trigger] s[i]).reject == 0 && tally_of(s[i]).agree >= 1,
    ensures
        total_reject(s) == 0,
        s.len() > 0 ==> total_agree(s) >= 1,
    decreases s.len(),
{
    if s.len() > 0 {
        lemma_totals_all_agree(s.drop_last());
        assert(tally_of(s[s.len() - 1]).agree >= 1);
    }
}

proof fn lemma_totals_all_reject(s: Seq<BallotWord>)
    requires
        forall|i: int| 0 <= i < s.len() ==> tally_of(#[trigger] s[i]).agree == 0 && tally_of(s[i]).reject >= 1,
    ensures
        total_agree(s) == 0,
        s.len() > 0 ==> total_reject(s) >= 1,
    decreases s.len(),
{
    if s.len() > 0 {
        lemma_totals_all_reject(s.drop_last());
        assert(tally_of(s[s.len() - 1]).reject >= 1);
    }
}

proof fn lemma_count_decisions_all(ds: Seq<QuorumDecision>, d: QuorumDecision, e: QuorumDecision)
    requires
        forall|i: int| 0 <= i < ds.len() ==> #[trigger] ds[i] == d,
        e != d,
    ensures
        count_decisions(ds, d) == ds.len(),
        count_decisions(ds, e) == 0,
    decreases ds.len(),
{
    if ds.len() > 0 {
        lemma_count_decisions_all(ds.drop_last(), d, e);
        assert(ds.last() == ds[ds.len() - 1]);
    }
}

/// A unanimous fleet decides unanimously: when every agent votes Agree the
/// fleet accepts, when every agent votes Reject it rejects (for a nonempty
/// fleet whose warp count fits its `u32` ids).
pub proof fn lemma_unanimous_decision(votes: Seq<Vote>, v: Vote)
    requires
        v != Vote::Abstain,
        0 < votes.len() <= 32 * (u32::MAX as int),
        forall|i: int| 0 <= i < votes.len() ==> #[trigger] votes[i] == v,
    ensures
        consensus_decision(votes) == if v == Vote::Agree {
            QuorumDecision::Accept
        } else {
            QuorumDecision::Reject
        },
{
    let n = votes.len() as int;
    let words = consensus_words(votes);
    let nw = words.len() as int;
    let nq = fleet_quorum_count(n);
    let u = if v == Vote::Agree { Vote::Reject } else { Vote::Agree };
    let d = if v == Vote::Agree { QuorumDecision::Accept } else { QuorumDecision::Reject };
    let e = if v == Vote::Agree { QuorumDecision::Reject } else { QuorumDecision::Accept };
    assert(nw == warps_for(n));
    assert(nq == quorums_for(warps_for(n)));
    // Every warp word counts at least one vote `v` and none of `u`.
    assert forall|w: int| 0 <= w < nw implies vote_total(tally_of(#[trigger] words[w]), v) >= 1
        && vote_total(tally_of(words[w]), u) == 0 by {
        let loaded = loaded_votes(all_abstain(), votes, w, n);
        assert(words[w] == ballot_of(loaded));
        lemma_collect_tally_counts(loaded);
        lemma_loaded_count(votes, v, w, 32);
        lemma_loaded_count(votes, u, w, 32);
        assert(32 * w < n);
        lemma_count_unanimous(votes, v, u, prefix_len(32 * w + 32, n) as nat);
        lemma_count_unanimous(votes, v, u, prefix_len(32 * w, n) as nat);
    }
    let inboxes = consensus_inboxes(votes);
    let ds = inboxes.map_values(|b: Seq<BallotWord>| merged_decision(b));
    assert forall|q: int| 0 <= q < ds.len() implies #[trigger] ds[q] == d by {
        let share = routed(words, q, nw);
        assert(inboxes[q] == share);
        assert(32 * q < nw);
        assert(share.len() > 0);
        if v == Vote::Agree {
            assert forall|i: int| 0 <= i < share.len() implies tally_of(#[trigger] share[i]).reject
                == 0 && tally_of(share[i]).agree >= 1 by {
                assert(share[i] == words[32 * q + i]);
            }
            lemma_totals_all_agree(share);
        } else {
            assert forall|i: int| 0 <= i < share.len() implies tally_of(#[trigger] share[i]).agree
                == 0 && tally_of(share[i]).reject >= 1 by {
                assert(share[i] == words[32 * q + i]);
            }
            lemma_totals_all_reject(share);
        }
    }
    lemma_count_decisions_all(ds, d, e);
    assert(ds.len() == nq);
    assert(nq >= 1);
}

} // verus!
