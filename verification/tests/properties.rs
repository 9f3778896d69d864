use warp_vote_consensus::ballot::{BallotWord, VoteTally};
use warp_vote_consensus::bits::count_ones;
use warp_vote_consensus::comparison::ConsensusComparison;
use warp_vote_consensus::fleet::Fleet;
use warp_vote_consensus::packed::PackedVoteBuffer;
use warp_vote_consensus::quorum::{Quorum, QuorumDecision};
use warp_vote_consensus::vote::Vote;
use warp_vote_consensus::warp::Warp;

fn fleet_decision(votes: &[Vote]) -> QuorumDecision {
    let mut fleet = Fleet::new(votes.len());
    fleet.load_votes(votes);
    fleet.run_consensus()
}

#[test]
fn vote_codes_are_two_bits() {
    assert_eq!(Vote::Reject.to_bits(), 0b00);
    assert_eq!(Vote::Abstain.to_bits(), 0b01);
    assert_eq!(Vote::Agree.to_bits(), 0b10);
    // only the low two bits are read
    assert_eq!(Vote::from_bits(0b110), Some(Vote::Agree));
    assert_eq!(Vote::from_bits(0b1101), Some(Vote::Abstain));
    assert_eq!(Vote::from_bits(0xff), None);
}

#[test]
fn count_ones_counts_bits() {
    assert_eq!(count_ones(0), 0);
    assert_eq!(count_ones(0xFFFF_FFFF), 32);
    assert_eq!(count_ones(0b1011), 3);
    assert_eq!(count_ones(0x8000_0001), 2);
}

#[test]
fn collect_sets_thread_bits() {
    let mut votes = [Vote::Reject; 32];
    votes[0] = Vote::Agree;
    votes[3] = Vote::Abstain;
    votes[31] = Vote::Agree;
    let b = BallotWord::collect(&votes);
    assert_eq!(b.positive, 0x8000_0009);
    assert_eq!(b.agree, 0x8000_0001);
}

#[test]
fn ballot_bytes_are_little_endian() {
    let b = BallotWord { positive: 0x0403_0201, agree: 0x8877_6655 };
    assert_eq!(b.to_bytes(), [0x01, 0x02, 0x03, 0x04, 0x55, 0x66, 0x77, 0x88]);
    let read = BallotWord::from_bytes(&[0xff, 0, 0, 0x80, 1, 0, 0, 0]);
    assert_eq!(read, BallotWord { positive: 0x8000_00ff, agree: 1 });
}

#[test]
fn bytes_ballot_bytes_roundtrip() {
    let bytes = [9u8, 8, 7, 6, 5, 4, 3, 2];
    assert_eq!(BallotWord::from_bytes(&bytes).to_bytes(), bytes);
    let b = BallotWord { positive: 0xDEAD_BEEF, agree: 0x0BAD_F00D };
    assert_eq!(BallotWord::from_bytes(&b.to_bytes()), b);
}

#[test]
fn tally_partitions_collected_ballot() {
    let votes: Vec<Vote> = (0..32)
        .map(|i| match i % 5 {
            0 | 1 => Vote::Agree,
            2 => Vote::Reject,
            _ => Vote::Abstain,
        })
        .collect();
    let arr: [Vote; 32] = votes.clone().try_into().unwrap();
    let t = BallotWord::collect(&arr).tally();
    let count = |v: Vote| votes.iter().filter(|&&x| x == v).count() as u32;
    assert_eq!(t.agree, count(Vote::Agree));
    assert_eq!(t.reject, count(Vote::Reject));
    assert_eq!(t.abstain, count(Vote::Abstain));
    assert_eq!(t.agree + t.abstain + t.reject, 32);
    assert_eq!(t.total, 32);
}

#[test]
fn tally_of_malformed_word_counts_raw_bits() {
    // agree bits outside positive: counted as agree and as reject
    let t = BallotWord { positive: 0, agree: 1 }.tally();
    assert_eq!((t.agree, t.abstain, t.reject), (1, 0, 32));
}

#[test]
fn majority_is_agree_over_reject() {
    let b = BallotWord { positive: 0b111, agree: 0b1 }; // 1 agree, 2 abstain, 29 reject
    assert!(!b.majority_agree());
    let all_abstain = BallotWord { positive: 0xFFFF_FFFF, agree: 0 };
    assert!(!all_abstain.majority_agree());
    let one_agree = BallotWord { positive: 0xFFFF_FFFF, agree: 1 };
    assert!(one_agree.majority_agree());
}

#[test]
fn agreement_fraction_values() {
    let t = VoteTally { agree: 3, abstain: 0, reject: 1, total: 32 };
    assert_eq!(t.agreement_fraction(), (3, 4));
    let none = VoteTally { agree: 0, abstain: 32, reject: 0, total: 32 };
    assert_eq!(none.agreement_fraction(), (1, 2));
}

#[test]
fn warp_tally_follows_ballot() {
    let mut warp = Warp::new(7);
    assert!(warp.tally().is_none());
    warp.set_vote(5, Vote::Reject);
    let word = warp.execute_ballot();
    assert_eq!(warp.ballot, Some(word));
    let t = warp.tally().unwrap();
    assert_eq!((t.agree, t.abstain, t.reject), (0, 31, 1));
    warp.execute_ballot();
    assert_eq!(warp.cycles, 32);
    assert_eq!(warp.warp_id, 7);
}

#[test]
fn quorum_total_tally_sums_ballots() {
    let mut q = Quorum::new(3);
    q.receive_a2a_message(&BallotWord { positive: 0xFF, agree: 0x0F }.to_bytes());
    q.receive_a2a_message(&BallotWord { positive: 0xFFFF_FFFF, agree: 0 }.to_bytes());
    assert_eq!(q.total_tally(), (4, 4 + 32, 24));
    assert_eq!(q.merge_and_decide(), QuorumDecision::Reject);
    assert_eq!(q.decision, Some(QuorumDecision::Reject));
}

#[test]
fn quorum_merge_order_independent() {
    let a = BallotWord { positive: 0xFFFF_FFFF, agree: 0x0000_FFFF };
    let r = BallotWord { positive: 0x0000_00FF, agree: 0 };
    let m = BallotWord { positive: 0xFFFF_0000, agree: 0xFF00_0000 };
    let mut q1 = Quorum::new(0);
    let mut q2 = Quorum::new(1);
    for b in [a, r, m] {
        q1.receive_a2a_message(&b.to_bytes());
    }
    for b in [m, a, r] {
        q2.receive_a2a_message(&b.to_bytes());
    }
    assert_eq!(q1.total_tally(), q2.total_tally());
    assert_eq!(q1.merge_and_decide(), q2.merge_and_decide());
}

#[test]
fn quorum_duplicating_every_ballot_keeps_decision() {
    let agree = BallotWord { positive: 0xFFFF_FFFF, agree: 0xFFFF_FFFF };
    let reject = BallotWord { positive: 0, agree: 0 };
    let mut once = Quorum::new(0);
    let mut twice = Quorum::new(1);
    for b in [agree, reject, reject] {
        once.receive_a2a_message(&b.to_bytes());
    }
    for b in [agree, reject, reject, agree, reject, reject] {
        twice.receive_a2a_message(&b.to_bytes());
    }
    assert_eq!(once.merge_and_decide(), QuorumDecision::Reject);
    assert_eq!(twice.merge_and_decide(), QuorumDecision::Reject);
}

#[test]
fn quorum_single_duplicate_changes_sum() {
    // The merge sums tallies, so one duplicated message counts twice.
    let agree = BallotWord { positive: 0xFFFF_FFFF, agree: 0xFFFF_FFFF };
    let reject = BallotWord { positive: 0, agree: 0 };
    let mut q = Quorum::new(0);
    for b in [agree, reject, agree] {
        q.receive_a2a_message(&b.to_bytes());
    }
    assert_eq!(q.merge_and_decide(), QuorumDecision::Accept);
}

#[test]
fn small_fleet_is_simple_majority() {
    let mut votes = vec![Vote::Agree; 40];
    votes.extend(vec![Vote::Reject; 30]);
    votes.extend(vec![Vote::Abstain; 30]);
    assert_eq!(fleet_decision(&votes), QuorumDecision::Accept);
    let mut votes = vec![Vote::Reject; 40];
    votes.extend(vec![Vote::Agree; 30]);
    assert_eq!(fleet_decision(&votes), QuorumDecision::Reject);
    let mut votes = vec![Vote::Agree; 500];
    votes.extend(vec![Vote::Reject; 500]);
    assert_eq!(fleet_decision(&votes), QuorumDecision::Deadlock);
}

#[test]
fn unanimous_reject_fleet_rejects() {
    assert_eq!(fleet_decision(&vec![Vote::Reject; 5_000]), QuorumDecision::Reject);
    assert_eq!(fleet_decision(&vec![Vote::Agree; 33]), QuorumDecision::Accept);
}

#[test]
fn fleet_decides_by_quorum_majority() {
    // Quorum 0 (agents 0..1024) narrowly agrees, quorum 1 (agents 1024..2048)
    // strongly rejects: one Accept, one Reject quorum → fleet deadlock.
    let mut votes = vec![Vote::Agree; 520];
    votes.extend(vec![Vote::Reject; 504]);
    votes.extend(vec![Vote::Reject; 1024]);
    let mut fleet = Fleet::new(votes.len());
    fleet.load_votes(&votes);
    assert_eq!(fleet.run_consensus(), QuorumDecision::Deadlock);
    assert_eq!(fleet.quorums[0].decision, Some(QuorumDecision::Accept));
    assert_eq!(fleet.quorums[1].decision, Some(QuorumDecision::Reject));
    assert_eq!(fleet.stats.final_decision, Some(QuorumDecision::Deadlock));
}

#[test]
fn empty_fleet_deadlocks() {
    let mut fleet = Fleet::new(0);
    assert_eq!(fleet.warps.len(), 0);
    assert_eq!(fleet.quorums.len(), 0);
    assert_eq!(fleet.run_consensus(), QuorumDecision::Deadlock);
    assert_eq!(fleet.stats.total_cycles, 0);
    assert_eq!(fleet.stats.critical_path_cycles, 150);
}

#[test]
fn fleet_sizing_and_stats() {
    let mut fleet = Fleet::new(1025);
    assert_eq!(fleet.warps.len(), 33);
    assert_eq!(fleet.quorums.len(), 2);
    assert_eq!(fleet.warps[32].warp_id, 32);
    assert_eq!(fleet.quorums[1].quorum_id, 1);
    fleet.load_votes(&vec![Vote::Agree; 1025]);
    fleet.run_consensus();
    assert_eq!(fleet.stats.total_agents, 1025);
    assert_eq!(fleet.stats.total_warps, 33);
    assert_eq!(fleet.stats.total_quorums, 2);
    assert_eq!(fleet.stats.total_cycles, 33 * 16);
    assert_eq!(fleet.stats.critical_path_cycles, 16 + 100 + 50);
    assert_eq!(fleet.quorums[0].warp_count(), 32);
    assert_eq!(fleet.quorums[1].warp_count(), 1);
}

#[test]
fn load_votes_ignores_extra_agents() {
    let mut fleet = Fleet::new(10); // one warp
    let mut votes = vec![Vote::Reject; 32];
    votes.extend(vec![Vote::Agree; 40]);
    fleet.load_votes(&votes);
    assert_eq!(fleet.warps.len(), 1);
    assert_eq!(fleet.warps[0].agents, [Vote::Reject; 32]);
    assert_eq!(fleet.run_consensus(), QuorumDecision::Reject);
}

#[test]
fn comparison_counts_votes() {
    let votes: Vec<Vote> = (0..10_000)
        .map(|i| match i % 4 {
            0 => Vote::Abstain,
            1 => Vote::Reject,
            _ => Vote::Agree,
        })
        .collect();
    let cmp = ConsensusComparison::run(&votes);
    assert_eq!(cmp.total_agree, 5_000);
    assert_eq!(cmp.total_reject, 2_500);
    assert_eq!(cmp.cpu_mutex_cycles, 1_000_000);
    assert_eq!(cmp.warp_critical_path_cycles, 3 * 166);
    assert_eq!(cmp.agreement_fraction(), (5_000, 7_500));
    assert_eq!(cmp.decision, QuorumDecision::Accept);
}

#[test]
fn comparison_tree_levels() {
    assert_eq!(ConsensusComparison::run(&vec![Vote::Agree; 32]).warp_critical_path_cycles, 166);
    assert_eq!(ConsensusComparison::run(&vec![Vote::Agree; 33]).warp_critical_path_cycles, 332);
    assert_eq!(ConsensusComparison::run(&vec![Vote::Agree; 1025]).warp_critical_path_cycles, 498);
    let none = ConsensusComparison::run(&vec![Vote::Abstain; 64]);
    assert_eq!(none.agreement_fraction(), (1, 2));
    assert_eq!(none.decision, QuorumDecision::Deadlock);
}

#[test]
fn packed_layout_and_sizes() {
    let votes = vec![Vote::Agree, Vote::Abstain, Vote::Reject, Vote::Agree];
    let packed = PackedVoteBuffer::pack(&votes);
    assert_eq!(packed.bytes(), 4);
    assert_eq!(packed.unpack(), votes);
    let seventeen = vec![Vote::Abstain; 17];
    let packed = PackedVoteBuffer::pack(&seventeen);
    assert_eq!(packed.bytes(), 8);
    assert_eq!(packed.clone().unpack(), seventeen);
    let empty = PackedVoteBuffer::pack(&[]);
    assert_eq!(empty.bytes(), 0);
    assert!(empty.unpack().is_empty());
}

#[test]
fn quorum_redecide_is_stable() {
    let mut q = Quorum::new(4);
    q.receive_a2a_message(&BallotWord { positive: 0xFFFF, agree: 0xFF }.to_bytes());
    q.receive_a2a_message(&BallotWord { positive: 0xFFFF_FFFF, agree: 0xFFFF_0000 }.to_bytes());
    let tally_before = q.total_tally();
    let d1 = q.merge_and_decide();
    let d2 = q.merge_and_decide();
    assert_eq!(d1, QuorumDecision::Accept);
    assert_eq!(d2, d1);
    assert_eq!(q.decision, Some(d1));
    assert_eq!(q.warp_count(), 2);
    assert_eq!(q.total_tally(), tally_before);
}

#[test]
fn vote_trits() {
    assert_eq!(Vote::Reject.to_trit(), -1);
    assert_eq!(Vote::Abstain.to_trit(), 0);
    assert_eq!(Vote::Agree.to_trit(), 1);
}
