use warp_vote_consensus::ballot::{BallotWord, VoteTally};
use warp_vote_consensus::comparison::ConsensusComparison;
use warp_vote_consensus::fleet::Fleet;
use warp_vote_consensus::packed::PackedVoteBuffer;
use warp_vote_consensus::quorum::{Quorum, QuorumDecision};
use warp_vote_consensus::vote::Vote;
use warp_vote_consensus::warp::Warp;

fn rate(fraction: (u32, u32)) -> f64 {
    fraction.0 as f64 / fraction.1 as f64
}

// ── Vote encoding ────────────────────────────────────────────────────────

#[test]
fn vote_roundtrip_bits() {
    for v in [Vote::Agree, Vote::Abstain, Vote::Reject] {
        assert_eq!(Vote::from_bits(v.to_bits()), Some(v));
    }
}

#[test]
fn bits_0b11_is_none() {
    assert_eq!(Vote::from_bits(0b11), None);
}

// ── BallotWord ───────────────────────────────────────────────────────────

#[test]
fn unanimous_agree_ballot() {
    let votes = [Vote::Agree; 32];
    let b = BallotWord::collect(&votes);
    assert_eq!(b.positive, 0xFFFF_FFFF);
    assert_eq!(b.agree, 0xFFFF_FFFF);
    let t = b.tally();
    assert_eq!(t.agree, 32);
    assert_eq!(t.abstain, 0);
    assert_eq!(t.reject, 0);
    assert!(b.majority_agree());
}

#[test]
fn unanimous_reject_ballot() {
    let votes = [Vote::Reject; 32];
    let b = BallotWord::collect(&votes);
    assert_eq!(b.positive, 0);
    assert_eq!(b.agree, 0);
    let t = b.tally();
    assert_eq!(t.reject, 32);
    assert!(!b.majority_agree());
}

#[test]
fn mixed_ballot_tally() {
    let mut votes = [Vote::Abstain; 32];
    // 17 agree, 10 reject, 5 abstain
    for i in 0..17 {
        votes[i] = Vote::Agree;
    }
    for i in 17..27 {
        votes[i] = Vote::Reject;
    }
    let b = BallotWord::collect(&votes);
    let t = b.tally();
    assert_eq!(t.agree, 17);
    assert_eq!(t.reject, 10);
    assert_eq!(t.abstain, 5);
    assert!(b.majority_agree()); // 17 > 10
}

#[test]
fn split_vote_no_majority() {
    let mut votes = [Vote::Abstain; 32];
    for i in 0..16 {
        votes[i] = Vote::Agree;
    }
    for i in 16..32 {
        votes[i] = Vote::Reject;
    }
    let b = BallotWord::collect(&votes);
    assert!(!b.majority_agree()); // exactly tied
}

#[test]
fn ballot_serialization_roundtrip() {
    let mut votes = [Vote::Abstain; 32];
    votes[0] = Vote::Agree;
    votes[31] = Vote::Reject;
    let original = BallotWord::collect(&votes);
    let bytes = original.to_bytes();
    let recovered = BallotWord::from_bytes(&bytes);
    assert_eq!(original, recovered);
}

// ── Warp ────────────────────────────────────────────────────────────────

#[test]
fn warp_ballot_cycle_cost() {
    let mut warp = Warp::new(0);
    for i in 0..32 {
        warp.set_vote(i, Vote::Agree);
    }
    warp.execute_ballot();
    // 8 setup + 4 + 4 (two ballot passes) = 16 cycles
    assert_eq!(warp.cycles, 16);
}

#[test]
fn warp_partial_participation() {
    let mut warp = Warp::new(42);
    // Only 20 threads vote Agree, 12 default Abstain
    for i in 0..20 {
        warp.set_vote(i, Vote::Agree);
    }
    let ballot = warp.execute_ballot();
    let t = ballot.tally();
    assert_eq!(t.agree, 20);
    assert_eq!(t.abstain, 12);
    assert_eq!(t.reject, 0);
}

// ── Quorum ───────────────────────────────────────────────────────────────

#[test]
fn quorum_receives_warp_messages() {
    let mut q = Quorum::new(0);
    // Two warps both unanimously agree
    let agree_ballot = BallotWord { positive: 0xFFFF_FFFF, agree: 0xFFFF_FFFF };
    q.receive_a2a_message(&agree_ballot.to_bytes());
    q.receive_a2a_message(&agree_ballot.to_bytes());
    assert_eq!(q.warp_count(), 2);
    assert_eq!(q.merge_and_decide(), QuorumDecision::Accept);
}

#[test]
fn quorum_mixed_warp_decisions() {
    let mut q = Quorum::new(1);
    // 2 warps agree, 1 rejects
    let agree = BallotWord { positive: 0xFFFF_FFFF, agree: 0xFFFF_FFFF };
    let reject = BallotWord { positive: 0, agree: 0 };
    q.receive_a2a_message(&agree.to_bytes());
    q.receive_a2a_message(&agree.to_bytes());
    q.receive_a2a_message(&reject.to_bytes());
    // 2*32 agree vs 1*32 reject → Accept
    assert_eq!(q.merge_and_decide(), QuorumDecision::Accept);
}

#[test]
fn quorum_deadlock_on_exact_split() {
    let mut q = Quorum::new(2);
    let agree = BallotWord { positive: 0xFFFF_FFFF, agree: 0xFFFF_FFFF };
    let reject = BallotWord { positive: 0, agree: 0 };
    q.receive_a2a_message(&agree.to_bytes());
    q.receive_a2a_message(&reject.to_bytes());
    assert_eq!(q.merge_and_decide(), QuorumDecision::Deadlock);
}

// ── Fleet ────────────────────────────────────────────────────────────────

#[test]
fn fleet_10000_agents_unanimous() {
    let votes: Vec<Vote> = vec![Vote::Agree; 10_000];
    let mut fleet = Fleet::new(10_000);
    fleet.load_votes(&votes);
    let decision = fleet.run_consensus();
    assert_eq!(decision, QuorumDecision::Accept);
    assert!(fleet.stats.total_cycles > 0);
}

#[test]
fn fleet_majority_wins() {
    let mut votes: Vec<Vote> = vec![Vote::Agree; 6_000];
    votes.extend(vec![Vote::Reject; 4_000]);
    let mut fleet = Fleet::new(10_000);
    fleet.load_votes(&votes);
    assert_eq!(fleet.run_consensus(), QuorumDecision::Accept);
}

#[test]
fn fleet_scaling() {
    for n in [32, 64, 1024, 10_000] {
        let votes: Vec<Vote> = (0..n)
            .map(|i| if i % 3 == 0 { Vote::Reject } else { Vote::Agree })
            .collect();
        let mut fleet = Fleet::new(n);
        fleet.load_votes(&votes);
        let d = fleet.run_consensus();
        // 2/3 agree → should Accept at all scales
        assert_eq!(d, QuorumDecision::Accept, "failed at n={}", n);
    }
}

#[test]
fn fleet_stats_populated() {
    let votes = vec![Vote::Agree; 1024];
    let mut fleet = Fleet::new(1024);
    fleet.load_votes(&votes);
    fleet.run_consensus();
    assert_eq!(fleet.stats.total_warps, 32);
    assert_eq!(fleet.stats.total_quorums, 1);
    assert!(fleet.stats.total_cycles > 0);
}

// ── Consensus comparison (GPU vs CPU baseline) ────────────────────────────

#[test]
fn gpu_warp_vote_outperforms_cpu_mutex() {
    let votes: Vec<Vote> = (0..10_000)
        .map(|i| if i % 4 != 0 { Vote::Agree } else { Vote::Abstain })
        .collect();

    let cmp = ConsensusComparison::run(&votes);
    assert_eq!(cmp.n_agents, 10_000);
    // GPU critical path is constant (one warp deep), CPU scales with n.
    let speedup = cmp.cpu_mutex_cycles as f64 / cmp.warp_critical_path_cycles as f64;
    assert!(speedup > 10.0, "expected >10× speedup, got {:.1}×", speedup);
    assert_eq!(cmp.decision, QuorumDecision::Accept);
    let (num, den) = cmp.agreement_fraction();
    let agreement_rate = num as f64 / den as f64;
    println!(
        "\nConsensus comparison — {} agents:\n  GPU critical path: {} cycles\n  CPU mutex: {} cycles\n  Speedup: {:.1}×\n  Agreement rate: {:.1}%",
        cmp.n_agents,
        cmp.warp_critical_path_cycles,
        cmp.cpu_mutex_cycles,
        speedup,
        agreement_rate * 100.0
    );
}

// ── Packed vote buffer ────────────────────────────────────────────────────

#[test]
fn packed_vote_buffer_roundtrip() {
    let votes: Vec<Vote> = (0..100)
        .map(|i| match i % 3 {
            0 => Vote::Agree,
            1 => Vote::Abstain,
            _ => Vote::Reject,
        })
        .collect();

    let packed = PackedVoteBuffer::pack(&votes);
    let unpacked = packed.unpack();
    assert_eq!(votes, unpacked);
}

#[test]
fn packed_buffer_density() {
    let votes = vec![Vote::Agree; 1024];
    let packed = PackedVoteBuffer::pack(&votes);
    // 1024 votes × 2 bits = 256 bytes (vs 4096 bytes for i32 array)
    assert_eq!(packed.bytes(), 256);
    assert_eq!(packed.density_ratio_vs_i32() as f64, 16.0);
}

#[test]
fn packed_buffer_wire_size_scales() {
    // For 10K agents sending votes to a quorum coordinator:
    let votes = vec![Vote::Agree; 10_000];
    let packed = PackedVoteBuffer::pack(&votes);
    // 10,000 × 2 bits = 2,500 bytes (vs 40,000 for i32)
    assert_eq!(packed.bytes(), 2_500);
}

// ── Agreement rate metric ─────────────────────────────────────────────────

#[test]
fn agreement_rate_unanimous() {
    let t = VoteTally { agree: 32, abstain: 0, reject: 0, total: 32 };
    assert!((rate(t.agreement_fraction()) - 1.0).abs() < 1e-9);
}

#[test]
fn agreement_rate_split() {
    let t = VoteTally { agree: 16, abstain: 8, reject: 8, total: 32 };
    // 16 agree / (16+8) decisive = 0.667
    assert!((rate(t.agreement_fraction()) - (16.0 / 24.0)).abs() < 1e-9);
}

#[test]
fn agreement_rate_all_abstain() {
    let t = VoteTally { agree: 0, abstain: 32, reject: 0, total: 32 };
    // No decisive votes → 0.5 (neutral)
    assert!((rate(t.agreement_fraction()) - 0.5).abs() < 1e-9);
}
