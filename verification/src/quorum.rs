use vstd::prelude::*;

use crate::ballot::{ballot_from_bytes, lemma_tally_conservation, tally_of, BallotWord};
use crate::bits::lemma_popcount_bound;

verus! {

/// The outcome of a quorum vote after merging warp ballots.
#[derive(Debug, Clone, Copy, PartialEq, Eq, Structural)]
pub enum QuorumDecision {
    Accept,
    Reject,
    /// agree == reject, no majority
    Deadlock,
}

/// A quorum of up to 32 warps. The quorum leader aggregates warp ballots
/// received as A2A messages and produces a combined decision.
#[derive(Debug)]
pub struct Quorum {
    pub quorum_id: u32,
    /// The warp ballots received so far, in arrival order.
    pub warp_ballots: Vec<BallotWord>,
    pub decision: Option<QuorumDecision>,
}

/// The decision rule: more agree than reject accepts, more reject than agree
/// rejects, a tie is a deadlock.
pub open spec fn decide(agree: int, reject: int) -> QuorumDecision {
    if agree > reject {
        QuorumDecision::Accept
    } else if reject > agree {
        QuorumDecision::Reject
    } else {
        QuorumDecision::Deadlock
    }
}

/// The sum of the agree tallies of a sequence of ballots.
pub open spec fn total_agree(s: Seq<BallotWord>) -> nat
    decreases s.len(),
{
    if s.len() == 0 {
        0
    } else {
        total_agree(s.drop_last()) + tally_of(s.last()).agree as nat
    }
}

/// The sum of the abstain tallies of a sequence of ballots.
pub open spec fn total_abstain(s: Seq<BallotWord>) -> nat
    decreases s.len(),
{
    if s.len() == 0 {
        0
    } else {
        total_abstain(s.drop_last()) + tally_of(s.last()).abstain as nat
    }
}

/// The sum of the reject tallies of a sequence of ballots.
pub open spec fn total_reject(s: Seq<BallotWord>) -> nat
    decreases s.len(),
{
    if s.len() == 0 {
        0
    } else {
        total_reject(s.drop_last()) + tally_of(s.last()).reject as nat
    }
}

/// The decision of a quorum holding the ballots `s`.
pub open spec fn merged_decision(s: Seq<BallotWord>) -> QuorumDecision {
    decide(total_agree(s) as int, total_reject(s) as int)
}

impl Quorum {
    /// The ballots held by the quorum.
    pub open spec fn ballots(&self) -> Seq<BallotWord> {
        self.warp_ballots@
    }

    /// A quorum that has received nothing and decided nothing.
    pub open spec fn is_fresh(&self, quorum_id: u32) -> bool {
        &&& self.quorum_id == quorum_id
        &&& self.ballots() == Seq::<BallotWord>::empty()
        &&& self.decision is None
    }

    pub fn new(quorum_id: u32) -> (r: Self)
        ensures
            r.is_fresh(quorum_id),
    {
        Quorum { quorum_id, warp_ballots: Vec::new(), decision: None }
    }

    /// Receive a warp ballot as an A2A message (serialized as 8 bytes).
    pub fn receive_a2a_message(&mut self, msg: &[u8; 8])
        ensures
            final(self).ballots() == old(self).ballots().push(ballot_from_bytes(msg@)),
            final(self).quorum_id == old(self).quorum_id,
            final(self).decision == old(self).decision,
    {
        let b = BallotWord::from_bytes(msg);
        self.warp_ballots.push(b);
    }

    /// Merge all warp ballots by summing their tallies, and decide.
    ///
    /// The merge is a sum, so the order in which warps report does not matter,
    /// and merging again without new messages decides the same. A message
    /// names no warp, so every message received counts, a repeated one too:
    /// two warps with equal ballots send equal messages.
    pub fn merge_and_decide(&mut self) -> (r: QuorumDecision)
        requires
            total_agree(old(self).ballots()) <= u64::MAX,
            total_reject(old(self).ballots()) <= u64::MAX,
        ensures
            r == merged_decision(old(self).ballots()),
            (r == QuorumDecision::Accept) <==> total_agree(old(self).ballots()) > total_reject(
                old(self).ballots(),
            ),
            (r == QuorumDecision::Reject) <==> total_reject(old(self).ballots()) > total_agree(
                old(self).ballots(),
            ),
            (r == QuorumDecision::Deadlock) <==> total_agree(old(self).ballots()) == total_reject(
                old(self).ballots(),
            ),
            final(self).decision == Some(r),
            final(self).ballots() == old(self).ballots(),
            final(self).quorum_id == old(self).quorum_id,
    {
        let ghost s = self.ballots();
        let mut total_a: u64 = 0;
        let mut total_r: u64 = 0;
        let mut i: usize = 0;
        while i < self.warp_ballots.len()
            invariant
                s == self.ballots(),
                i <= s.len(),
                total_a == total_agree(s.take(i as int)),
                total_r == total_reject(s.take(i as int)),
                total_agree(s) <= u64::MAX,
                total_reject(s) <= u64::MAX,
            decreases s.len() - i,
        {
            let t = self.warp_ballots[i].tally();
            proof {
                assert(s.take(i + 1).drop_last() =~= s.take(i as int));
                lemma_totals_prefix(s, i + 1);
            }
            total_a = total_a + t.agree as u64;
            total_r = total_r + t.reject as u64;
            i = i + 1;
        }
        proof {
            assert(s.take(s.len() as int) =~= s);
        }
        let decision = if total_a > total_r {
            QuorumDecision::Accept
        } else if total_r > total_a {
            QuorumDecision::Reject
        } else {
            QuorumDecision::Deadlock
        };
        self.decision = Some(decision);
        decision
    }

    pub fn warp_count(&self) -> (r: usize)
        ensures
            r == self.ballots().len(),
    {
        self.warp_ballots.len()
    }

    /// The summed (agree, abstain, reject) tallies of all received ballots.
    pub fn total_tally(&self) -> (r: (u64, u64, u64))
        requires
            total_agree(self.ballots()) <= u64::MAX,
            total_abstain(self.ballots()) <= u64::MAX,
            total_reject(self.ballots()) <= u64::MAX,
        ensures
            r == (
                total_agree(self.ballots()) as u64,
                total_abstain(self.ballots()) as u64,
                total_reject(self.ballots()) as u64,
            ),
    {
        let ghost s = self.ballots();
        let mut a: u64 = 0;
        let mut ab: u64 = 0;
        let mut rj: u64 = 0;
        let mut i: usize = 0;
        while i < self.warp_ballots.len()
            invariant
                s == self.ballots(),
                i <= s.len(),
                a == total_agree(s.take(i as int)),
                ab == total_abstain(s.take(i as int)),
                rj == total_reject(s.take(i as int)),
                total_agree(s) <= u64::MAX,
                total_abstain(s) <= u64::MAX,
                total_reject(s) <= u64::MAX,
            decreases s.len() - i,
        {
            let t = self.warp_ballots[i].tally();
            proof {
                assert(s.take(i + 1).drop_last() =~= s.take(i as int));
                lemma_totals_prefix(s, i + 1);
            }
            a = a + t.agree as u64;
            ab = ab + t.abstain as u64;
            rj = rj + t.reject as u64;
            i = i + 1;
        }
        proof {
            assert(s.take(s.len() as int) =~= s);
        }
        (a, ab, rj)
    }
}

/// The decision rule: Accept exactly when agree outnumbers reject, Reject
/// exactly when reject outnumbers agree, by any margin, and Deadlock exactly
/// on a tie.
pub proof fn lemma_decide_rule(agree: int, reject: int)
    ensures
        (decide(agree, reject) == QuorumDecision::Accept) <==> agree > reject,
        (decide(agree, reject) == QuorumDecision::Reject) <==> reject > agree,
        (decide(agree, reject) == QuorumDecision::Deadlock) <==> agree == reject,
        decide(agree, reject) == QuorumDecision::Accept <==> decide(reject, agree)
            == QuorumDecision::Reject,
{
}

/// A quorum accepts exactly when its summed agree tally exceeds its summed
/// reject tally, rejects exactly when the reject tally exceeds the agree
/// tally, and deadlocks exactly when they are equal.
pub proof fn lemma_merged_decision_rule(s: Seq<BallotWord>)
    ensures
        (merged_decision(s) == QuorumDecision::Accept) <==> total_agree(s) > total_reject(s),
        (merged_decision(s) == QuorumDecision::Reject) <==> total_reject(s) > total_agree(s),
        (merged_decision(s) == QuorumDecision::Deadlock) <==> total_agree(s) == total_reject(s),
{
}

/// The totals of a prefix are at most the totals of the whole sequence.
pub proof fn lemma_totals_prefix(s: Seq<BallotWord>, n: int)
    requires
        0 <= n <= s.len(),
    ensures
        total_agree(s.take(n)) <= total_agree(s),
        total_abstain(s.take(n)) <= total_abstain(s),
        total_reject(s.take(n)) <= total_reject(s),
    decreases s.len(),
{
    if n == s.len() {
        assert(s.take(n) =~= s);
    } else {
        assert(s.drop_last().take(n) =~= s.take(n));
        lemma_totals_prefix(s.drop_last(), n);
    }
}

/// Merging is additive: the totals of two concatenated ballot sequences are
/// the sums of their totals. Merging quorums in any grouping gives the same totals.
pub proof fn lemma_totals_concat(a: Seq<BallotWord>, b: Seq<BallotWord>)
    ensures
        total_agree(a + b) == total_agree(a) + total_agree(b),
        total_abstain(a + b) == total_abstain(a) + total_abstain(b),
        total_reject(a + b) == total_reject(a) + total_reject(b),
    decreases b.len(),
{
    if b.len() == 0 {
        assert(a + b =~= a);
    } else {
        assert((a + b).drop_last() =~= a + b.drop_last());
        assert((a + b).last() == b.last());
        lemma_totals_concat(a, b.drop_last());
    }
}

/// The merge is commutative: two sets of warp ballots merged in either order
/// give the same totals and the same decision.
pub proof fn lemma_merge_commutative(a: Seq<BallotWord>, b: Seq<BallotWord>)
    ensures
        total_agree(a + b) == total_agree(b + a),
        total_abstain(a + b) == total_abstain(b + a),
        total_reject(a + b) == total_reject(b + a),
        merged_decision(a + b) == merged_decision(b + a),
{
    lemma_totals_concat(a, b);
    lemma_totals_concat(b, a);
}

/// The merge is associative: grouping the ballots of three warps either way
/// gives the same totals and the same decision.
pub proof fn lemma_merge_associative(a: Seq<BallotWord>, b: Seq<BallotWord>, c: Seq<BallotWord>)
    ensures
        total_agree((a + b) + c) == total_agree(a) + (total_agree(b) + total_agree(c)),
        total_reject((a + b) + c) == total_reject(a) + (total_reject(b) + total_reject(c)),
        merged_decision((a + b) + c) == merged_decision(a + (b + c)),
{
    lemma_totals_concat(a + b, c);
    lemma_totals_concat(a, b);
    lemma_totals_concat(b, c);
    lemma_totals_concat(a, b + c);
}

proof fn lemma_totals_remove(s: Seq<BallotWord>, i: int)
    requires
        0 <= i < s.len(),
    ensures
        total_agree(s) == total_agree(s.remove(i)) + tally_of(s[i]).agree,
        total_abstain(s) == total_abstain(s.remove(i)) + tally_of(s[i]).abstain,
        total_reject(s) == total_reject(s.remove(i)) + tally_of(s[i]).reject,
{
    let s0 = s.subrange(0, i);
    let s2 = s.subrange(i + 1, s.len() as int);
    assert(s =~= (s0 + seq![s[i]]) + s2);
    assert(s.remove(i) =~= s0 + s2);
    lemma_totals_concat(s0 + seq![s[i]], s2);
    lemma_totals_concat(s0, seq![s[i]]);
    lemma_totals_concat(s0, s2);
    let single = seq![s[i]];
    assert(single.drop_last() =~= Seq::<BallotWord>::empty());
    assert(single.last() == s[i]);
    assert(total_agree(single.drop_last()) == 0);
    assert(total_abstain(single.drop_last()) == 0);
    assert(total_reject(single.drop_last()) == 0);
    assert(total_agree(single) == tally_of(s[i]).agree);
    assert(total_abstain(single) == tally_of(s[i]).abstain);
    assert(total_reject(single) == tally_of(s[i]).reject);
}

/// The merge does not depend on the order in which warps report: any
/// rearrangement of the same ballots gives the same totals and decision.
pub proof fn lemma_merge_order_independent(a: Seq<BallotWord>, b: Seq<BallotWord>)
    requires
        a.to_multiset() == b.to_multiset(),
    ensures
        total_agree(a) == total_agree(b),
        total_abstain(a) == total_abstain(b),
        total_reject(a) == total_reject(b),
        merged_decision(a) == merged_decision(b),
    decreases a.len(),
{
    broadcast use vstd::seq_lib::group_to_multiset_ensures, vstd::multiset::group_multiset_axioms;

    if a.len() == 0 {
        assert(b.to_multiset().len() == 0);
        assert(b =~= a);
    } else {
        let x = a.last();
        let a1 = a.drop_last();
        assert(a =~= a1.push(x));
        assert(a.to_multiset() =~= a1.to_multiset().insert(x));
        assert(b.to_multiset().count(x) > 0);
        assert(b.contains(x));
        let j = b.lemma_contains_to_index(x);
        let b1 = b.remove(j);
        assert(b1.to_multiset() =~= b.to_multiset().remove(x));
        assert(a1.to_multiset() =~= b1.to_multiset());
        lemma_merge_order_independent(a1, b1);
        lemma_totals_remove(b, j);
    }
}

/// Delivering every ballot of a quorum twice leaves its decision unchanged.
/// (Duplicating only some ballots can change it: the totals are sums.)
pub proof fn lemma_merge_duplicate_all(s: Seq<BallotWord>)
    ensures
        total_agree(s + s) == 2 * total_agree(s),
        total_reject(s + s) == 2 * total_reject(s),
        merged_decision(s + s) == merged_decision(s),
{
    lemma_totals_concat(s, s);
}

/// Each ballot adds at most 32 to each total.
pub proof fn lemma_totals_bound(s: Seq<BallotWord>)
    ensures
        total_agree(s) <= 32 * s.len(),
        total_abstain(s) <= 32 * s.len(),
        total_reject(s) <= 32 * s.len(),
    decreases s.len(),
{
    if s.len() > 0 {
        lemma_totals_bound(s.drop_last());
        lemma_popcount_bound(s.last().agree);
        lemma_popcount_bound(s.last().positive & !s.last().agree);
        lemma_popcount_bound(!s.last().positive);
    }
}

/// Conservation at scale: over well-formed warp ballots,
/// `Σagree + Σabstain + Σreject == 32 × number of warps`.
pub proof fn lemma_totals_conservation(s: Seq<BallotWord>)
    requires
        forall|i: int| 0 <= i < s.len() ==> (#[trigger] s[i]).well_formed(),
    ensures
        total_agree(s) + total_abstain(s) + total_reject(s) == 32 * s.len(),
    decreases s.len(),
{
    if s.len() > 0 {
        lemma_totals_conservation(s.drop_last());
        assert(s.last() == s[s.len() - 1]);
        lemma_tally_conservation(s.last());
    }
}

/// Rearranging a sequence rearranges its image under `f`.
proof fn lemma_map_values_permutation<A, B>(a: Seq<A>, b: Seq<A>, f: spec_fn(A) -> B)
    requires
        a.to_multiset() == b.to_multiset(),
    ensures
        a.map_values(f).to_multiset() == b.map_values(f).to_multiset(),
    decreases a.len(),
{
    broadcast use vstd::seq_lib::group_to_multiset_ensures, vstd::multiset::group_multiset_axioms;

    if a.len() == 0 {
        assert(b.to_multiset().len() == 0);
        assert(b =~= a);
        assert(a.map_values(f) =~= b.map_values(f));
    } else {
        let x = a.last();
        let a1 = a.drop_last();
        assert(a =~= a1.push(x));
        assert(a.to_multiset() =~= a1.to_multiset().insert(x));
        assert(b.to_multiset().count(x) > 0);
        assert(b.contains(x));
        let j = b.lemma_contains_to_index(x);
        let b1 = b.remove(j);
        assert(b1.to_multiset() =~= b.to_multiset().remove(x));
        assert(a1.to_multiset() =~= b1.to_multiset());
        lemma_map_values_permutation(a1, b1, f);
        let fb = b.map_values(f);
        assert(a.map_values(f) =~= a1.map_values(f).push(f(x)));
        assert(fb.remove(j) =~= b1.map_values(f));
        assert(fb[j] == f(x));
        assert(fb.remove(j).to_multiset() =~= fb.to_multiset().remove(f(x)));
        assert(fb.to_multiset().count(f(x)) > 0) by {
            assert(fb.contains(f(x)));
        }
        assert(fb.to_multiset() =~= fb.remove(j).to_multiset().insert(f(x)));
    }
}

/// A quorum's decision depends only on which A2A messages arrived, not on
/// their order: two quorums that received the same messages, in any two
/// orders, hold ballots with the same totals and decide alike.
pub proof fn lemma_messages_order_independent(m1: Seq<Seq<u8>>, m2: Seq<Seq<u8>>)
    requires
        m1.to_multiset() == m2.to_multiset(),
    ensures
        ({
            let b1 = m1.map_values(|m: Seq<u8>| ballot_from_bytes(m));
            let b2 = m2.map_values(|m: Seq<u8>| ballot_from_bytes(m));
            &&& total_agree(b1) == total_agree(b2)
            &&& total_abstain(b1) == total_abstain(b2)
            &&& total_reject(b1) == total_reject(b2)
            &&& merged_decision(b1) == merged_decision(b2)
        }),
{
    let f = |m: Seq<u8>| ballot_from_bytes(m);
    lemma_map_values_permutation(m1, m2, f);
    lemma_merge_order_independent(m1.map_values(f), m2.map_values(f));
}

/// Deciding again without new messages gives the same decision: a decision
/// leaves the quorum's ballots as they were, and it is a function of them.
pub proof fn lemma_decide_again(before: Quorum, after: Quorum)
    requires
        after.ballots() == before.ballots(),
        after.decision == Some(merged_decision(before.ballots())),
    ensures
        merged_decision(after.ballots()) == merged_decision(before.ballots()),
        after.decision == Some(merged_decision(after.ballots())),
        total_agree(after.ballots()) == total_agree(before.ballots()),
        total_abstain(after.ballots()) == total_abstain(before.ballots()),
        total_reject(after.ballots()) == total_reject(before.ballots()),
{
}

} // verus!
