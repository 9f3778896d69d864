use vstd::prelude::*;

use crate::bits::{
    bit, count_ones, lemma_bit_and_not, lemma_bit_not, lemma_bit_or_single, lemma_bit_zero,
    lemma_ones_below_partition, lemma_popcount_bound, ones_below, popcount,
};
use crate::vote::Vote;

verus! {

/// A 32-thread ballot result with `__ballot_sync` semantics.
///
/// Two masks hold the ternary vote of 32 agents:
///   - `positive`: bit set if the vote is not Reject
///   - `agree`:    bit set if the vote is Agree
#[derive(Debug, Clone, Copy, PartialEq, Eq, Default, Structural)]
pub struct BallotWord {
    pub positive: u32,
    pub agree: u32,
}

/// Vote counts of one ballot.
#[derive(Debug, Clone, Copy)]
pub struct VoteTally {
    pub agree: u32,
    pub abstain: u32,
    pub reject: u32,
    pub total: u32,
}

/// The `positive` mask of the first `n` votes: bit `i` set when vote `i` is not Reject.
pub open spec fn positive_mask(votes: Seq<Vote>, n: nat) -> u32
    decreases n,
{
    if n == 0 {
        0
    } else {
        let prev = positive_mask(votes, (n - 1) as nat);
        if votes[n - 1] != Vote::Reject {
            prev | (1u32 << ((n - 1) as u32))
        } else {
            prev
        }
    }
}

/// The `agree` mask of the first `n` votes: bit `i` set when vote `i` is Agree.
pub open spec fn agree_mask(votes: Seq<Vote>, n: nat) -> u32
    decreases n,
{
    if n == 0 {
        0
    } else {
        let prev = agree_mask(votes, (n - 1) as nat);
        if votes[n - 1] == Vote::Agree {
            prev | (1u32 << ((n - 1) as u32))
        } else {
            prev
        }
    }
}

/// The ballot word of 32 votes.
pub open spec fn ballot_of(votes: Seq<Vote>) -> BallotWord {
    BallotWord { positive: positive_mask(votes, 32), agree: agree_mask(votes, 32) }
}

/// The tally read off a ballot word's bits.
pub open spec fn tally_of(b: BallotWord) -> VoteTally {
    VoteTally {
        agree: popcount(b.agree) as u32,
        abstain: popcount(b.positive & !b.agree) as u32,
        reject: popcount(!b.positive) as u32,
        total: 32,
    }
}

/// Agree holds a strict majority of the decisive (non-abstaining) votes.
pub open spec fn has_majority(t: VoteTally) -> bool {
    t.agree + t.reject > 0 && 2 * t.agree > t.agree + t.reject
}

/// The number of votes among the first `n` that equal `v`.
pub open spec fn count_votes(votes: Seq<Vote>, v: Vote, n: nat) -> nat
    decreases n,
{
    if n == 0 {
        0
    } else {
        count_votes(votes, v, (n - 1) as nat) + if votes[n - 1] == v {
            1nat
        } else {
            0nat
        }
    }
}

/// The little-endian bytes of a 32-bit word.
pub open spec fn le_bytes(x: u32) -> Seq<u8> {
    seq![
        (x & 0xff) as u8,
        ((x >> 8) & 0xff) as u8,
        ((x >> 16) & 0xff) as u8,
        ((x >> 24) & 0xff) as u8,
    ]
}

/// The 32-bit word whose little-endian bytes are `s[at .. at + 4]`.
pub open spec fn le_word(s: Seq<u8>, at: int) -> u32 {
    (s[at] as u32) | (s[at + 1] as u32) << 8 | (s[at + 2] as u32) << 16 | (s[at + 3] as u32) << 24
}

/// The 8-byte message of a ballot: `positive` then `agree`, each little-endian.
pub open spec fn ballot_bytes(b: BallotWord) -> Seq<u8> {
    le_bytes(b.positive) + le_bytes(b.agree)
}

/// The ballot read from an 8-byte message.
pub open spec fn ballot_from_bytes(s: Seq<u8>) -> BallotWord {
    BallotWord { positive: le_word(s, 0), agree: le_word(s, 4) }
}

/// Agree votes over decisive votes as a fraction `(numerator, denominator)`;
/// one half when no vote is decisive.
pub open spec fn agreement_fraction_of(agree: int, reject: int) -> (int, int) {
    if agree + reject == 0 {
        (1, 2)
    } else {
        (agree, agree + reject)
    }
}

impl VoteTally {
    /// The agreement rate as a fraction `(agree, agree + reject)` of the
    /// decisive votes; `(1, 2)`, a neutral one half, when no vote is decisive.
    pub fn agreement_fraction(self) -> (r: (u32, u32))
        requires
            self.agree + self.reject <= u32::MAX,
        ensures
            r.0 == agreement_fraction_of(self.agree as int, self.reject as int).0,
            r.1 == agreement_fraction_of(self.agree as int, self.reject as int).1,
            self.agree + self.reject > 0 ==> r.0 == self.agree && r.1 == self.agree + self.reject,
            self.agree + self.reject == 0 ==> r.0 == 1 && r.1 == 2,
    {
        let decisive = self.agree + self.reject;
        if decisive == 0 {
            return (1, 2);
        }
        (self.agree, decisive)
    }
}

impl BallotWord {
    /// Every agreeing thread also counts as positive, as `collect` makes it.
    pub open spec fn well_formed(self) -> bool {
        forall|i: u32| i < 32 ==> (#[trigger] bit(self.agree, i) ==> bit(self.positive, i))
    }

    /// Simulate `__ballot_sync` for a 32-agent warp in a single pass.
    pub fn collect(votes: &[Vote; 32]) -> (r: Self)
        ensures
            r == ballot_of(votes@),
            forall|i: u32|
                i < 32 ==> {
                    &&& #[trigger] bit(r.positive, i) == (votes@[i as int] != Vote::Reject)
                    &&& bit(r.agree, i) == (votes@[i as int] == Vote::Agree)
                },
    {
        let mut positive: u32 = 0;
        let mut agree: u32 = 0;
        let mut i: usize = 0;
        while i < 32
            invariant
                i <= 32,
                votes@.len() == 32,
                positive == positive_mask(votes@, i as nat),
                agree == agree_mask(votes@, i as nat),
            decreases 32 - i,
        {
            let b: u32 = 1u32 << (i as u32);
            match votes[i] {
                Vote::Agree => {
                    positive = positive | b;
                    agree = agree | b;
                },
                Vote::Abstain => {
                    positive = positive | b;
                },
                Vote::Reject => {},
            }
            i = i + 1;
        }
        proof {
            assert forall|j: u32| j < 32 implies {
                &&& #[trigger] bit(positive, j) == (votes@[j as int] != Vote::Reject)
                &&& bit(agree, j) == (votes@[j as int] == Vote::Agree)
            } by {
                lemma_positive_mask_bit(votes@, 32, j);
                lemma_agree_mask_bit(votes@, 32, j);
            }
        }
        BallotWord { positive, agree }
    }

    /// Tally the votes of the ballot word.
    pub fn tally(self) -> (r: VoteTally)
        ensures
            r == tally_of(self),
            r.agree <= 32,
            r.abstain <= 32,
            r.reject <= 32,
    {
        let p = self.positive;
        let agree = count_ones(self.agree);
        let abstain = count_ones(p & !self.agree);
        let reject = count_ones(!p & 0xFFFF_FFFF);
        assert(!p & 0xFFFF_FFFF == !p) by (bit_vector);
        VoteTally { agree, abstain, reject, total: 32 }
    }

    /// True if a simple majority (more than half of the non-abstaining) chose Agree.
    pub fn majority_agree(self) -> (r: bool)
        ensures
            r == has_majority(tally_of(self)),
            r == (tally_of(self).agree > tally_of(self).reject),
    {
        let t = self.tally();
        let decisive = t.agree + t.reject;
        decisive > 0 && t.agree * 2 > decisive
    }

    /// Pack this ballot into 8 bytes for A2A message passing.
    pub fn to_bytes(self) -> (r: [u8; 8])
        ensures
            r@ == ballot_bytes(self),
    {
        let p = self.positive;
        let a = self.agree;
        let r = [
            (p & 0xff) as u8,
            ((p >> 8) & 0xff) as u8,
            ((p >> 16) & 0xff) as u8,
            ((p >> 24) & 0xff) as u8,
            (a & 0xff) as u8,
            ((a >> 8) & 0xff) as u8,
            ((a >> 16) & 0xff) as u8,
            ((a >> 24) & 0xff) as u8,
        ];
        assert(r@ =~= ballot_bytes(self));
        r
    }

    /// Read a ballot from its 8-byte message.
    pub fn from_bytes(b: &[u8; 8]) -> (r: Self)
        ensures
            r == ballot_from_bytes(b@),
    {
        let positive = (b[0] as u32) | (b[1] as u32) << 8 | (b[2] as u32) << 16 | (b[3] as u32)
            << 24;
        let agree = (b[4] as u32) | (b[5] as u32) << 8 | (b[6] as u32) << 16 | (b[7] as u32) << 24;
        BallotWord { positive, agree }
    }
}

/// The agreement fraction is agree over decisive votes whenever some vote is
/// decisive (so no agree vote gives rate 0), and the neutral one half only
/// when no vote is decisive; its denominator is never zero.
pub proof fn lemma_agreement_fraction(agree: nat, reject: nat)
    ensures
        agree + reject > 0 ==> agreement_fraction_of(agree as int, reject as int) == (
            agree as int,
            (agree + reject) as int,
        ),
        agree + reject == 0 ==> agreement_fraction_of(agree as int, reject as int) == (1int, 2int),
        agreement_fraction_of(agree as int, reject as int).1 > 0,
        agree == 0 && reject > 0 ==> agreement_fraction_of(agree as int, reject as int).0 == 0,
{
}

/// Little-endian order: byte `k` of a word's bytes is its `k`-th base-256
/// digit, and a word read from four bytes is their base-256 value with the
/// first byte least significant.
pub proof fn lemma_le_bytes_digits(x: u32, s: Seq<u8>, at: int)
    requires
        0 <= at,
        at + 4 <= s.len(),
    ensures
        le_bytes(x)[0] == x % 256,
        le_bytes(x)[1] == (x / 256) % 256,
        le_bytes(x)[2] == (x / 65536) % 256,
        le_bytes(x)[3] == x / 16777216,
        le_word(s, at) as int == s[at] + 256 * s[at + 1] + 65536 * s[at + 2] + 16777216 * s[at
            + 3],
{
    assert((x & 0xff) as u8 == x % 256 && ((x >> 8) & 0xff) as u8 == (x / 256) % 256 && ((x >> 16)
        & 0xff) as u8 == (x / 65536) % 256 && ((x >> 24) & 0xff) as u8 == x / 16777216)
        by (bit_vector);
    let b0 = s[at];
    let b1 = s[at + 1];
    let b2 = s[at + 2];
    let b3 = s[at + 3];
    assert((b0 as u32) | (b1 as u32) << 8 | (b2 as u32) << 16 | (b3 as u32) << 24 == b0 as u32
        + 256 * (b1 as u32) + 65536 * (b2 as u32) + 16777216 * (b3 as u32)) by (bit_vector);
}

/// Reading back the 8-byte message of a ballot gives the ballot.
pub proof fn lemma_ballot_bytes_roundtrip(b: BallotWord)
    ensures
        ballot_from_bytes(ballot_bytes(b)) == b,
{
    lemma_le_word_of_bytes(b.positive);
    lemma_le_word_of_bytes(b.agree);
    let s = ballot_bytes(b);
    assert(s.subrange(0, 4) =~= le_bytes(b.positive));
    assert(s.subrange(4, 8) =~= le_bytes(b.agree));
    assert(le_word(s, 0) == le_word(le_bytes(b.positive), 0));
    assert(le_word(s, 4) == le_word(le_bytes(b.agree), 0));
}

/// Every 8-byte message is the message of the ballot read from it.
pub proof fn lemma_bytes_ballot_roundtrip(s: Seq<u8>)
    requires
        s.len() == 8,
    ensures
        ballot_bytes(ballot_from_bytes(s)) == s,
{
    lemma_le_bytes_of_word(s[0], s[1], s[2], s[3]);
    lemma_le_bytes_of_word(s[4], s[5], s[6], s[7]);
    assert(ballot_bytes(ballot_from_bytes(s)) =~= s);
}

proof fn lemma_le_word_of_bytes(x: u32)
    ensures
        le_word(le_bytes(x), 0) == x,
{
    let s = le_bytes(x);
    assert(s[0] == (x & 0xff) as u8);
    assert(s[1] == ((x >> 8) & 0xff) as u8);
    assert(s[2] == ((x >> 16) & 0xff) as u8);
    assert(s[3] == ((x >> 24) & 0xff) as u8);
    assert((((x & 0xff) as u8) as u32) | (((((x >> 8) & 0xff) as u8) as u32) << 8) | (((((x
        >> 16) & 0xff) as u8) as u32) << 16) | (((((x >> 24) & 0xff) as u8) as u32) << 24) == x)
        by (bit_vector);
}

proof fn lemma_le_bytes_of_word(b0: u8, b1: u8, b2: u8, b3: u8)
    ensures
        le_bytes((b0 as u32) | (b1 as u32) << 8 | (b2 as u32) << 16 | (b3 as u32) << 24)
            =~= seq![b0, b1, b2, b3],
{
    let x = (b0 as u32) | (b1 as u32) << 8 | (b2 as u32) << 16 | (b3 as u32) << 24;
    assert((x & 0xff) as u8 == b0 && ((x >> 8) & 0xff) as u8 == b1 && ((x >> 16) & 0xff) as u8
        == b2 && ((x >> 24) & 0xff) as u8 == b3) by (bit_vector)
        requires
            x == (b0 as u32) | (b1 as u32) << 8 | (b2 as u32) << 16 | (b3 as u32) << 24,
    ;
}

/// Bit `j` of the `positive` mask of the first `n` votes is set exactly when
/// `j < n` and vote `j` is not Reject.
pub proof fn lemma_positive_mask_bit(votes: Seq<Vote>, n: nat, j: u32)
    requires
        n <= 32,
        j < 32,
        n <= votes.len(),
    ensures
        bit(positive_mask(votes, n), j) == (j < n && votes[j as int] != Vote::Reject),
    decreases n,
{
    if n == 0 {
        lemma_bit_zero(j);
    } else {
        lemma_positive_mask_bit(votes, (n - 1) as nat, j);
        if votes[n - 1] != Vote::Reject {
            lemma_bit_or_single(positive_mask(votes, (n - 1) as nat), (n - 1) as u32, j);
        }
    }
}

/// Bit `j` of the `agree` mask of the first `n` votes is set exactly when
/// `j < n` and vote `j` is Agree.
pub proof fn lemma_agree_mask_bit(votes: Seq<Vote>, n: nat, j: u32)
    requires
        n <= 32,
        j < 32,
        n <= votes.len(),
    ensures
        bit(agree_mask(votes, n), j) == (j < n && votes[j as int] == Vote::Agree),
    decreases n,
{
    if n == 0 {
        lemma_bit_zero(j);
    } else {
        lemma_agree_mask_bit(votes, (n - 1) as nat, j);
        if votes[n - 1] == Vote::Agree {
            lemma_bit_or_single(agree_mask(votes, (n - 1) as nat), (n - 1) as u32, j);
        }
    }
}

/// A collected ballot is well formed: every agreeing thread is positive.
pub proof fn lemma_ballot_of_well_formed(votes: Seq<Vote>)
    requires
        votes.len() == 32,
    ensures
        ballot_of(votes).well_formed(),
{
    assert forall|i: u32| i < 32 && #[trigger] bit(ballot_of(votes).agree, i) implies bit(
        ballot_of(votes).positive,
        i,
    ) by {
        lemma_positive_mask_bit(votes, 32, i);
        lemma_agree_mask_bit(votes, 32, i);
    }
}

/// Conservation: the tally of a well-formed ballot partitions its 32 threads,
/// `agree + abstain + reject == 32`.
pub proof fn lemma_tally_conservation(b: BallotWord)
    requires
        b.well_formed(),
    ensures
        tally_of(b).agree + tally_of(b).abstain + tally_of(b).reject == 32,
        tally_of(b).total == 32,
{
    let x = b.agree;
    let y = b.positive & !b.agree;
    let z = !b.positive;
    assert forall|i: u32| i < 32 implies ((bit(x, i) as int) + (bit(y, i) as int) + (bit(z, i) as int))
        == 1 by {
        lemma_bit_and_not(b.positive, b.agree, i);
        lemma_bit_not(b.positive, i);
        assert(bit(b.agree, i) ==> bit(b.positive, i));
    }
    lemma_ones_below_partition(x, y, z, 32);
    lemma_popcount_bound(x);
    lemma_popcount_bound(y);
    lemma_popcount_bound(z);
}

proof fn lemma_ones_below_counts(x: u32, votes: Seq<Vote>, v: Vote, n: nat)
    requires
        n <= 32,
        votes.len() == 32,
        forall|j: u32| j < 32 ==> #[trigger] bit(x, j) == (votes[j as int] == v),
    ensures
        ones_below(x, n) == count_votes(votes, v, n),
    decreases n,
{
    if n > 0 {
        lemma_ones_below_counts(x, votes, v, (n - 1) as nat);
        assert(bit(x, (n - 1) as u32) == (votes[n - 1] == v));
    }
}

/// Tallying the ballot of 32 votes counts the votes: `agree`, `abstain` and
/// `reject` are the numbers of Agree, Abstain and Reject votes.
pub proof fn lemma_collect_tally_counts(votes: Seq<Vote>)
    requires
        votes.len() == 32,
    ensures
        tally_of(ballot_of(votes)).agree == count_votes(votes, Vote::Agree, 32),
        tally_of(ballot_of(votes)).abstain == count_votes(votes, Vote::Abstain, 32),
        tally_of(ballot_of(votes)).reject == count_votes(votes, Vote::Reject, 32),
{
    let b = ballot_of(votes);
    assert forall|j: u32| j < 32 implies #[trigger] bit(b.agree, j) == (votes[j as int]
        == Vote::Agree) by {
        lemma_agree_mask_bit(votes, 32, j);
    }
    assert forall|j: u32| j < 32 implies #[trigger] bit(b.positive & !b.agree, j) == (votes[j as int]
        == Vote::Abstain) by {
        lemma_agree_mask_bit(votes, 32, j);
        lemma_positive_mask_bit(votes, 32, j);
        lemma_bit_and_not(b.positive, b.agree, j);
    }
    assert forall|j: u32| j < 32 implies #[trigger] bit(!b.positive, j) == (votes[j as int]
        == Vote::Reject) by {
        lemma_positive_mask_bit(votes, 32, j);
        lemma_bit_not(b.positive, j);
    }
    lemma_ones_below_counts(b.agree, votes, Vote::Agree, 32);
    lemma_ones_below_counts(b.positive & !b.agree, votes, Vote::Abstain, 32);
    lemma_ones_below_counts(!b.positive, votes, Vote::Reject, 32);
    lemma_popcount_bound(b.agree);
    lemma_popcount_bound(b.positive & !b.agree);
    lemma_popcount_bound(!b.positive);
}

} // verus!
