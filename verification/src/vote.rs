use vstd::prelude::*;

verus! {

/// Ternary agent vote, the {-1, 0, +1} trit alphabet.
#[derive(Debug, Clone, Copy, PartialEq, Eq, Hash, Structural)]
pub enum Vote {
    Reject,
    Abstain,
    Agree,
}

/// The 2-bit code of a vote: Reject `0b00`, Abstain `0b01`, Agree `0b10`.
pub open spec fn vote_code(v: Vote) -> u8 {
    match v {
        Vote::Reject => 0b00,
        Vote::Abstain => 0b01,
        Vote::Agree => 0b10,
    }
}

/// The vote whose code is the low two bits of `bits`; `0b11` names no vote.
pub open spec fn decode_vote(bits: u8) -> Option<Vote> {
    let low = bits & 0b11;
    if low == 0b00 {
        Some(Vote::Reject)
    } else if low == 0b01 {
        Some(Vote::Abstain)
    } else if low == 0b10 {
        Some(Vote::Agree)
    } else {
        None
    }
}

/// The trit a vote stands for: Reject -1, Abstain 0, Agree +1.
pub open spec fn trit_value(v: Vote) -> int {
    match v {
        Vote::Reject => -1,
        Vote::Abstain => 0,
        Vote::Agree => 1,
    }
}

impl Vote {
    /// The vote as a trit of the {-1, 0, +1} alphabet.
    pub fn to_trit(self) -> (r: i8)
        ensures
            r == trit_value(self),
    {
        match self {
            Vote::Reject => -1,
            Vote::Abstain => 0,
            Vote::Agree => 1,
        }
    }

    /// Pack the vote as 2 bits.
    pub fn to_bits(self) -> (r: u8)
        ensures
            r == vote_code(self),
            r < 3,
    {
        match self {
            Vote::Reject => 0b00,
            Vote::Abstain => 0b01,
            Vote::Agree => 0b10,
        }
    }

    /// Read a vote from the low two bits of `bits`; `0b11` is unused and gives `None`.
    pub fn from_bits(bits: u8) -> (r: Option<Vote>)
        ensures
            r == decode_vote(bits),
    {
        let low = bits & 0b11;
        if low == 0b00 {
            Some(Vote::Reject)
        } else if low == 0b01 {
            Some(Vote::Abstain)
        } else if low == 0b10 {
            Some(Vote::Agree)
        } else {
            None
        }
    }
}

/// The 2-bit codes follow the trits: the code of a vote is its trit plus one
/// (Reject `0b00`, Abstain `0b01`, Agree `0b10`), so `0b11` codes no vote.
pub proof fn lemma_vote_code_is_trit_plus_one(v: Vote)
    ensures
        vote_code(v) as int == trit_value(v) + 1,
        vote_code(v) != 0b11,
{
}

/// Decoding the code of a vote gives the vote back.
pub proof fn lemma_vote_code_roundtrip(v: Vote)
    ensures
        decode_vote(vote_code(v)) == Some(v),
{
    assert(0u8 & 3 == 0) by (bit_vector);
    assert(1u8 & 3 == 1) by (bit_vector);
    assert(2u8 & 3 == 2) by (bit_vector);
}

/// Whatever decodes to a vote is that vote's code in its low two bits, and
/// only the pattern `0b11` decodes to nothing.
pub proof fn lemma_decode_vote_inverse(bits: u8)
    ensures
        decode_vote(bits) matches Some(v) ==> vote_code(v) == bits & 0b11,
        decode_vote(bits) is None <==> bits & 0b11 == 0b11,
{
    assert(bits & 3 < 4) by (bit_vector);
}

} // verus!
