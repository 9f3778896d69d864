use vstd::prelude::*;

use crate::bits::bit;
use crate::vote::{decode_vote, vote_code, Vote};

verus! {

/// A packed buffer of ternary votes in their 2-bit codes.
///
/// 16 votes per `u32`, vote `i` in bits `2 (i % 16) .. 2 (i % 16) + 2` of
/// word `i / 16`; `0b11` unused. This is the wire format for A2A messages
/// carrying vote batches between agents and quorum coordinators.
#[derive(Debug)]
pub struct PackedVoteBuffer {
    data: Vec<u32>,
    len: usize,
}

/// The 2-bit field of vote `i` in a sequence of packed words.
pub open spec fn field(words: Seq<u32>, i: int) -> u32 {
    (words[i / 16] >> ((2 * (i % 16)) as u32)) & 3u32
}

/// The vote a 2-bit field stands for; the unused pattern reads as Abstain.
pub open spec fn vote_of_field(f: u32) -> Vote {
    match decode_vote(f as u8) {
        Some(v) => v,
        None => Vote::Abstain,
    }
}

/// The number of words that hold `n` votes.
pub open spec fn words_for(n: int) -> int {
    (n + 15) / 16
}

impl PackedVoteBuffer {
    #[verifier::type_invariant]
    spec fn wf(self) -> bool {
        &&& self.data@.len() == words_for(self.len as int)
        &&& self.len + 15 <= usize::MAX
    }

    /// The packed words.
    pub closed spec fn words(&self) -> Seq<u32> {
        self.data@
    }

    /// The number of votes held.
    pub closed spec fn vote_count(&self) -> nat {
        self.len as nat
    }

    /// The votes the buffer holds, read from their fields.
    pub open spec fn decoded(&self) -> Seq<Vote> {
        Seq::new(self.vote_count(), |i: int| vote_of_field(field(self.words(), i)))
    }

    /// The buffer holds `votes` in its canonical packing: each vote's code in
    /// its field, every field past the last vote zero.
    pub open spec fn packs(&self, votes: Seq<Vote>) -> bool {
        &&& self.vote_count() == votes.len()
        &&& self.words().len() == words_for(votes.len() as int)
        &&& forall|i: int|
            0 <= i < 16 * self.words().len() ==> #[trigger] field(self.words(), i) == if i
                < votes.len() {
                vote_code(votes[i]) as u32
            } else {
                0u32
            }
    }

    pub fn pack(votes: &[Vote]) -> (r: Self)
        requires
            votes@.len() + 15 <= usize::MAX,
        ensures
            r.packs(votes@),
    {
        let n = votes.len();
        let words = (n + 15) / 16;
        let mut data: Vec<u32> = vec![0u32; words];
        proof {
            assert forall|j: int| 0 <= j < 16 * words implies #[trigger] field(data@, j) == 0u32 by {
                let w = data@[j / 16];
                let s = (2 * (j % 16)) as u32;
                assert(w == 0u32);
                assert((0u32 >> s) & 3u32 == 0u32) by (bit_vector);
            }
        }
        let mut i: usize = 0;
        while i < n
            invariant
                n == votes@.len(),
                words == words_for(n as int),
                i <= n,
                data@.len() == words,
                forall|j: int|
                    0 <= j < 16 * words ==> #[trigger] field(data@, j) == if j < i {
                        vote_code(votes@[j]) as u32
                    } else {
                        0u32
                    },
            decreases n - i,
        {
            let word = i / 16;
            let bit_pos = (i % 16) * 2;
            let code = votes[i].to_bits() as u32;
            let ghost before = data@;
            let updated = data[word] | (code << (bit_pos as u32));
            data.set(word, updated);
            proof {
                assert forall|j: int| 0 <= j < 16 * words implies #[trigger] field(data@, j) == if j
                    < i + 1 {
                    vote_code(votes@[j]) as u32
                } else {
                    0u32
                } by {
                    if j / 16 == word as int {
                        let k = (i % 16) as u32;
                        let m = (j % 16) as u32;
                        assert(bit_pos == 2 * k);
                        assert(data@[j / 16] == before[word as int] | (code << (2 * k) as u32));
                        lemma_field_or(before[word as int], code, k, m);
                        assert(field(data@, j) == (data@[j / 16] >> (2 * m) as u32) & 3u32);
                        if m == k {
                            assert(j == i);
                            assert(field(before, i as int) == 0u32);
                            assert(((before[word as int] >> (2 * k) as u32) & 3u32) == 0u32);
                            assert(0u32 | code == code) by (bit_vector);
                            assert(field(data@, j) == code);
                            assert(code == vote_code(votes@[j]) as u32);
                        } else {
                            assert(j != i);
                            assert(field(before, j) == (before[j / 16] >> (2 * m) as u32) & 3u32);
                            assert(field(data@, j) == field(before, j));
                        }
                    } else {
                        assert(0 <= j / 16 < words);
                        assert(data@[j / 16] == before[j / 16]);
                        assert(field(data@, j) == field(before, j));
                        assert(j != i);
                    }
                }
            }
            i = i + 1;
        }
        PackedVoteBuffer { data, len: n }
    }

    /// The votes held, in order.
    pub fn unpack(&self) -> (r: Vec<Vote>)
        ensures
            r@ == self.decoded(),
    {
        proof {
            use_type_invariant(self);
        }
        let mut out: Vec<Vote> = Vec::new();
        let mut i: usize = 0;
        while i < self.len
            invariant
                i <= self.len,
                self.data@.len() == words_for(self.len as int),
                out@ == self.decoded().take(i as int),
            decreases self.len - i,
        {
            let word = i / 16;
            let bit_pos = (i % 16) * 2;
            let bits = ((self.data[word] >> (bit_pos as u32)) & 0b11) as u8;
            let v = match Vote::from_bits(bits) {
                Some(v) => v,
                None => Vote::Abstain,
            };
            out.push(v);
            proof {
                assert(out@ =~= self.decoded().take(i + 1));
            }
            i = i + 1;
        }
        proof {
            assert(out@ =~= self.decoded());
        }
        out
    }

    /// The size of the packed words in bytes.
    pub fn bytes(&self) -> (r: usize)
        ensures
            r == 4 * self.words().len(),
    {
        proof {
            use_type_invariant(self);
        }
        self.data.len() * 4
    }

    /// How many votes fit in the bits of one `i32`: 32 bits against 2 bits per vote.
    pub fn density_ratio_vs_i32(&self) -> (r: u32)
        ensures
            r == 16,
    {
        32 / 2
    }
}

impl Clone for PackedVoteBuffer {
    fn clone(&self) -> (r: Self)
        ensures
            r.words() == self.words(),
            r.vote_count() == self.vote_count(),
    {
        proof {
            use_type_invariant(self);
        }
        let mut data: Vec<u32> = Vec::new();
        let mut i: usize = 0;
        while i < self.data.len()
            invariant
                i <= self.data@.len(),
                data@ == self.data@.take(i as int),
            decreases self.data@.len() - i,
        {
            data.push(self.data[i]);
            proof {
                assert(data@ =~= self.data@.take(i + 1));
            }
            i = i + 1;
        }
        proof {
            assert(data@ =~= self.data@);
        }
        PackedVoteBuffer { data, len: self.len }
    }
}

/// Setting field `k` of `x` to `c` by `x | (c << 2k)`: field `k` becomes its
/// old value or `c`; every other field is unchanged.
proof fn lemma_field_or(x: u32, c: u32, k: u32, m: u32)
    requires
        c < 4,
        k < 16,
        m < 16,
    ensures
        ((x | (c << (2 * k) as u32)) >> (2 * m) as u32) & 3u32 == if m == k {
            ((x >> (2 * k) as u32) & 3u32) | c
        } else {
            (x >> (2 * m) as u32) & 3u32
        },
{
    let sk = (2 * k) as u32;
    let sm = (2 * m) as u32;
    assert(((x | (c << sk)) >> sm) & 3u32 == if sm == sk {
        ((x >> sk) & 3u32) | c
    } else {
        (x >> sm) & 3u32
    }) by (bit_vector)
        requires
            c < 4,
            sk < 32,
            sm < 32,
            sk % 2 == 0,
            sm % 2 == 0,
    ;
}

/// Vote `i` sits in word `i / 16` at bits `2 (i % 16)` (low) and
/// `2 (i % 16) + 1` (high) of its field.
pub proof fn lemma_field_bits(words: Seq<u32>, i: int)
    requires
        0 <= i,
    ensures
        (field(words, i) & 1u32 == 1u32) == bit(words[i / 16], (2 * (i % 16)) as u32),
        (field(words, i) >> 1u32 == 1u32) == bit(words[i / 16], (2 * (i % 16) + 1) as u32),
        field(words, i) < 4,
{
    let x = words[i / 16];
    let s = (2 * (i % 16)) as u32;
    assert(s < 31);
    assert((((x >> s) & 3u32) & 1u32 == 1u32) == ((x >> s) & 1u32 == 1u32) && ((((x >> s) & 3u32)
        >> 1u32) == 1u32) == ((x >> ((s + 1) as u32)) & 1u32 == 1u32) && (x >> s) & 3u32 < 4)
        by (bit_vector)
        requires
            s < 31,
    ;
}

/// Reading back a packed buffer gives the votes that were packed.
pub proof fn lemma_pack_unpack(b: PackedVoteBuffer, votes: Seq<Vote>)
    requires
        b.packs(votes),
    ensures
        b.decoded() == votes,
{
    assert forall|i: int| 0 <= i < votes.len() implies b.decoded()[i] == votes[i] by {
        assert(i < 16 * b.words().len());
        assert(field(b.words(), i) == vote_code(votes[i]) as u32);
        crate::vote::lemma_vote_code_roundtrip(votes[i]);
    }
    assert(b.decoded() =~= votes);
}

} // verus!
