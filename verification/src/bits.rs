use vstd::prelude::*;

verus! {

/// Bit `i` of `x` is set.
pub open spec fn bit(x: u32, i: u32) -> bool {
    (x >> i) & 1u32 == 1u32
}

/// The number of set bits of `x` among bits `0 .. n`.
pub open spec fn ones_below(x: u32, n: nat) -> nat
    decreases n,
{
    if n == 0 {
        0
    } else {
        ones_below(x, (n - 1) as nat) + if bit(x, (n - 1) as u32) {
            1nat
        } else {
            0nat
        }
    }
}

/// The number of set bits of a 32-bit word.
pub open spec fn popcount(x: u32) -> nat {
    ones_below(x, 32)
}

/// Count the set bits of `x`.
pub fn count_ones(x: u32) -> (r: u32)
    ensures
        r == popcount(x),
        r <= 32,
{
    let mut c: u32 = 0;
    let mut i: u32 = 0;
    while i < 32
        invariant
            i <= 32,
            c == ones_below(x, i as nat),
            c <= i,
        decreases 32 - i,
    {
        if (x >> i) & 1 == 1 {
            c = c + 1;
        }
        i = i + 1;
    }
    c
}

pub proof fn lemma_ones_below_bound(x: u32, n: nat)
    ensures
        ones_below(x, n) <= n,
    decreases n,
{
    if n > 0 {
        lemma_ones_below_bound(x, (n - 1) as nat);
    }
}

pub proof fn lemma_popcount_bound(x: u32)
    ensures
        popcount(x) <= 32,
{
    lemma_ones_below_bound(x, 32);
}

/// Setting bit `i` sets that bit and leaves the others as they were.
pub proof fn lemma_bit_or_single(p: u32, i: u32, j: u32)
    requires
        i < 32,
        j < 32,
    ensures
        bit(p | (1u32 << i), j) == (bit(p, j) || i == j),
{
    assert(((p | (1u32 << i)) >> j) & 1u32 == 1u32 <==> (((p >> j) & 1u32 == 1u32) || i == j))
        by (bit_vector)
        requires
            i < 32,
            j < 32,
    ;
}

/// Bits of the zero word are all clear.
pub proof fn lemma_bit_zero(j: u32)
    requires
        j < 32,
    ensures
        !bit(0u32, j),
{
    assert((0u32 >> j) & 1u32 == 0u32) by (bit_vector);
}

/// Bit `i` of `p & !a` is bit `i` of `p` and not bit `i` of `a`.
pub proof fn lemma_bit_and_not(p: u32, a: u32, i: u32)
    requires
        i < 32,
    ensures
        bit(p & !a, i) == (bit(p, i) && !bit(a, i)),
{
    assert(((p & !a) >> i) & 1u32 == 1u32 <==> (((p >> i) & 1u32 == 1u32) && !((a >> i) & 1u32
        == 1u32))) by (bit_vector)
        requires
            i < 32,
    ;
}

/// Bit `i` of `!p` is the negation of bit `i` of `p`.
pub proof fn lemma_bit_not(p: u32, i: u32)
    requires
        i < 32,
    ensures
        bit(!p, i) == !bit(p, i),
{
    assert(((!p) >> i) & 1u32 == 1u32 <==> !((p >> i) & 1u32 == 1u32)) by (bit_vector)
        requires
            i < 32,
    ;
}

/// Where every one of the first `n` bit positions is set in exactly one of
/// three words, their set-bit counts below `n` add up to `n`.
pub proof fn lemma_ones_below_partition(a: u32, b: u32, c: u32, n: nat)
    requires
        n <= 32,
        forall|i: u32|
            i < n ==> ((bit(a, i) as int) + (bit(b, i) as int) + (bit(c, i) as int)) == 1,
    ensures
        ones_below(a, n) + ones_below(b, n) + ones_below(c, n) == n,
    decreases n,
{
    if n > 0 {
        lemma_ones_below_partition(a, b, c, (n - 1) as nat);
        let k = (n - 1) as u32;
        assert((bit(a, k) as int) + (bit(b, k) as int) + (bit(c, k) as int) == 1);
    }
}

} // verus!
