//! Hamming distance between 64-bit hashes.
//!
//! The distance between two hashes is the number of bit positions in which
//! they differ: the population count of their bitwise XOR.

use vstd::prelude::*;

verus! {

/// Number of set bits among the `n` lowest bits of `x`.
pub open spec fn popcount_low(x: u64, n: nat) -> nat
    decreases n,
{
    if n == 0 {
        0
    } else {
        (1u64 & (x >> (n - 1) as u64)) as nat + popcount_low(x, (n - 1) as nat)
    }
}

/// Number of set bits of `x`.
pub open spec fn popcount(x: u64) -> nat {
    popcount_low(x, 64)
}

/// Hamming distance between two 64-bit hashes: the number of differing bits.
pub open spec fn hamming_distance(a: u64, b: u64) -> nat {
    popcount(a ^ b)
}

proof fn lemma_popcount_low_bound(x: u64, n: nat)
    ensures
        popcount_low(x, n) <= n,
    decreases n,
{
    if n > 0 {
        lemma_popcount_low_bound(x, (n - 1) as nat);
        let s = (n - 1) as u64;
        assert(1u64 & (x >> s) <= 1) by (bit_vector);
    }
}

proof fn lemma_popcount_low_zero(n: nat)
    ensures
        popcount_low(0u64, n) == 0,
    decreases n,
{
    if n > 0 {
        lemma_popcount_low_zero((n - 1) as nat);
        let s = (n - 1) as u64;
        assert(1u64 & (0u64 >> s) == 0) by (bit_vector);
    }
}

/// The three laws of the distance: it is symmetric, a hash has distance zero
/// to itself, and no two hashes differ in more than 64 bits.
pub proof fn lemma_hamming_distance_laws(a: u64, b: u64)
    ensures
        hamming_distance(a, b) == hamming_distance(b, a),
        hamming_distance(a, a) == 0,
        hamming_distance(a, b) <= 64,
{
    assert(a ^ b == b ^ a) by (bit_vector);
    assert(a ^ a == 0u64) by (bit_vector);
    lemma_popcount_low_zero(64);
    lemma_popcount_low_bound(a ^ b, 64);
}

/// Population count of `x`, counting with one pass over the 64 bit positions.
pub fn popcount64(x: u64) -> (count: u32)
    ensures
        count == popcount(x),
        count <= 64,
{
    let mut count: u32 = 0;
    for i in 0..64u64
        invariant
            count == popcount_low(x, i as nat),
            count <= i,
    {
        proof {
            lemma_popcount_low_bound(x, i as nat);
            assert((x >> i) & 1 == 1u64 & (x >> i) && (x >> i) & 1 <= 1) by (bit_vector);
        }
        count = count + ((x >> i) & 1) as u32;
    }
    count
}

/// Hamming distance between two 64-bit hashes, as executable code.
pub fn distance(a: u64, b: u64) -> (d: u32)
    ensures
        d == hamming_distance(a, b),
        d <= 64,
{
    popcount64(a ^ b)
}

} // verus!
