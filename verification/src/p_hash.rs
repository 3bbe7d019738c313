//! Perceptual hash (pHash): the integer skeleton of the DCT fingerprint.
//!
//! The full algorithm normalizes an image to 32-by-32 grayscale, applies a
//! two-dimensional type-II DCT, keeps the top-left 8-by-8 block of
//! coefficients, and sets one bit per coefficient depending on whether it
//! reaches the median of the block. The transform and the median work on
//! floating-point coefficients, which stay outside this crate's verified
//! code; what is verified here is the fixed extraction order of the
//! coefficient block and the packing of the 64 sign bits into the hash.

use vstd::prelude::*;
use vstd::arithmetic::power2::pow2;
use vstd::arithmetic::power2::lemma_pow2_strictly_increases;
use vstd::bits::lemma_u64_shl_is_mul;

verus! {

/// Edge length of the normalized grayscale buffer the transform reads.
pub const PHASH_IMG_SIZE: u32 = 32;

/// Edge length of the low-frequency coefficient block that is kept.
pub const PHASH_BLOCK_SIZE: u32 = 8;

/// Row-major position, inside the 32-by-32 coefficient matrix, of the `k`-th
/// coefficient of the extraction order: the top-left 8-by-8 block, row by
/// row.
pub open spec fn low_freq_index(k: int) -> int {
    (k / 8) * 32 + k % 8
}

/// Positions of the 64 low-frequency coefficients in extraction order.
/// The caller reads the coefficient matrix at these positions and hands the
/// per-coefficient sign bits back to `pack_signs` in the same order.
pub fn low_freq_indices() -> (idx: Vec<usize>)
    ensures
        idx@.len() == 64,
        forall|k: int| 0 <= k < 64 ==> idx@[k] == low_freq_index(k),
{
    let mut idx: Vec<usize> = Vec::new();
    for r in 0..8usize
        invariant
            idx@.len() == 8 * r,
            forall|k: int| 0 <= k < 8 * r ==> idx@[k] == low_freq_index(k),
    {
        for c in 0..8usize
            invariant
                r < 8,
                idx@.len() == 8 * r + c,
                forall|k: int| 0 <= k < 8 * r + c ==> idx@[k] == low_freq_index(k),
        {
            idx.push(r * 32 + c);
            proof {
                assert((8 * r + c) / 8 == r as int && (8 * r + c) % 8 == c as int)
                    by (nonlinear_arith)
                    requires
                        0 <= c < 8 && 0 <= r,
                ;
            }
        }
    }
    idx
}

/// Value of the first `n` sign bits, the `i`-th bit carrying weight two to
/// the `i`: the first coefficient of the extraction order lands in the least
/// significant bit.
pub open spec fn pack_prefix(signs: Seq<bool>, n: nat) -> nat
    decreases n,
{
    if n == 0 {
        0
    } else {
        pack_prefix(signs, (n - 1) as nat) + (if signs[n - 1] {
            pow2((n - 1) as nat)
        } else {
            0nat
        })
    }
}

/// The hash value that a sequence of 64 sign bits packs to, least
/// significant bit first.
pub open spec fn pack_of(signs: Seq<bool>) -> nat {
    pack_prefix(signs, 64)
}

proof fn lemma_pack_prefix_bound(signs: Seq<bool>, n: nat)
    ensures
        pack_prefix(signs, n) < pow2(n),
    decreases n,
{
    if n > 0 {
        vstd::arithmetic::power2::lemma_pow2_unfold(n);
        lemma_pack_prefix_bound(signs, (n - 1) as nat);
    } else {
        vstd::arithmetic::power2::lemma_pow2_pos(0);
    }
}

/// Pack the 64 per-coefficient sign bits into the 64-bit hash, the bit for
/// the `i`-th coefficient of the extraction order set via a left shift by
/// `i`.
pub fn pack_signs(signs: &Vec<bool>) -> (h: u64)
    requires
        signs@.len() == 64,
    ensures
        h == pack_of(signs@),
{
    let mut h: u64 = 0;
    for i in 0..64usize
        invariant
            signs@.len() == 64,
            h == pack_prefix(signs@, i as nat),
    {
        proof {
            lemma_pack_prefix_bound(signs@, i as nat);
            if i < 63 {
                lemma_pow2_strictly_increases(i as nat, 63);
            }
            lemma_pow2_strictly_increases(i as nat, 64);
            vstd::arithmetic::power2::lemma2_to64_rest();
            lemma_u64_shl_is_mul(1u64, i as u64);
        }
        if signs[i] {
            h = h + (1u64 << (i as u64));
        }
    }
    h
}

} // verus!
