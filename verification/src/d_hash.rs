//! Difference hash (dHash): a gradient-sign fingerprint.
//!
//! The image is normalized to 9 columns by 8 rows. Within each row, every
//! pixel is compared to its right neighbour; the comparison yields a 1 bit
//! when the left pixel is strictly brighter. The 64 bits are packed
//! most-significant-first in row-major scan order.

use vstd::prelude::*;
use vstd::arithmetic::power2::pow2;
use vstd::arithmetic::power2::lemma_pow2_strictly_increases;
use crate::preprocess::DecodeError;
use crate::preprocess::decodes;
use crate::preprocess::gray_of;
use crate::preprocess::preprocess;

verus! {

/// Number of pixel rows of the normalized buffer.
pub const DHASH_HEIGHT: u32 = 8;

/// Number of pixel columns of the normalized buffer; one more than the
/// number of comparisons per row, so that the 8 rows give exactly 64 bits.
pub const DHASH_WIDTH: u32 = 9;

/// The `k`-th comparison of the row-major scan, for `0 <= k < 64`: true
/// when the pixel at row `k / 8`, column `k % 8` is strictly brighter than
/// its right neighbour.
pub open spec fn dhash_cmp(pixels: Seq<u8>, k: int) -> bool {
    pixels[(k / 8) * 9 + k % 8] > pixels[(k / 8) * 9 + k % 8 + 1]
}

/// Value of the first `n` comparisons packed most-significant-first: each
/// further comparison shifts the value up one bit and lands in the lowest.
pub open spec fn dhash_prefix(pixels: Seq<u8>, n: nat) -> nat
    decreases n,
{
    if n == 0 {
        0
    } else {
        2 * dhash_prefix(pixels, (n - 1) as nat) + (if dhash_cmp(pixels, n - 1) {
            1nat
        } else {
            0nat
        })
    }
}

/// The difference hash of a 9-by-8 grayscale buffer: all 64 comparison bits,
/// the first comparison of the scan in the most significant bit.
pub open spec fn dhash_of(pixels: Seq<u8>) -> nat {
    dhash_prefix(pixels, 64)
}

proof fn lemma_dhash_prefix_bound(pixels: Seq<u8>, n: nat)
    ensures
        dhash_prefix(pixels, n) < pow2(n),
    decreases n,
{
    if n > 0 {
        vstd::arithmetic::power2::lemma_pow2_unfold(n);
        lemma_dhash_prefix_bound(pixels, (n - 1) as nat);
    } else {
        vstd::arithmetic::power2::lemma_pow2_pos(0);
    }
}

/// Pack the 64 gradient signs of a 9-by-8 grayscale buffer into a 64-bit
/// hash, row-major, most significant bit first.
pub fn hash(pixels: &Vec<u8>) -> (h: u64)
    requires
        pixels@.len() == 72,
    ensures
        h == dhash_of(pixels@),
{
    let mut h: u64 = 0;
    for i in 0..8usize
        invariant
            pixels@.len() == 72,
            h == dhash_prefix(pixels@, (8 * i) as nat),
    {
        let row_start: usize = i * 9;
        for j in 0..8usize
            invariant
                pixels@.len() == 72,
                i < 8,
                row_start == i * 9,
                h == dhash_prefix(pixels@, (8 * i + j) as nat),
        {
            proof {
                let k: nat = (8 * i + j) as nat;
                lemma_dhash_prefix_bound(pixels@, k);
                if k < 63 {
                    lemma_pow2_strictly_increases(k, 63);
                }
                vstd::arithmetic::power2::lemma2_to64_rest();
                assert((8 * i + j) / 8 == i as int && (8 * i + j) % 8 == j as int)
                    by (nonlinear_arith)
                    requires
                        0 <= j < 8 && 0 <= i,
                ;
            }
            h = h * 2;
            if pixels[row_start + j] > pixels[row_start + j + 1] {
                h = h + 1;
            }
        }
    }
    h
}

/// The difference hash is robust to uniform brightness shifts: adding the
/// same offset to every pixel, without clipping, leaves every gradient sign
/// and so the whole hash unchanged.
pub proof fn lemma_dhash_brightness_invariant(pixels: Seq<u8>, shifted: Seq<u8>, delta: int)
    requires
        pixels.len() == 72,
        shifted.len() == 72,
        forall|p: int| 0 <= p < 72 ==> #[trigger] shifted[p] == pixels[p] + delta,
    ensures
        dhash_of(shifted) == dhash_of(pixels),
{
    lemma_dhash_prefix_shift(pixels, shifted, delta, 64);
}

proof fn lemma_dhash_prefix_shift(pixels: Seq<u8>, shifted: Seq<u8>, delta: int, n: nat)
    requires
        pixels.len() == 72,
        shifted.len() == 72,
        n <= 64,
        forall|p: int| 0 <= p < 72 ==> #[trigger] shifted[p] == pixels[p] + delta,
    ensures
        dhash_prefix(shifted, n) == dhash_prefix(pixels, n),
    decreases n,
{
    if n > 0 {
        lemma_dhash_prefix_shift(pixels, shifted, delta, (n - 1) as nat);
        let k = n - 1;
        assert(0 <= k / 8 < 8 && 0 <= k % 8 < 8) by (nonlinear_arith)
            requires
                0 <= k < 64,
        ;
        assert((k / 8) * 9 + k % 8 + 1 < 72) by (nonlinear_arith)
            requires
                0 <= k / 8 < 8 && 0 <= k % 8 < 8,
        ;
        assert(dhash_cmp(shifted, k) == dhash_cmp(pixels, k));
    }
}

/// What `d_hash` promises of its result: it succeeds exactly when the bytes
/// decode as a supported image, a success carries the packed gradient signs
/// of the decoded buffer, and a failure carries the decode error.
pub open spec fn d_hash_ensures(bytes: Seq<u8>, result: Result<u64, DecodeError>) -> bool {
    &&& result is Ok <==> decodes(bytes)
    &&& (result matches Ok(h) ==> h == dhash_of(gray_of(bytes, DHASH_HEIGHT, DHASH_WIDTH)))
    &&& (result matches Err(e) ==> e == DecodeError::InvalidImage)
}

/// The difference hash is deterministic: two hashes of the same input bytes
/// return the identical result, outcome included — both succeed with
/// bit-identical hashes, or both fail with the decode error — because
/// decodability and the decoded buffer are functions of the bytes alone.
pub proof fn lemma_d_hash_deterministic(
    bytes: Seq<u8>,
    r1: Result<u64, DecodeError>,
    r2: Result<u64, DecodeError>,
)
    requires
        d_hash_ensures(bytes, r1),
        d_hash_ensures(bytes, r2),
    ensures
        r1 == r2,
{
}

/// Difference hash of an image given as raw file bytes: normalize to a
/// 9-by-8 grayscale buffer, then pack the 64 gradient signs. Succeeds
/// exactly when the bytes decode as a supported image; fails with the
/// decode error otherwise.
pub fn d_hash(bytes: &Vec<u8>) -> (result: Result<u64, DecodeError>)
    ensures
        d_hash_ensures(bytes@, result),
{
    match preprocess(bytes, DHASH_HEIGHT, DHASH_WIDTH) {
        Ok(pixels) => Ok(hash(&pixels)),
        Err(e) => Err(e),
    }
}

} // verus!
