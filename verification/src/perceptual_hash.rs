//! Perceptual fingerprints for images.
//!
//! An image is decoded to a small square grid of grayscale samples; each
//! sample contributes one bit — whether it is at least as bright as the
//! grid's mean — and the bits are packed most-significant-bit first in
//! row-major sample order into a 64-bit fingerprint.  Similarity of two
//! fingerprints is their Hamming distance.

use vstd::prelude::*;
use vstd::arithmetic::power2::pow2;
use vstd::arithmetic::power2::lemma_pow2_strictly_increases;
use vstd::arithmetic::power2::lemma2_to64;
use vstd::arithmetic::power2::lemma2_to64_rest;

use crate::error::DejaVuError;

verus! {

/// Number of one bits in the binary representation of `n`.
pub open spec fn popcount(n: nat) -> nat
    decreases n,
{
    if n == 0 {
        0
    } else {
        n % 2 + popcount(n / 2)
    }
}

/// A number below `pow2(k)` has at most `k` one bits.
pub proof fn lemma_popcount_bound(n: nat, k: nat)
    requires
        n < pow2(k),
    ensures
        popcount(n) <= k,
    decreases k,
{
    if k == 0 {
        assert(pow2(0) == 1) by {
            lemma2_to64();
        }
    } else {
        assert(pow2(k) == 2 * pow2((k - 1) as nat)) by {
            vstd::arithmetic::power2::lemma_pow2_unfold(k);
        }
        if n > 0 {
            lemma_popcount_bound(n / 2, (k - 1) as nat);
        }
    }
}

/// Hamming distance is symmetric, at most 64, and zero between a
/// fingerprint and itself.
pub proof fn lemma_hamming_symmetry_and_bound(a: u64, b: u64)
    ensures
        popcount((a ^ b) as nat) == popcount((b ^ a) as nat),
        popcount((a ^ b) as nat) <= 64,
        popcount((a ^ a) as nat) == 0,
{
    assert(a ^ b == b ^ a) by (bit_vector);
    assert(a ^ a == 0) by (bit_vector);
    assert(pow2(64) == 0x10000000000000000) by {
        lemma2_to64_rest();
    }
    lemma_popcount_bound((a ^ b) as nat, 64);
}

/// Sum of all samples of a grid.
pub open spec fn grid_sum(g: Seq<u8>) -> int
    decreases g.len(),
{
    if g.len() == 0 {
        0
    } else {
        grid_sum(g.drop_last()) + g.last()
    }
}

/// Mean sample value of a grid, rounded down; zero for an empty grid.
pub open spec fn grid_mean(g: Seq<u8>) -> int {
    if g.len() == 0 {
        0
    } else {
        grid_sum(g) / (g.len() as int)
    }
}

/// The grid's threshold bits packed into an integer, first sample most
/// significant: a sample at least as bright as `mean` contributes a one.
pub open spec fn pack_bits(g: Seq<u8>, mean: int) -> int
    decreases g.len(),
{
    if g.len() == 0 {
        0
    } else {
        2 * pack_bits(g.drop_last(), mean) + (if g.last() >= mean {
            1int
        } else {
            0int
        })
    }
}

/// Packed bits of a grid of `k` samples stay below `pow2(k)`.
pub proof fn lemma_pack_bits_bound(g: Seq<u8>, mean: int)
    ensures
        0 <= pack_bits(g, mean) < pow2(g.len()),
    decreases g.len(),
{
    if g.len() == 0 {
        assert(pow2(0) == 1) by {
            lemma2_to64();
        }
    } else {
        lemma_pack_bits_bound(g.drop_last(), mean);
        assert(pow2(g.len()) == 2 * pow2((g.len() - 1) as nat)) by {
            vstd::arithmetic::power2::lemma_pow2_unfold(g.len() as nat);
        }
    }
}

/// The average-hash fingerprint of a grayscale grid.
pub open spec fn ahash(g: Seq<u8>) -> int {
    pack_bits(g, grid_mean(g))
}

/// What the image codec yields for an image: the `side` x `side` grayscale
/// grid decoded from the encoded bytes.  Decoding is a function of the
/// bytes alone.
pub uninterp spec fn grid_of(bytes: Seq<u8>, side: nat) -> Seq<u8>;

/// Whether the image codec can decode these bytes as an image at all —
/// a function of the bytes alone.
pub uninterp spec fn decodable(bytes: Seq<u8>) -> bool;

/// Relies on `image::load_from_memory`, `DynamicImage::resize_exact`,
/// `DynamicImage::to_luma8` and `ImageBuffer::into_raw`: decoding succeeds
/// on a fixed set of byte sequences, and then a decoded image resized to
/// `side` x `side` and taken to 8-bit grayscale holds exactly
/// `side * side` one-byte samples in row-major order; the whole pipeline
/// is a function of the encoded bytes alone.
#[verifier::external_body]
fn decode_grayscale_grid(bytes: &Vec<u8>, side: u32) -> (r: Option<Vec<u8>>)
    ensures
        r is Some <==> decodable(bytes@),
        r matches Some(g) ==> g@ == grid_of(bytes@, side as nat) && g@.len() == side * side,
{
    match image::load_from_memory(bytes.as_slice()) {
        Ok(img) => Some(
            img.resize_exact(side, side, image::imageops::FilterType::Triangle).to_luma8().into_raw(),
        ),
        Err(_) => None,
    }
}

/// Computes perceptual fingerprints over a `hash_size` x `hash_size`
/// sample grid.
pub struct PerceptualHasher {
    /// Side length of the sample grid; at most 8, so the bits fit in 64.
    pub hash_size: u8,
}

/// Packs the threshold bits of a grayscale grid into a fingerprint.
pub fn hash_from_grid(grid: &Vec<u8>) -> (r: u64)
    requires
        grid@.len() <= 64,
    ensures
        r == ahash(grid@),
{
    let n = grid.len();
    if n == 0 {
        return 0;
    }
    let mut sum: u32 = 0;
    for i in 0..n
        invariant
            n == grid@.len() <= 64,
            sum == grid_sum(grid@.subrange(0, i as int)),
            sum <= i * 255,
    {
        proof {
            assert(grid@.subrange(0, i + 1).drop_last() =~= grid@.subrange(0, i as int));
        }
        sum = sum + grid[i] as u32;
    }
    proof {
        assert(grid@.subrange(0, n as int) =~= grid@);
    }
    let mean: u32 = sum / (n as u32);
    let ghost m: int = grid_mean(grid@);
    let mut h: u64 = 0;
    proof {
        lemma2_to64();
    }
    for i in 0..n
        invariant
            n == grid@.len() <= 64,
            mean == m,
            h == pack_bits(grid@.subrange(0, i as int), m),
            h < pow2(i as nat),
    {
        proof {
            lemma2_to64_rest();
            lemma2_to64();
            if (i as nat) < 64 {
                lemma_pow2_strictly_increases(i as nat, 64);
            }
            vstd::arithmetic::power2::lemma_pow2_unfold((i + 1) as nat);
            assert(grid@.subrange(0, i + 1).drop_last() =~= grid@.subrange(0, i as int));
        }
        let bit: u64 = if grid[i] as u32 >= mean {
            1
        } else {
            0
        };
        h = h * 2 + bit;
    }
    proof {
        assert(grid@.subrange(0, n as int) =~= grid@);
    }
    h
}

impl PerceptualHasher {
    /// A hasher over the canonical 8 x 8 grid.
    pub fn new() -> (r: Self)
        ensures
            r.hash_size == 8,
    {
        PerceptualHasher { hash_size: 8 }
    }

    /// A hasher over a `hash_size` x `hash_size` grid; the grid may hold at
    /// most 64 samples.
    pub fn with_size(hash_size: u8) -> (r: Self)
        requires
            1 <= hash_size <= 8,
        ensures
            r.hash_size == hash_size,
    {
        PerceptualHasher { hash_size }
    }

    /// The fingerprint of the image encoded in `bytes`: its decoded
    /// grayscale grid, average-hashed.  Succeeds exactly on bytes the
    /// codec can decode; anything else gives an image error, never a
    /// made-up fingerprint.
    pub fn compute_hash(&self, bytes: &Vec<u8>) -> (r: Result<u64, DejaVuError>)
        requires
            1 <= self.hash_size <= 8,
        ensures
            r is Ok <==> decodable(bytes@),
            r matches Ok(h) ==> h == ahash(grid_of(bytes@, self.hash_size as nat)),
            r is Err ==> r->Err_0 is Image,
    {
        match decode_grayscale_grid(bytes, self.hash_size as u32) {
            Some(grid) => {
                proof {
                    assert(self.hash_size as int * self.hash_size as int <= 64)
                        by (nonlinear_arith)
                        requires 1 <= self.hash_size <= 8;
                }
                Ok(hash_from_grid(&grid))
            },
            None => Err(DejaVuError::Image(String::from_str("image could not be decoded"))),
        }
    }

    /// Hamming distance between two fingerprints: the number of bits in
    /// which they differ.
    pub fn hamming_distance(hash1: u64, hash2: u64) -> (r: u32)
        ensures
            r == popcount((hash1 ^ hash2) as nat),
            r <= 64,
    {
        proof {
            lemma_hamming_symmetry_and_bound(hash1, hash2);
        }
        let mut x: u64 = hash1 ^ hash2;
        let mut count: u32 = 0;
        let ghost total: nat = popcount(x as nat);
        while x > 0
            invariant
                count + popcount(x as nat) == total,
                total <= 64,
            decreases x,
        {
            count = count + (x % 2) as u32;
            x = x / 2;
        }
        count
    }

    /// Whether two fingerprints differ in at most `threshold` bits.
    pub fn are_similar(hash1: u64, hash2: u64, threshold: u32) -> (r: bool)
        ensures
            r == (popcount((hash1 ^ hash2) as nat) <= threshold),
    {
        Self::hamming_distance(hash1, hash2) <= threshold
    }
}

impl Default for PerceptualHasher {
    /// The default hasher uses the canonical 8 x 8 grid.
    fn default() -> (r: Self)
        ensures
            r.hash_size == 8,
    {
        PerceptualHasher::new()
    }
}

} // verus!
