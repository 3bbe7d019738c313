//! Perceptual image hashing and similarity ranking.
//!
//! The crate fingerprints images with 64-bit perceptual hashes (a
//! gradient-based difference hash and a DCT-based frequency hash), collects
//! the hashes of a directory scan into a table, and ranks every image of the
//! table against every other by Hamming distance.

pub mod algorithm;
pub mod d_hash;
pub mod hamming;
pub mod hash_table;
pub mod p_hash;
pub mod preprocess;
pub mod similarity;
