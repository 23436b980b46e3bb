//! Deletion-aware scoring of quantized vectors.
//!
//! A [`QuantizedRawScorer`](quantized_raw_scorer::QuantizedRawScorer) holds an
//! encoded query and borrows two soft-deletion flag sequences and an encoded
//! vector store; it offers filtered batch scoring and ranked top-k retrieval
//! over the store's points, and never surfaces a deleted candidate.

pub mod bit_flags;
pub mod encoded_vectors;
pub mod quantized_raw_scorer;
pub mod raw_scorer;
pub mod tools;
pub mod types;
