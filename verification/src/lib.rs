//! A binary Merkle hash tree over an ordered sequence of 64-bit values.
//!
//! The tree pads its hashed leaves to the next power of two, folds adjacent
//! pairs of digests until a single root digest remains, and produces compact
//! inclusion proofs that a stateless verifier can check against a committed
//! root.

pub mod model;
pub mod tree;
