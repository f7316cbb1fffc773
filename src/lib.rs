//! Merkle trees over interchangeable hash backends: an algebraic Poseidon hash
//! over the BN254 scalar field and the byte hashes BLAKE3 and Keccak-256.
//! Trees of any arity are built from ordered leaves, inclusion proofs are
//! extracted and checked, and hash work is tallied in caller-owned counters.
pub mod counter;
pub mod digest;
pub mod error;
pub mod hashes;
pub mod backend;
pub mod poseidon;
pub mod tree;
pub mod inclusion;
pub mod identity;
