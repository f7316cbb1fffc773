use vstd::prelude::*;

verus! {

/// Every failure that hashing, tree building and proof checking report.
#[derive(Debug, Clone, Copy, PartialEq, Eq, Structural)]
pub enum MerkleError {
    /// A byte string of the wrong length was offered as a digest.
    Serialization,
    /// A hash was asked to absorb more (or fewer) inputs than it supports,
    /// or a tree was given an arity its backend cannot use.
    UnsupportedWidth,
    /// A proof step is inconsistent with the declared arity.
    InvalidProofShape,
    /// The recomputed root differs from the expected one.
    ProofMismatch,
    /// A tree was requested over no leaves.
    EmptyInput,
    /// A proof was requested for a leaf the tree does not have.
    IndexOutOfRange,
}

} // verus!
