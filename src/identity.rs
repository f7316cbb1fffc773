use vstd::prelude::*;

use crate::error::MerkleError;

verus! {

/// A converter under which the digest of one layer is the next layer's input
/// unchanged.
pub struct IdentityDigestConverter<T> {
    _prev_layer_digest: T,
}

impl<T> IdentityDigestConverter<T> {
    /// Hands the item back as it is.
    pub fn convert(item: T) -> (r: Result<T, MerkleError>)
        ensures
            r == Ok::<T, MerkleError>(item),
    {
        Ok(item)
    }
}

} // verus!
