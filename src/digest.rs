use vstd::prelude::*;

use crate::error::MerkleError;

verus! {

/// Width of every digest, in bytes.
pub const DIGEST_LEN: usize = 32;

/// A fixed-width node identifier.
#[derive(Debug, Clone, Copy)]
pub struct Digest {
    pub bytes: [u8; 32],
}

impl View for Digest {
    type V = Seq<u8>;

    open spec fn view(&self) -> Seq<u8> {
        self.bytes@
    }
}

/// The byte strings that a sequence of digests holds, in order.
pub open spec fn digests_view(ds: Seq<Digest>) -> Seq<Seq<u8>> {
    ds.map_values(|d: Digest| d@)
}

impl Digest {
    pub fn from_bytes(bytes: [u8; 32]) -> (r: Digest)
        ensures
            r@ == bytes@,
    {
        Digest { bytes }
    }

    pub fn as_bytes(&self) -> (r: &[u8; 32])
        ensures
            r@ == self@,
    {
        &self.bytes
    }

    /// Reads a digest from a byte string, which must be exactly
    /// `DIGEST_LEN` bytes long.
    pub fn from_slice(b: &Vec<u8>) -> (r: Result<Digest, MerkleError>)
        ensures
            b@.len() == DIGEST_LEN ==> (r matches Ok(d) && d@ == b@),
            b@.len() != DIGEST_LEN ==> r == Err::<Digest, MerkleError>(MerkleError::Serialization),
    {
        if b.len() != DIGEST_LEN {
            return Err(MerkleError::Serialization);
        }
        let mut bytes = [0u8; 32];
        let mut i: usize = 0;
        while i < DIGEST_LEN
            invariant
                b@.len() == DIGEST_LEN,
                i <= DIGEST_LEN,
                bytes@.len() == DIGEST_LEN,
                forall|k: int| 0 <= k < i ==> bytes@[k] == b@[k],
            decreases DIGEST_LEN - i,
        {
            bytes[i] = b[i];
            i = i + 1;
        }
        assert(bytes@ =~= b@);
        Ok(Digest { bytes })
    }

    /// The digest's bytes as a growable byte string.
    pub fn to_vec(&self) -> (r: Vec<u8>)
        ensures
            r@ == self@,
    {
        let mut out: Vec<u8> = Vec::new();
        let mut i: usize = 0;
        while i < DIGEST_LEN
            invariant
                i <= DIGEST_LEN,
                self.bytes@.len() == DIGEST_LEN,
                out@ =~= self@.take(i as int),
            decreases DIGEST_LEN - i,
        {
            out.push(self.bytes[i]);
            i = i + 1;
        }
        assert(out@ =~= self@);
        out
    }

    /// Bytewise equality.
    pub fn same_as(&self, other: &Digest) -> (r: bool)
        ensures
            r == (self@ == other@),
    {
        let mut i: usize = 0;
        while i < DIGEST_LEN
            invariant
                i <= DIGEST_LEN,
                self.bytes@.len() == DIGEST_LEN,
                other.bytes@.len() == DIGEST_LEN,
                self@.take(i as int) =~= other@.take(i as int),
            decreases DIGEST_LEN - i,
        {
            if self.bytes[i] != other.bytes[i] {
                assert(self@[i as int] != other@[i as int]);
                return false;
            }
            assert(self@.take(i + 1) =~= self@.take(i as int).push(self@[i as int]));
            assert(other@.take(i + 1) =~= other@.take(i as int).push(other@[i as int]));
            i = i + 1;
        }
        assert(self@ =~= self@.take(32));
        assert(other@ =~= other@.take(32));
        true
    }
}

} // verus!
