//! The closed set of hash backends and the two operations they share.
use vstd::prelude::*;

use crate::counter::{wrapped, HashCounter};
use crate::digest::Digest;
use crate::error::MerkleError;
use crate::hashes::{
    blake3_hash, blake3_of, byte_strings, keccak256_hash, keccak256_of, poseidon_bn254_of,
    POSEIDON_MAX_INPUTS,
};
use crate::poseidon::{PoseidonCompress, PoseidonLeafHash};

verus! {

broadcast use vstd::seq_lib::group_seq_properties;

/// Which hash family a tree is built with. Digests of one backend mean
/// nothing to another.
#[derive(Debug, Clone, Copy, PartialEq, Eq, Structural)]
pub enum HashBackend {
    /// Poseidon over the BN254 scalar field.
    Poseidon,
    /// BLAKE3 over byte strings.
    Blake3,
    /// Keccak-256 over byte strings.
    Keccak256,
}

/// Whether one call of backend `b` can absorb `n` leaf values.
pub open spec fn width_ok(b: HashBackend, n: nat) -> bool {
    b is Poseidon ==> 1 <= n <= POSEIDON_MAX_INPUTS
}

/// The digest that `leaf_hash` gives for an ordered list of leaf values.
/// The byte backends hash the concatenation; Poseidon absorbs each value as
/// one field element.
pub open spec fn leaf_digest(b: HashBackend, leaves: Seq<Seq<u8>>) -> Seq<u8> {
    match b {
        HashBackend::Poseidon => poseidon_bn254_of(leaves),
        HashBackend::Blake3 => blake3_of(leaves.flatten()),
        HashBackend::Keccak256 => keccak256_of(leaves.flatten()),
    }
}

/// The digest that `compress` gives for a left and a right digest.
pub open spec fn compress_digest(b: HashBackend, left: Seq<u8>, right: Seq<u8>) -> Seq<u8> {
    match b {
        HashBackend::Poseidon => poseidon_bn254_of(seq![left, right]),
        HashBackend::Blake3 => blake3_of(left + right),
        HashBackend::Keccak256 => keccak256_of(left + right),
    }
}

/// For every backend, compressing two digests equals leaf-hashing them as a
/// two-element list of leaf values, and a two-element list is always
/// accepted.
pub proof fn lemma_compress_is_pair_leaf_hash(b: HashBackend, left: Seq<u8>, right: Seq<u8>)
    ensures
        compress_digest(b, left, right) == leaf_digest(b, seq![left, right]),
        width_ok(b, 2),
{
    let pair = seq![left, right];
    assert(pair =~= Seq::<Seq<u8>>::empty().push(left).push(right));
    Seq::<Seq<u8>>::empty().lemma_flatten_push(left);
    Seq::<Seq<u8>>::empty().push(left).lemma_flatten_push(right);
    assert(pair.flatten() =~= left + right);
}

/// The concatenation of all byte strings, in order.
fn concat_bytes(leaves: &Vec<Vec<u8>>) -> (r: Vec<u8>)
    ensures
        r@ == byte_strings(leaves@).flatten(),
{
    let mut out: Vec<u8> = Vec::new();
    let mut i: usize = 0;
    while i < leaves.len()
        invariant
            i <= leaves@.len(),
            out@ == byte_strings(leaves@.take(i as int)).flatten(),
        decreases leaves@.len() - i,
    {
        let leaf = &leaves[i];
        let mut k: usize = 0;
        let ghost start = out@;
        while k < leaf.len()
            invariant
                k <= leaf@.len(),
                out@ == start + leaf@.take(k as int),
            decreases leaf@.len() - k,
        {
            out.push(leaf[k]);
            proof {
                assert(leaf@.take(k + 1) =~= leaf@.take(k as int).push(leaf@[k as int]));
                assert(out@ =~= start + leaf@.take(k + 1));
            }
            k = k + 1;
        }
        proof {
            assert(leaf@.take(k as int) =~= leaf@);
            assert(byte_strings(leaves@.take(i + 1)) =~= byte_strings(leaves@.take(i as int)).push(
                leaf@,
            ));
            byte_strings(leaves@.take(i as int)).lemma_flatten_push(leaf@);
        }
        i = i + 1;
    }
    assert(leaves@.take(i as int) =~= leaves@);
    out
}

/// The bytes of `left` followed by those of `right`.
pub(crate) fn pair_bytes(left: &Digest, right: &Digest) -> (r: Vec<u8>)
    ensures
        r@ == left@ + right@,
{
    let mut out = left.to_vec();
    let mut k: usize = 0;
    while k < 32
        invariant
            k <= 32,
            right.bytes@.len() == 32,
            out@ == left@ + right@.take(k as int),
        decreases 32 - k,
    {
        out.push(right.bytes[k]);
        assert(right@.take(k + 1) =~= right@.take(k as int).push(right@[k as int]));
        assert(out@ =~= left@ + right@.take(k + 1));
        k = k + 1;
    }
    assert(right@.take(32) =~= right@);
    out
}

impl HashBackend {
    /// Hashes an ordered list of leaf values into one digest.
    pub fn leaf_hash(&self, leaves: &Vec<Vec<u8>>, counter: &mut HashCounter) -> (r: Result<
        Digest,
        MerkleError,
    >)
        ensures
            width_ok(*self, leaves@.len()) ==> (r matches Ok(d) && d@ == leaf_digest(
                *self,
                byte_strings(leaves@),
            )),
            !width_ok(*self, leaves@.len()) ==> r == Err::<Digest, MerkleError>(
                MerkleError::UnsupportedWidth,
            ),
            r is Ok ==> final(counter).value() == wrapped(old(counter).value() + 1),
            r is Err ==> final(counter).value() == old(counter).value(),
    {
        match self {
            HashBackend::Poseidon => PoseidonLeafHash::evaluate(leaves, counter),
            HashBackend::Blake3 => {
                let data = concat_bytes(leaves);
                let out = blake3_hash(&data);
                counter.add();
                Ok(Digest::from_bytes(out))
            },
            HashBackend::Keccak256 => {
                let data = concat_bytes(leaves);
                let out = keccak256_hash(&data);
                counter.add();
                Ok(Digest::from_bytes(out))
            },
        }
    }

    /// Combines a left and a right digest into their parent.
    pub fn compress(&self, left: &Digest, right: &Digest, counter: &mut HashCounter) -> (r: Result<
        Digest,
        MerkleError,
    >)
        ensures
            r matches Ok(d) && d@ == compress_digest(*self, left@, right@),
            final(counter).value() == wrapped(old(counter).value() + 1),
    {
        match self {
            HashBackend::Poseidon => PoseidonCompress::compress(left, right, counter),
            HashBackend::Blake3 => {
                let data = pair_bytes(left, right);
                let out = blake3_hash(&data);
                counter.add();
                Ok(Digest::from_bytes(out))
            },
            HashBackend::Keccak256 => {
                let data = pair_bytes(left, right);
                let out = keccak256_hash(&data);
                counter.add();
                Ok(Digest::from_bytes(out))
            },
        }
    }
}

} // verus!
