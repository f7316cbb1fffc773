//! The algebraic backend: Poseidon over the BN254 scalar field. Leaf values
//! are read as big-endian integers reduced modulo the field's order, so a
//! canonical scalar encoding passes through unchanged; output scalars are
//! written back as 32 big-endian bytes.
use vstd::prelude::*;

use crate::counter::{wrapped, HashCounter};
use crate::digest::Digest;
use crate::error::MerkleError;
use crate::hashes::{byte_strings, poseidon_bn254_hash, poseidon_bn254_of, POSEIDON_MAX_INPUTS};

verus! {

/// Leaf hash of the algebraic backend.
#[derive(Debug, Clone, Copy, PartialEq, Eq, Structural)]
pub struct PoseidonLeafHash;

/// Two-to-one compression of the algebraic backend.
#[derive(Debug, Clone, Copy, PartialEq, Eq, Structural)]
pub struct PoseidonCompress;

/// Hashes the inputs with Poseidon and reads the output as a digest.
fn poseidon_digest(inputs: &Vec<Vec<u8>>, counter: &mut HashCounter) -> (r: Result<
    Digest,
    MerkleError,
>)
    ensures
        1 <= inputs@.len() <= POSEIDON_MAX_INPUTS ==> (r matches Ok(d) && d@ == poseidon_bn254_of(
            byte_strings(inputs@),
        )),
        !(1 <= inputs@.len() <= POSEIDON_MAX_INPUTS) ==> r == Err::<Digest, MerkleError>(
            MerkleError::UnsupportedWidth,
        ),
        r is Ok ==> final(counter).value() == wrapped(old(counter).value() + 1),
        r is Err ==> final(counter).value() == old(counter).value(),
{
    match poseidon_bn254_hash(inputs) {
        None => Err(MerkleError::UnsupportedWidth),
        Some(out) => {
            let d = Digest::from_slice(&out);
            if d.is_ok() {
                counter.add();
            }
            d
        },
    }
}

impl PoseidonLeafHash {
    /// The backend takes no parameters.
    pub fn setup() -> (r: Result<(), MerkleError>)
        ensures
            r is Ok,
    {
        Ok(())
    }

    /// Hashes 1 to `POSEIDON_MAX_INPUTS` leaf values, each reduced into the
    /// field, into one digest.
    pub fn evaluate(input: &Vec<Vec<u8>>, counter: &mut HashCounter) -> (r: Result<
        Digest,
        MerkleError,
    >)
        ensures
            1 <= input@.len() <= POSEIDON_MAX_INPUTS ==> (r matches Ok(d) && d@
                == poseidon_bn254_of(byte_strings(input@))),
            !(1 <= input@.len() <= POSEIDON_MAX_INPUTS) ==> r == Err::<Digest, MerkleError>(
                MerkleError::UnsupportedWidth,
            ),
            r is Ok ==> final(counter).value() == wrapped(old(counter).value() + 1),
            r is Err ==> final(counter).value() == old(counter).value(),
    {
        poseidon_digest(input, counter)
    }
}

impl PoseidonCompress {
    /// The backend takes no parameters.
    pub fn setup() -> (r: Result<(), MerkleError>)
        ensures
            r is Ok,
    {
        Ok(())
    }

    /// Hashes the two digests, read as field elements, into their parent.
    pub fn evaluate(left_input: &Digest, right_input: &Digest, counter: &mut HashCounter) -> (r:
        Result<Digest, MerkleError>)
        ensures
            r matches Ok(d) && d@ == poseidon_bn254_of(seq![left_input@, right_input@]),
            final(counter).value() == wrapped(old(counter).value() + 1),
    {
        let mut inputs: Vec<Vec<u8>> = Vec::new();
        inputs.push(left_input.to_vec());
        inputs.push(right_input.to_vec());
        assert(byte_strings(inputs@) =~= seq![left_input@, right_input@]);
        poseidon_digest(&inputs, counter)
    }

    /// The same as `evaluate`.
    pub fn compress(left_input: &Digest, right_input: &Digest, counter: &mut HashCounter) -> (r:
        Result<Digest, MerkleError>)
        ensures
            r matches Ok(d) && d@ == poseidon_bn254_of(seq![left_input@, right_input@]),
            final(counter).value() == wrapped(old(counter).value() + 1),
    {
        Self::evaluate(left_input, right_input, counter)
    }
}

} // verus!
