//! The outside hash primitives, each behind one trusted wrapper, and names
//! for what they compute.
use vstd::prelude::*;

use ark_ff::{BigInteger, PrimeField};
use light_poseidon::{Poseidon, PoseidonHasher};

verus! {

/// BLAKE3 of a byte string (32-byte output).
pub uninterp spec fn blake3_of(data: Seq<u8>) -> Seq<u8>;

/// Keccak-256 of a byte string.
pub uninterp spec fn keccak256_of(data: Seq<u8>) -> Seq<u8>;

/// The circom-compatible Poseidon hash over BN254 of the inputs, each read as
/// a big-endian integer reduced modulo the scalar field's order; the result is
/// the canonical big-endian encoding of the output scalar.
pub uninterp spec fn poseidon_bn254_of(inputs: Seq<Seq<u8>>) -> Seq<u8>;

/// Largest number of inputs the Poseidon parameters cover in one call.
pub const POSEIDON_MAX_INPUTS: usize = 12;

/// The byte strings that a sequence of byte vectors holds, in order.
pub open spec fn byte_strings(v: Seq<Vec<u8>>) -> Seq<Seq<u8>> {
    v.map_values(|b: Vec<u8>| b@)
}

/// Relies on `blake3::hash`: the 32-byte BLAKE3 digest of the input.
#[verifier::external_body]
pub(crate) fn blake3_hash(data: &Vec<u8>) -> (r: [u8; 32])
    ensures
        r@ == blake3_of(data@),
{
    blake3::hash(data.as_slice()).into()
}

/// Relies on `sha3::Keccak256::digest`: the 32-byte Keccak-256 digest of the
/// input.
#[verifier::external_body]
pub(crate) fn keccak256_hash(data: &Vec<u8>) -> (r: [u8; 32])
    ensures
        r@ == keccak256_of(data@),
{
    <sha3::Keccak256 as sha3::Digest>::digest(data.as_slice()).into()
}

/// Relies on `ark_ff::PrimeField::from_be_bytes_mod_order` to read each input,
/// on `light_poseidon::Poseidon::new_circom`, which has parameters for 1 to 12
/// inputs and fails otherwise, on `PoseidonHasher::hash`, which succeeds when
/// given as many inputs as the hasher was made for, and on
/// `BigInteger::to_bytes_be`, which writes the four 64-bit limbs of a BN254
/// scalar as 32 bytes.
#[verifier::external_body]
pub(crate) fn poseidon_bn254_hash(inputs: &Vec<Vec<u8>>) -> (r: Option<Vec<u8>>)
    ensures
        r is Some <==> 1 <= inputs@.len() <= POSEIDON_MAX_INPUTS,
        r matches Some(v) ==> (v@ == poseidon_bn254_of(byte_strings(inputs@)) && v@.len() == 32),
{
    let scalars: Vec<ark_bn254::Fr> =
        inputs.iter().map(|b| ark_bn254::Fr::from_be_bytes_mod_order(b)).collect();
    let mut hasher = Poseidon::<ark_bn254::Fr>::new_circom(scalars.len()).ok()?;
    let out = hasher.hash(&scalars).ok()?;
    Some(out.into_bigint().to_bytes_be())
}

} // verus!
