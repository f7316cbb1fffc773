use merkle_hash::backend::HashBackend;
use merkle_hash::counter::{HashCounter, QueryCounter};
use merkle_hash::digest::Digest;
use merkle_hash::error::MerkleError;
use merkle_hash::identity::IdentityDigestConverter;
use merkle_hash::inclusion::{Proof, ProofStep};
use merkle_hash::poseidon::{PoseidonCompress, PoseidonLeafHash};
use merkle_hash::tree::MerkleTree;

const BACKENDS: [HashBackend; 3] = [HashBackend::Poseidon, HashBackend::Blake3, HashBackend::Keccak256];

/// Canonical big-endian encoding of a small field element.
fn fe(n: u64) -> Vec<u8> {
    let mut v = vec![0u8; 24];
    v.extend_from_slice(&n.to_be_bytes());
    v
}

fn leaves(n: u64) -> Vec<Vec<u8>> {
    (0..n).map(fe).collect()
}

fn hex(d: &Digest) -> String {
    d.as_bytes().iter().map(|b| format!("{:02x}", b)).collect()
}

fn leaf_hash(b: HashBackend, items: Vec<Vec<u8>>) -> Digest {
    let mut c = HashCounter::new();
    b.leaf_hash(&items, &mut c).unwrap()
}

fn check(p: &Proof, leaf: &Vec<u8>, root: &Digest, b: HashBackend) -> Result<(), MerkleError> {
    let mut h = HashCounter::new();
    let mut q = QueryCounter::new();
    p.verify(leaf, root, b, &mut h, &mut q)
}

#[test]
fn known_digests_of_each_backend() {
    assert_eq!(
        hex(&leaf_hash(HashBackend::Blake3, vec![])),
        "af1349b9f5f9a1a6a0404dea36dcc9499bcb25c9adc112b7cc9a93cae41f3262"
    );
    assert_eq!(
        hex(&leaf_hash(HashBackend::Keccak256, vec![])),
        "c5d2460186f7233c927e7db2dcc703c0e500b653ca82273b7bfad8045d85a470"
    );
    assert_eq!(
        hex(&leaf_hash(HashBackend::Poseidon, vec![fe(1), fe(2)])),
        "115cc0f5e7d690413df64c6b9662e9cf2a3617f2743245519e19607a4417189a"
    );
}

#[test]
fn poseidon_reduces_inputs_modulo_the_field() {
    // r, the BN254 scalar field order, reads as zero.
    let r = vec![
        0x30, 0x64, 0x4e, 0x72, 0xe1, 0x31, 0xa0, 0x29, 0xb8, 0x50, 0x45, 0xb6, 0x81, 0x81, 0x58,
        0x5d, 0x28, 0x33, 0xe8, 0x48, 0x79, 0xb9, 0x70, 0x91, 0x43, 0xe1, 0xf5, 0x93, 0xf0, 0x00,
        0x00, 0x01,
    ];
    let a = leaf_hash(HashBackend::Poseidon, vec![r]);
    let b = leaf_hash(HashBackend::Poseidon, vec![fe(0)]);
    assert_eq!(a.as_bytes(), b.as_bytes());
}

#[test]
fn compress_equals_leaf_hash_of_pair() {
    let d1 = leaf_hash(HashBackend::Blake3, vec![fe(7)]);
    let d2 = leaf_hash(HashBackend::Keccak256, vec![fe(9)]);
    for b in BACKENDS {
        let mut c = HashCounter::new();
        let x = b.compress(&d1, &d2, &mut c).unwrap();
        assert_eq!(c.get(), 1);
        let y = b.leaf_hash(&vec![d1.to_vec(), d2.to_vec()], &mut c).unwrap();
        assert_eq!(c.get(), 2);
        assert_eq!(x.as_bytes(), y.as_bytes());
    }
    let mut c = HashCounter::new();
    let p = PoseidonCompress::compress(&d1, &d2, &mut c).unwrap();
    let q = PoseidonLeafHash::evaluate(&vec![d1.to_vec(), d2.to_vec()], &mut c).unwrap();
    assert_eq!(p.as_bytes(), q.as_bytes());
    assert!(PoseidonLeafHash::setup().is_ok());
    assert!(PoseidonCompress::setup().is_ok());
}

#[test]
fn byte_backends_are_order_sensitive() {
    let d1 = Digest::from_bytes([1u8; 32]);
    let d2 = Digest::from_bytes([2u8; 32]);
    for b in [HashBackend::Blake3, HashBackend::Keccak256] {
        let mut c = HashCounter::new();
        let x = b.compress(&d1, &d2, &mut c).unwrap();
        let y = b.compress(&d2, &d1, &mut c).unwrap();
        assert_ne!(x.as_bytes(), y.as_bytes());
    }
}

#[test]
fn every_proof_verifies_against_the_root() {
    for b in BACKENDS {
        for arity in [2usize, 3, 4] {
            for n in 1..10u64 {
                let ls = leaves(n);
                let mut c = HashCounter::new();
                let t = MerkleTree::build(&ls, b, arity, &mut c).unwrap();
                let root = t.root();
                for i in 0..n as usize {
                    let p = t.generate_proof(i).unwrap();
                    assert_eq!(p.leaf_index, i);
                    assert_eq!(p.path.len() + 1, t.depth());
                    assert_eq!(check(&p, &ls[i], &root, b), Ok(()));
                }
            }
        }
    }
}

#[test]
fn wrong_leaf_is_a_mismatch() {
    let ls = leaves(6);
    let mut c = HashCounter::new();
    let t = MerkleTree::build(&ls, HashBackend::Blake3, 2, &mut c).unwrap();
    let p = t.generate_proof(3).unwrap();
    assert_eq!(check(&p, &fe(4), &t.root(), HashBackend::Blake3), Err(MerkleError::ProofMismatch));
}

#[test]
fn flipping_any_sibling_byte_is_a_mismatch() {
    for b in BACKENDS {
        let ls = leaves(7);
        let mut c = HashCounter::new();
        let t = MerkleTree::build(&ls, b, 2, &mut c).unwrap();
        let root = t.root();
        let fresh = t.generate_proof(5).unwrap();
        for s in 0..fresh.path.len() {
            for g in 0..fresh.path[s].siblings.len() {
                for k in 0..32 {
                    let mut p = t.generate_proof(5).unwrap();
                    p.path[s].siblings[g].bytes[k] ^= 0x01;
                    assert_eq!(check(&p, &ls[5], &root, b), Err(MerkleError::ProofMismatch));
                }
            }
        }
        for k in 0..32 {
            let mut p = t.generate_proof(5).unwrap();
            p.leaf_siblings[0][k] ^= 0x01;
            assert_eq!(check(&p, &ls[5], &root, b), Err(MerkleError::ProofMismatch));
        }
    }
}

#[test]
fn digests_of_one_backend_fail_under_another() {
    let ls = leaves(4);
    for b in BACKENDS {
        let mut c = HashCounter::new();
        let t = MerkleTree::build(&ls, b, 2, &mut c).unwrap();
        let p = t.generate_proof(1).unwrap();
        for other in BACKENDS {
            if other != b {
                assert_eq!(check(&p, &ls[1], &t.root(), other), Err(MerkleError::ProofMismatch));
            }
        }
    }
}

#[test]
fn build_rejects_bad_input() {
    let mut c = HashCounter::new();
    assert_eq!(
        MerkleTree::build(&vec![], HashBackend::Blake3, 2, &mut c).err(),
        Some(MerkleError::EmptyInput)
    );
    assert_eq!(
        MerkleTree::build(&leaves(3), HashBackend::Blake3, 1, &mut c).err(),
        Some(MerkleError::UnsupportedWidth)
    );
    assert_eq!(
        MerkleTree::build(&leaves(3), HashBackend::Poseidon, 13, &mut c).err(),
        Some(MerkleError::UnsupportedWidth)
    );
    assert_eq!(c.get(), 0);
    assert!(MerkleTree::build(&leaves(3), HashBackend::Keccak256, 13, &mut c).is_ok());
}

#[test]
fn poseidon_width_limits() {
    let mut c = HashCounter::new();
    assert_eq!(
        HashBackend::Poseidon.leaf_hash(&vec![], &mut c).err(),
        Some(MerkleError::UnsupportedWidth)
    );
    assert_eq!(
        HashBackend::Poseidon.leaf_hash(&leaves(13), &mut c).err(),
        Some(MerkleError::UnsupportedWidth)
    );
    assert_eq!(c.get(), 0);
    assert!(HashBackend::Poseidon.leaf_hash(&leaves(12), &mut c).is_ok());
    assert_eq!(c.get(), 1);
}

#[test]
fn out_of_range_index() {
    let mut c = HashCounter::new();
    let t = MerkleTree::build(&leaves(3), HashBackend::Blake3, 2, &mut c).unwrap();
    assert_eq!(t.generate_proof(3).err(), Some(MerkleError::IndexOutOfRange));
}

#[test]
fn digest_from_slice_checks_length() {
    assert_eq!(Digest::from_slice(&vec![0u8; 31]).err(), Some(MerkleError::Serialization));
    let d = Digest::from_slice(&(0..32u8).collect()).unwrap();
    assert_eq!(d.to_vec(), (0..32u8).collect::<Vec<u8>>());
    assert!(d.same_as(&Digest::from_bytes(*d.as_bytes())));
    assert!(!d.same_as(&Digest::from_bytes([0u8; 32])));
}

#[test]
fn identity_converter_returns_its_input() {
    assert_eq!(IdentityDigestConverter::<u32>::convert(17), Ok(17));
}

#[test]
fn single_leaf_tree_is_its_leaf_digest() {
    for b in BACKENDS {
        let ls = vec![fe(42)];
        let mut c = HashCounter::new();
        c.reset();
        let t = MerkleTree::build(&ls, b, 2, &mut c).unwrap();
        assert_eq!(c.get(), 1);
        assert_eq!(t.depth(), 1);
        assert_eq!(t.leaf_count(), 1);
        assert_eq!(t.root().as_bytes(), leaf_hash(b, vec![fe(42)]).as_bytes());
        let p = t.generate_proof(0).unwrap();
        assert!(p.path.is_empty());
        assert!(p.leaf_siblings.is_empty());
        assert_eq!(check(&p, &ls[0], &t.root(), b), Ok(()));
    }
}

#[test]
fn leaves_within_one_chunk_hash_once() {
    for b in BACKENDS {
        let ls = leaves(3);
        let mut c = HashCounter::new();
        let t = MerkleTree::build(&ls, b, 4, &mut c).unwrap();
        assert_eq!(c.get(), 1);
        assert_eq!(t.depth(), 1);
        assert_eq!(t.root().as_bytes(), leaf_hash(b, ls.clone()).as_bytes());
        let p = t.generate_proof(1).unwrap();
        assert_eq!(p.leaf_position, 1);
        assert_eq!(p.leaf_siblings, vec![fe(0), fe(2)]);
        assert_eq!(check(&p, &ls[1], &t.root(), b), Ok(()));
    }
}

#[test]
fn five_leaves_at_arity_four_group_four_and_one() {
    for b in BACKENDS {
        let ls = leaves(5);
        let mut c = HashCounter::new();
        let t = MerkleTree::build(&ls, b, 4, &mut c).unwrap();
        assert_eq!(t.depth(), 2);
        assert_eq!(t.arity(), 4);
        assert_eq!(t.backend(), b);
        assert_eq!(c.get(), 2 + 1);
        let d0 = leaf_hash(b, ls[0..4].to_vec());
        let d1 = leaf_hash(b, vec![ls[4].clone()]);
        let root = leaf_hash(b, vec![d0.to_vec(), d1.to_vec()]);
        assert_eq!(t.root().as_bytes(), root.as_bytes());
        let again = MerkleTree::build(&ls, b, 4, &mut c).unwrap();
        assert_eq!(again.root().as_bytes(), root.as_bytes());
        let p = t.generate_proof(4).unwrap();
        assert!(p.leaf_siblings.is_empty());
        assert_eq!(p.leaf_position, 0);
        assert_eq!(p.path.len(), 1);
        assert_eq!(p.path[0].siblings.len(), 1);
        assert_eq!(p.path[0].siblings[0].as_bytes(), d0.as_bytes());
        assert_eq!(p.path[0].position, 1);
        assert_eq!(check(&p, &ls[4], &root, b), Ok(()));
    }
}

#[test]
fn counters_tally_hashes_and_queries() {
    let ls = leaves(5);
    let mut h = HashCounter::new();
    h.add();
    h.reset();
    assert_eq!(h.get(), 0);
    let t = MerkleTree::build(&ls, HashBackend::Keccak256, 2, &mut h).unwrap();
    // Chunk counts per level: 3, 2 and 1.
    assert_eq!(h.get(), 6);
    assert_eq!(t.depth(), 3);
    let p = t.generate_proof(4).unwrap();
    let mut q = QueryCounter::new();
    assert_eq!(q.add(2), 0);
    q.reset();
    h.reset();
    assert_eq!(p.verify(&ls[4], &t.root(), HashBackend::Keccak256, &mut h, &mut q), Ok(()));
    assert_eq!(q.get(), 3);
    assert_eq!(h.get(), 3);
    assert_eq!(q.add(5), 3);
    assert_eq!(q.get(), 8);
}

#[test]
fn poseidon_four_field_elements_binary() {
    let ls = leaves(4);
    let mut c = HashCounter::new();
    let t = MerkleTree::build(&ls, HashBackend::Poseidon, 2, &mut c).unwrap();
    assert_eq!(t.depth(), 2);
    assert_eq!(c.get(), 2 + 1);
    let d0 = leaf_hash(HashBackend::Poseidon, vec![fe(0), fe(1)]);
    let d1 = leaf_hash(HashBackend::Poseidon, vec![fe(2), fe(3)]);
    let mut k = HashCounter::new();
    let root = PoseidonCompress::compress(&d0, &d1, &mut k).unwrap();
    assert_eq!(t.root().as_bytes(), root.as_bytes());
    let again = MerkleTree::build(&ls, HashBackend::Poseidon, 2, &mut c).unwrap();
    assert_eq!(t.root().as_bytes(), again.root().as_bytes());
    let p = t.generate_proof(2).unwrap();
    assert_eq!(p.leaf_siblings, vec![fe(3)]);
    assert_eq!(p.leaf_position, 0);
    assert_eq!(p.path.len(), 1);
    assert_eq!(p.path[0].siblings.len(), 1);
    assert_eq!(p.path[0].siblings[0].as_bytes(), d0.as_bytes());
    assert_eq!(p.leaf_siblings.len() + p.path[0].siblings.len(), 2);
    assert_eq!(check(&p, &ls[2], &root, HashBackend::Poseidon), Ok(()));
}

#[test]
fn malformed_proofs_are_rejected() {
    let ls = leaves(4);
    let mut c = HashCounter::new();
    let t = MerkleTree::build(&ls, HashBackend::Blake3, 2, &mut c).unwrap();
    let root = t.root();
    let mut p = t.generate_proof(0).unwrap();
    p.leaf_siblings.push(fe(9));
    assert_eq!(check(&p, &ls[0], &root, HashBackend::Blake3), Err(MerkleError::InvalidProofShape));
    let mut p = t.generate_proof(0).unwrap();
    p.leaf_position = 2;
    assert_eq!(check(&p, &ls[0], &root, HashBackend::Blake3), Err(MerkleError::InvalidProofShape));
    let mut p = t.generate_proof(0).unwrap();
    p.path[0].siblings.push(Digest::from_bytes([0u8; 32]));
    assert_eq!(check(&p, &ls[0], &root, HashBackend::Blake3), Err(MerkleError::InvalidProofShape));
    let mut p = t.generate_proof(0).unwrap();
    p.path[0].position = 2;
    assert_eq!(check(&p, &ls[0], &root, HashBackend::Blake3), Err(MerkleError::InvalidProofShape));
    let bad = Proof {
        leaf_index: 0,
        arity: 1,
        leaf_position: 0,
        leaf_siblings: vec![],
        path: vec![ProofStep { position: 0, siblings: vec![] }],
    };
    let mut h = HashCounter::new();
    let mut q = QueryCounter::new();
    assert_eq!(
        bad.verify(&ls[0], &root, HashBackend::Blake3, &mut h, &mut q),
        Err(MerkleError::InvalidProofShape)
    );
    assert_eq!(h.get(), 0);
    assert_eq!(q.get(), 0);
}
