//! Inclusion proofs: the other leaf values of the leaf's chunk and the leaf's
//! position in it, then, for each digest level below the root, the other
//! digests of the chunk that holds the path's node and that node's position.
use vstd::prelude::*;

use crate::backend::{compress_digest, leaf_digest, lemma_compress_is_pair_leaf_hash, HashBackend};
use crate::counter::{lemma_wrapped_add, wrapped, HashCounter, QueryCounter};
use crate::digest::{digests_view, Digest};
use crate::error::MerkleError;
use crate::hashes::byte_strings;
use crate::tree::{
    arity_ok, chunk_inputs, chunk_of, lemma_chunk_index, levels_wf, parent_level,
    values_between, MerkleTree,
};

verus! {

broadcast use vstd::seq_lib::group_seq_properties;

/// One level of a proof: the digests that share a chunk with the path's
/// node, in order, and the node's position among them.
#[derive(Debug)]
pub struct ProofStep {
    pub position: usize,
    pub siblings: Vec<Digest>,
}

/// An inclusion proof for one leaf, independent of the tree it came from.
#[derive(Debug)]
pub struct Proof {
    pub leaf_index: usize,
    pub arity: usize,
    /// Position of the leaf among the values of its chunk.
    pub leaf_position: usize,
    /// The other leaf values of the leaf's chunk, in order.
    pub leaf_siblings: Vec<Vec<u8>>,
    pub path: Vec<ProofStep>,
}

/// The digest of the leaf's chunk, rebuilt from the claimed leaf value.
pub open spec fn leaf_chunk_digest(b: HashBackend, p: Proof, leaf: Seq<u8>) -> Seq<u8> {
    leaf_digest(b, byte_strings(p.leaf_siblings@).insert(p.leaf_position as int, leaf))
}

/// The chunk that a step describes once `node` is put back at its position.
pub open spec fn step_chunk(s: ProofStep, node: Seq<u8>) -> Seq<Seq<u8>> {
    digests_view(s.siblings@).insert(s.position as int, node)
}

/// A step fits arity `a`: at most `a - 1` siblings, and a position among
/// them.
pub open spec fn step_ok(a: nat, s: ProofStep) -> bool {
    s.siblings@.len() + 1 <= a && s.position <= s.siblings@.len()
}

/// The proof can be checked with backend `b`.
pub open spec fn shape_ok(b: HashBackend, p: Proof) -> bool {
    &&& arity_ok(b, p.arity as nat)
    &&& p.leaf_siblings@.len() + 1 <= p.arity
    &&& p.leaf_position <= p.leaf_siblings@.len()
    &&& forall|k: int| 0 <= k < p.path@.len() ==> step_ok(p.arity as nat, #[trigger] p.path@[k])
}

/// The digest reached from `start` by hashing each step's chunk in turn.
pub open spec fn path_root(b: HashBackend, start: Seq<u8>, path: Seq<ProofStep>) -> Seq<u8>
    decreases path.len(),
{
    if path.len() == 0 {
        start
    } else {
        leaf_digest(b, step_chunk(path.last(), path_root(b, start, path.drop_last())))
    }
}

/// A step with one sibling folds by compression: the running digest goes
/// left of the sibling at position 0 and right of it at position 1.
pub proof fn lemma_pair_step_is_compress(b: HashBackend, s: ProofStep, node: Seq<u8>)
    requires
        s.siblings@.len() == 1,
        s.position <= 1,
    ensures
        leaf_digest(b, step_chunk(s, node)) == if s.position == 0 {
            compress_digest(b, node, s.siblings@[0]@)
        } else {
            compress_digest(b, s.siblings@[0]@, node)
        },
{
    let sib = s.siblings@[0]@;
    if s.position == 0 {
        assert(step_chunk(s, node) =~= seq![node, sib]);
        lemma_compress_is_pair_leaf_hash(b, node, sib);
    } else {
        assert(step_chunk(s, node) =~= seq![sib, node]);
        lemma_compress_is_pair_leaf_hash(b, sib, node);
    }
}

/// Index of the path's node at level `k`, for leaf `i` at arity `a`.
pub open spec fn index_at(i: nat, a: nat, k: nat) -> nat
    decreases k,
{
    if k == 0 {
        i
    } else {
        index_at(i, a, (k - 1) as nat) / a
    }
}

/// `path` is the path of node `i` of the bottom level through the levels `lv` at arity `a`.
pub open spec fn path_of(lv: Seq<Seq<Seq<u8>>>, a: nat, i: nat, path: Seq<ProofStep>) -> bool {
    &&& path.len() + 1 == lv.len()
    &&& forall|k: int|
        0 <= k < path.len() ==> {
            let idx = index_at(i, a, k as nat);
            &&& (#[trigger] path[k]).position == idx % a
            &&& digests_view(path[k].siblings@) == chunk_of(lv[k], a, idx / a).remove(
                (idx % a) as int,
            )
        }
}

/// The first `k` steps of a leaf's path lead from its digest to its
/// ancestor at level `k`.
proof fn lemma_path_prefix(
    b: HashBackend,
    a: nat,
    leaves: Seq<Seq<u8>>,
    lv: Seq<Seq<Seq<u8>>>,
    i: nat,
    start: Seq<u8>,
    path: Seq<ProofStep>,
    k: nat,
)
    requires
        2 <= a,
        levels_wf(b, a, leaves, lv),
        i < lv[0].len(),
        start == lv[0][i as int],
        path_of(lv, a, i, path),
        k <= path.len(),
    ensures
        index_at(i, a, k) < lv[k as int].len(),
        path_root(b, start, path.take(k as int)) == lv[k as int][index_at(i, a, k) as int],
        forall|t: int| 0 <= t < k ==> step_ok(a, #[trigger] path[t]),
    decreases k,
{
    if k == 0 {
        assert(path.take(0) =~= Seq::<ProofStep>::empty());
    } else {
        let k1 = (k - 1) as nat;
        lemma_path_prefix(b, a, leaves, lv, i, start, path, k1);
        let level = lv[k1 as int];
        let idx = index_at(i, a, k1);
        let j = idx / a;
        let pos = idx % a;
        lemma_chunk_index(idx, level.len(), a);
        let chunk = chunk_of(level, a, j);
        let s = path[k1 as int];
        assert(path.take(k as int).drop_last() =~= path.take(k1 as int));
        assert(path.take(k as int).last() == s);
        assert(chunk[pos as int] == level[idx as int]);
        assert(step_chunk(s, level[idx as int]) =~= chunk);
        assert(lv[k as int] == parent_level(b, level, a));
        assert(index_at(i, a, k) == j);
    }
}

/// Round trip: for a built tree and any of its leaves, the proof that
/// `generate_proof` returns has a valid shape, and rebuilding the leaf's
/// chunk digest from that leaf and folding the path gives the tree's root,
/// so `verify` accepts it against the root.
pub proof fn lemma_round_trip(t: MerkleTree, i: nat, p: Proof)
    requires
        t.wf(),
        i < t.leaves_spec().len(),
        p.arity == t.arity_spec(),
        p.leaf_position == i % t.arity_spec(),
        byte_strings(p.leaf_siblings@) == chunk_of(t.leaves_spec(), t.arity_spec(), i / t.arity_spec()).remove(
            (i % t.arity_spec()) as int,
        ),
        path_of(t.levels_spec(), t.arity_spec(), i / t.arity_spec(), p.path@),
    ensures
        shape_ok(t.backend_spec(), p),
        path_root(
            t.backend_spec(),
            leaf_chunk_digest(t.backend_spec(), p, t.leaves_spec()[i as int]),
            p.path@,
        ) == t.root_spec(),
{
    let b = t.backend_spec();
    let a = t.arity_spec();
    let ls = t.leaves_spec();
    let lv = t.levels_spec();
    let j = i / a;
    let pos = i % a;
    lemma_chunk_index(i, ls.len(), a);
    let chunk = chunk_of(ls, a, j);
    assert(chunk[pos as int] == ls[i as int]);
    assert(byte_strings(p.leaf_siblings@).insert(pos as int, ls[i as int]) =~= chunk);
    assert(p.leaf_siblings@.len() == byte_strings(p.leaf_siblings@).len());
    let start = leaf_chunk_digest(b, p, ls[i as int]);
    assert(start == lv[0][j as int]);
    let k = p.path@.len();
    lemma_path_prefix(b, a, ls, lv, j, start, p.path@, k);
    assert(p.path@.take(k as int) =~= p.path@);
}

/// Copies of the values of `s`, in order, with `v` put in at `pos`.
fn values_with(s: &Vec<Vec<u8>>, pos: usize, v: &Vec<u8>) -> (r: Vec<Vec<u8>>)
    requires
        pos <= s@.len(),
    ensures
        byte_strings(r@) == byte_strings(s@).insert(pos as int, v@),
{
    let mut out = values_between(s, 0, s.len());
    assert(byte_strings(s@).subrange(0, s@.len() as int) =~= byte_strings(s@));
    out.insert(pos, crate::tree::copy_bytes(v));
    assert(byte_strings(out@) =~= byte_strings(s@).insert(pos as int, v@));
    out
}

/// The digests of `s`, in order, with `node` put in at `pos`.
fn chunk_with(s: &Vec<Digest>, pos: usize, node: &Digest) -> (r: Vec<Digest>)
    requires
        pos <= s@.len(),
    ensures
        digests_view(r@) == digests_view(s@).insert(pos as int, node@),
{
    let mut out: Vec<Digest> = Vec::new();
    let mut k: usize = 0;
    while k < s.len()
        invariant
            k <= s@.len(),
            out@ == s@.take(k as int),
        decreases s@.len() - k,
    {
        out.push(s[k]);
        assert(s@.take(k + 1) =~= s@.take(k as int).push(s@[k as int]));
        k = k + 1;
    }
    assert(s@.take(k as int) =~= s@);
    out.insert(pos, *node);
    assert(digests_view(out@) =~= digests_view(s@).insert(pos as int, node@));
    out
}

impl Proof {
    /// Checks that `leaf` sits under `expected_root`: rehashes the leaf's
    /// chunk with the leaf put back at its position, then each step's chunk
    /// with the running digest put back at its position.
    /// A step that does not fit the arity is a malformed proof; a final
    /// digest other than `expected_root` is a mismatch. Each hash call of the
    /// fold, one per level, is counted in `queries` and in `hashes`.
    pub fn verify(
        &self,
        leaf: &Vec<u8>,
        expected_root: &Digest,
        backend: HashBackend,
        hashes: &mut HashCounter,
        queries: &mut QueryCounter,
    ) -> (r: Result<(), MerkleError>)
        ensures
            !shape_ok(backend, *self) ==> r == Err::<(), MerkleError>(
                MerkleError::InvalidProofShape,
            ) && final(hashes).value() == old(hashes).value() && final(queries).value() == old(
                queries,
            ).value(),
            shape_ok(backend, *self) ==> {
                &&& (r is Ok <==> path_root(
                    backend,
                    leaf_chunk_digest(backend, *self, leaf@),
                    self.path@,
                ) == expected_root@)
                &&& (r is Err ==> r == Err::<(), MerkleError>(MerkleError::ProofMismatch))
                &&& final(hashes).value() == wrapped(old(hashes).value() + 1 + self.path@.len())
                &&& final(queries).value() == wrapped(old(queries).value() + 1 + self.path@.len())
            },
    {
        let a = self.arity;
        let n = self.path.len();
        if a < 2 || (backend == HashBackend::Poseidon && a > crate::hashes::POSEIDON_MAX_INPUTS) {
            return Err(MerkleError::InvalidProofShape);
        }
        if self.leaf_siblings.len() >= a || self.leaf_position > self.leaf_siblings.len() {
            return Err(MerkleError::InvalidProofShape);
        }
        let mut k: usize = 0;
        while k < n
            invariant
                n == self.path@.len(),
                a == self.arity,
                k <= n,
                forall|t: int| 0 <= t < k ==> step_ok(a as nat, #[trigger] self.path@[t]),
            decreases n - k,
        {
            let s = &self.path[k];
            if s.siblings.len() >= a || s.position > s.siblings.len() {
                assert(!step_ok(a as nat, self.path@[k as int]));
                return Err(MerkleError::InvalidProofShape);
            }
            k = k + 1;
        }
        let ghost h0 = hashes.value();
        let one = values_with(&self.leaf_siblings, self.leaf_position, leaf);
        assert(one@.len() == byte_strings(one@).len());
        assert(self.leaf_siblings@.len() == byte_strings(self.leaf_siblings@).len());
        assert(one@.len() == self.leaf_siblings@.len() + 1);
        let mut cur = match backend.leaf_hash(&one, hashes) {
            Ok(d) => d,
            Err(_) => {
                return Err(MerkleError::InvalidProofShape);
            },
        };
        let ghost start = cur@;
        let mut k: usize = 0;
        assert(self.path@.take(0) =~= Seq::<ProofStep>::empty());
        while k < n
            invariant
                n == self.path@.len(),
                a == self.arity,
                shape_ok(backend, *self),
                k <= n,
                start == leaf_chunk_digest(backend, *self, leaf@),
                cur@ == path_root(backend, start, self.path@.take(k as int)),
                hashes.value() == wrapped(h0 + 1 + k),
            decreases n - k,
        {
            let s = &self.path[k];
            assert(step_ok(a as nat, self.path@[k as int]));
            let chunk = chunk_with(&s.siblings, s.position, &cur);
            assert(self.path@.take(k + 1).drop_last() =~= self.path@.take(k as int));
            assert(self.path@.take(k + 1).last() == *s);
            let next = if a == 2 && chunk.len() == 2 {
                let r = backend.compress(&chunk[0], &chunk[1], hashes);
                proof {
                    lemma_compress_is_pair_leaf_hash(backend, chunk@[0]@, chunk@[1]@);
                    assert(digests_view(chunk@) =~= seq![chunk@[0]@, chunk@[1]@]);
                }
                match r {
                    Ok(d) => d,
                    Err(_) => {
                        return Err(MerkleError::InvalidProofShape);
                    },
                }
            } else {
                let inputs = chunk_inputs(&chunk, 0, chunk.len());
                assert(digests_view(chunk@).subrange(0, chunk@.len() as int) =~= digests_view(
                    chunk@,
                ));
                match backend.leaf_hash(&inputs, hashes) {
                    Ok(d) => d,
                    Err(_) => {
                        return Err(MerkleError::InvalidProofShape);
                    },
                }
            };
            proof {
                lemma_wrapped_add(h0, (1 + k) as nat, 1);
            }
            cur = next;
            k = k + 1;
        }
        assert(self.path@.take(n as int) =~= self.path@);
        let ghost q0 = queries.value();
        queries.add(1);
        queries.add(n);
        proof {
            lemma_wrapped_add(q0, 1, n as nat);
        }
        if cur.same_as(expected_root) {
            Ok(())
        } else {
            Err(MerkleError::ProofMismatch)
        }
    }
}

} // verus!
