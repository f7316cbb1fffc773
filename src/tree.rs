//! Tree construction: leaves are hashed one by one into the bottom level, and
//! each level is grouped into consecutive chunks of `arity` digests (the last
//! chunk may be shorter, with no padding) that are hashed into the next level,
//! until one digest, the root, remains.
use vstd::prelude::*;

use crate::backend::{leaf_digest, lemma_compress_is_pair_leaf_hash, width_ok, HashBackend};
use crate::counter::{lemma_wrapped_add, wrapped, HashCounter};
use crate::digest::{digests_view, Digest};
use crate::error::MerkleError;
use crate::hashes::{byte_strings, POSEIDON_MAX_INPUTS};
use crate::inclusion::{index_at, path_of, Proof, ProofStep};

verus! {

broadcast use vstd::seq_lib::group_seq_properties;

/// Whether backend `b` can build trees of arity `a`.
pub open spec fn arity_ok(b: HashBackend, a: nat) -> bool {
    2 <= a && width_ok(b, a)
}

/// Number of chunks of at most `a` items that `n` items fall into.
pub open spec fn chunk_count(n: nat, a: nat) -> nat {
    if a == 0 {
        0
    } else {
        ((n + a - 1) / (a as int)) as nat
    }
}

/// One past the last index of chunk `j` of a level of `n` items.
pub open spec fn chunk_end(n: nat, a: nat, j: nat) -> int {
    if j * a + a <= n {
        (j * a + a) as int
    } else {
        n as int
    }
}

/// Chunk `j` of a level: items `j * a` up to `chunk_end`.
pub open spec fn chunk_of(level: Seq<Seq<u8>>, a: nat, j: nat) -> Seq<Seq<u8>> {
    level.subrange((j * a) as int, chunk_end(level.len(), a, j))
}

/// The level above `level`: one digest per chunk, the leaf hash of the
/// chunk's digests (which, for a pair at arity 2, is their compression).
pub open spec fn parent_level(b: HashBackend, level: Seq<Seq<u8>>, a: nat) -> Seq<Seq<u8>> {
    Seq::new(chunk_count(level.len(), a), |j: int| leaf_digest(b, chunk_of(level, a, j as nat)))
}

/// The bottom level: the leaves grouped into chunks of `a`, each chunk
/// leaf-hashed as it is (the last one may be shorter).
pub open spec fn leaf_level(b: HashBackend, leaves: Seq<Seq<u8>>, a: nat) -> Seq<Seq<u8>> {
    Seq::new(chunk_count(leaves.len(), a), |j: int| leaf_digest(b, chunk_of(leaves, a, j as nat)))
}

/// `lv` lists the levels of the tree over `leaves`, bottom first: each level
/// of two or more digests is followed by its parent level, and the last one
/// holds the root alone.
pub open spec fn levels_wf(
    b: HashBackend,
    a: nat,
    leaves: Seq<Seq<u8>>,
    lv: Seq<Seq<Seq<u8>>>,
) -> bool {
    &&& lv.len() >= 1
    &&& lv[0] == leaf_level(b, leaves, a)
    &&& lv.last().len() == 1
    &&& forall|k: int|
        0 <= k < lv.len() - 1 ==> (#[trigger] lv[k]).len() >= 2 && lv[k + 1] == parent_level(
            b,
            lv[k],
            a,
        )
}

/// Total number of digests over all levels, that is the number of chunks
/// hashed on every level: the hash calls a build makes.
pub open spec fn total_nodes(lv: Seq<Seq<Seq<u8>>>) -> nat
    decreases lv.len(),
{
    if lv.len() == 0 {
        0
    } else {
        total_nodes(lv.drop_last()) + lv.last().len()
    }
}

/// The digests of each stored level.
pub open spec fn level_views(ls: Seq<Vec<Digest>>) -> Seq<Seq<Seq<u8>>> {
    ls.map_values(|l: Vec<Digest>| digests_view(l@))
}

/// `n` items at arity `a` fill exactly `j` chunks when the first `j - 1`
/// chunks leave some over and `j` chunks cover them all.
pub proof fn lemma_chunk_count_exact(n: nat, a: nat, j: nat)
    requires
        a > 0,
        n <= j * a,
        j > 0 ==> (j - 1) * a < n,
    ensures
        chunk_count(n, a) == j,
{
    if j == 0 {
        assert(n == 0) by (nonlinear_arith)
            requires
                n <= j * a,
                j == 0,
        ;
        vstd::arithmetic::div_mod::lemma_fundamental_div_mod_converse(a - 1, a as int, 0, a - 1);
    } else {
        let r = n + a - 1 - j * a;
        assert(0 <= r < a) by (nonlinear_arith)
            requires
                r == n + a - 1 - j * a,
                n <= j * a,
                (j - 1) * a < n,
        ;
        vstd::arithmetic::div_mod::lemma_fundamental_div_mod_converse(
            n + a - 1,
            a as int,
            j as int,
            r,
        );
    }
}

/// A level of `n >= 1` digests has a non-empty parent, which is shorter
/// whenever `n >= 2`.
pub proof fn lemma_chunk_count_shrinks(n: nat, a: nat)
    requires
        a >= 2,
        n >= 1,
    ensures
        1 <= chunk_count(n, a),
        n >= 2 ==> chunk_count(n, a) < n,
{
    let x = n + a - 1;
    vstd::arithmetic::div_mod::lemma_fundamental_div_mod(x, a as int);
    vstd::arithmetic::div_mod::lemma_mod_pos_bound(x, a as int);
    let q = x / (a as int);
    let r = x % (a as int);
    assert(1 <= q) by (nonlinear_arith)
        requires
            x == a * q + r,
            0 <= r < a,
            x >= a,
    ;
    if n >= 2 {
        assert(q < n) by (nonlinear_arith)
            requires
                x == a * q + r,
                0 <= r < a,
                x == n + a - 1,
                n >= 2,
                a >= 2,
        ;
    }
}

/// Item `i` of a level of `n` items at arity `a` is item `i % a` of chunk
/// `i / a`, which exists.
pub proof fn lemma_chunk_index(i: nat, n: nat, a: nat)
    requires
        a >= 2,
        i < n,
    ensures
        (i / a) * a + i % a == i,
        i % a < a,
        i / a < chunk_count(n, a),
        (i / a) * a + i % a < chunk_end(n, a, i / a) <= n,
{
    let j = i / a;
    let pos = i % a;
    vstd::arithmetic::div_mod::lemma_fundamental_div_mod(i as int, a as int);
    vstd::arithmetic::div_mod::lemma_mod_pos_bound(i as int, a as int);
    assert(j * a == a * j) by (nonlinear_arith);
    assert((j + 1) * a == j * a + a) by (nonlinear_arith);
    vstd::arithmetic::div_mod::lemma_fundamental_div_mod_converse(
        ((j + 1) * a) as int,
        a as int,
        (j + 1) as int,
        0,
    );
    vstd::arithmetic::div_mod::lemma_div_is_ordered(((j + 1) * a) as int, n + a - 1, a as int);
}

/// A copy of a byte string.
pub(crate) fn copy_bytes(v: &Vec<u8>) -> (r: Vec<u8>)
    ensures
        r@ == v@,
{
    let mut out: Vec<u8> = Vec::new();
    let mut k: usize = 0;
    while k < v.len()
        invariant
            k <= v@.len(),
            out@ == v@.take(k as int),
        decreases v@.len() - k,
    {
        out.push(v[k]);
        assert(v@.take(k + 1) =~= v@.take(k as int).push(v@[k as int]));
        k = k + 1;
    }
    assert(v@.take(k as int) =~= v@);
    out
}

/// The digests `level[start..end]` as a list of leaf values.
pub(crate) fn chunk_inputs(level: &Vec<Digest>, start: usize, end: usize) -> (r: Vec<Vec<u8>>)
    requires
        start <= end <= level@.len(),
    ensures
        byte_strings(r@) == digests_view(level@).subrange(start as int, end as int),
{
    let mut out: Vec<Vec<u8>> = Vec::new();
    let mut k: usize = start;
    while k < end
        invariant
            start <= k <= end <= level@.len(),
            byte_strings(out@) == digests_view(level@).subrange(start as int, k as int),
        decreases end - k,
    {
        let ghost prev = out@;
        out.push(level[k].to_vec());
        assert(byte_strings(out@) =~= byte_strings(prev).push(level@[k as int]@));
        assert(byte_strings(out@) =~= digests_view(level@).subrange(start as int, k + 1));
        k = k + 1;
    }
    out
}

/// Copies of the leaf values `leaves[start..end]`.
pub(crate) fn values_between(leaves: &Vec<Vec<u8>>, start: usize, end: usize) -> (r: Vec<Vec<u8>>)
    requires
        start <= end <= leaves@.len(),
    ensures
        byte_strings(r@) == byte_strings(leaves@).subrange(start as int, end as int),
{
    let mut out: Vec<Vec<u8>> = Vec::new();
    let mut k: usize = start;
    while k < end
        invariant
            start <= k <= end <= leaves@.len(),
            byte_strings(out@) == byte_strings(leaves@).subrange(start as int, k as int),
        decreases end - k,
    {
        let ghost prev = out@;
        out.push(copy_bytes(&leaves[k]));
        assert(byte_strings(out@) =~= byte_strings(prev).push(leaves@[k as int]@));
        assert(byte_strings(out@) =~= byte_strings(leaves@).subrange(start as int, k + 1));
        k = k + 1;
    }
    out
}

/// Copies of the leaf values `leaves[start..end]` but the one at `skip`.
fn values_without(leaves: &Vec<Vec<u8>>, start: usize, end: usize, skip: usize) -> (r: Vec<
    Vec<u8>,
>)
    requires
        start <= skip < end <= leaves@.len(),
    ensures
        byte_strings(r@) == byte_strings(leaves@).subrange(start as int, end as int).remove(
            skip - start,
        ),
{
    let mut out = values_between(leaves, start, skip);
    let rest = values_between(leaves, skip + 1, end);
    let mut k: usize = 0;
    while k < rest.len()
        invariant
            k <= rest@.len(),
            byte_strings(out@) == byte_strings(leaves@).subrange(start as int, skip as int)
                + byte_strings(rest@).take(k as int),
        decreases rest@.len() - k,
    {
        let ghost prev = out@;
        out.push(copy_bytes(&rest[k]));
        assert(byte_strings(out@) =~= byte_strings(prev).push(rest@[k as int]@));
        assert(byte_strings(rest@).take(k + 1) =~= byte_strings(rest@).take(k as int).push(
            rest@[k as int]@,
        ));
        k = k + 1;
    }
    assert(byte_strings(rest@).take(k as int) =~= byte_strings(rest@));
    assert(byte_strings(out@) =~= byte_strings(leaves@).subrange(start as int, end as int).remove(
        skip - start,
    ));
    out
}

/// Leaf-hashes every chunk of leaf values into the bottom level.
fn leaf_level_of(
    leaves: &Vec<Vec<u8>>,
    backend: HashBackend,
    arity: usize,
    counter: &mut HashCounter,
) -> (r: Vec<Digest>)
    requires
        arity_ok(backend, arity as nat),
    ensures
        digests_view(r@) == leaf_level(backend, byte_strings(leaves@), arity as nat),
        final(counter).value() == wrapped(old(counter).value() + r@.len()),
{
    let ghost lvl = byte_strings(leaves@);
    let ghost c0 = counter.value();
    let n = leaves.len();
    let a = arity;
    let mut next: Vec<Digest> = Vec::new();
    let mut start: usize = 0;
    proof {
        vstd::arithmetic::div_mod::lemma_small_mod(c0 as nat, (usize::MAX as int + 1) as nat);
        assert(next@.len() * a == 0) by (nonlinear_arith)
            requires
                next@.len() == 0,
        ;
    }
    while start < n
        invariant
            n == leaves@.len(),
            lvl == byte_strings(leaves@),
            a == arity,
            arity_ok(backend, a as nat),
            start <= n,
            start == next@.len() * a || (start == n && n < next@.len() * a),
            next@.len() > 0 ==> (next@.len() - 1) * a < n,
            forall|t: int|
                0 <= t < next@.len() ==> (#[trigger] next@[t])@ == leaf_digest(
                    backend,
                    chunk_of(lvl, a as nat, t as nat),
                ),
            counter.value() == wrapped(c0 + next@.len()),
        decreases n - start,
    {
        let ghost j = next@.len();
        let end = if n - start > a {
            start + a
        } else {
            n
        };
        assert(chunk_of(lvl, a as nat, j) == lvl.subrange(start as int, end as int));
        let inputs = values_between(leaves, start, end);
        let d = match backend.leaf_hash(&inputs, counter) {
            Ok(d) => d,
            Err(_) => {
                return next;
            },
        };
        proof {
            lemma_wrapped_add(c0, next@.len(), 1);
            assert((j + 1) * a == j * a + a) by (nonlinear_arith);
        }
        next.push(d);
        start = end;
    }
    proof {
        lemma_chunk_count_exact(n as nat, a as nat, next@.len());
        assert(digests_view(next@) =~= leaf_level(backend, lvl, a as nat));
    }
    next
}

/// The digests of `level[start..end]` but the one at `skip`.
fn digests_without(level: &Vec<Digest>, start: usize, end: usize, skip: usize) -> (r: Vec<Digest>)
    requires
        start <= skip < end <= level@.len(),
    ensures
        r@ == level@.subrange(start as int, skip as int) + level@.subrange(skip + 1, end as int),
{
    let mut out: Vec<Digest> = Vec::new();
    let mut k: usize = start;
    while k < skip
        invariant
            start <= k <= skip < end <= level@.len(),
            out@ == level@.subrange(start as int, k as int),
        decreases skip - k,
    {
        out.push(level[k]);
        assert(out@ =~= level@.subrange(start as int, k + 1));
        k = k + 1;
    }
    let mut k: usize = skip + 1;
    while k < end
        invariant
            start <= skip < k <= end <= level@.len(),
            out@ == level@.subrange(start as int, skip as int) + level@.subrange(
                skip + 1,
                k as int,
            ),
        decreases end - k,
    {
        out.push(level[k]);
        assert(out@ =~= level@.subrange(start as int, skip as int) + level@.subrange(
            skip + 1,
            k + 1,
        ));
        k = k + 1;
    }
    out
}

/// Hashes every chunk of `level` into the level above it.
fn parent_of(
    level: &Vec<Digest>,
    backend: HashBackend,
    arity: usize,
    counter: &mut HashCounter,
) -> (r: Vec<Digest>)
    requires
        arity_ok(backend, arity as nat),
    ensures
        digests_view(r@) == parent_level(backend, digests_view(level@), arity as nat),
        final(counter).value() == wrapped(old(counter).value() + r@.len()),
{
    let ghost lvl = digests_view(level@);
    let ghost c0 = counter.value();
    let n = level.len();
    let a = arity;
    let mut next: Vec<Digest> = Vec::new();
    let mut start: usize = 0;
    proof {
        vstd::arithmetic::div_mod::lemma_small_mod(c0 as nat, (usize::MAX as int + 1) as nat);
        assert(next@.len() * a == 0) by (nonlinear_arith)
            requires
                next@.len() == 0,
        ;
    }
    while start < n
        invariant
            n == level@.len(),
            lvl == digests_view(level@),
            a == arity,
            arity_ok(backend, a as nat),
            start <= n,
            start == next@.len() * a || (start == n && n < next@.len() * a),
            next@.len() > 0 ==> (next@.len() - 1) * a < n,
            forall|t: int|
                0 <= t < next@.len() ==> (#[trigger] next@[t])@ == leaf_digest(
                    backend,
                    chunk_of(lvl, a as nat, t as nat),
                ),
            counter.value() == wrapped(c0 + next@.len()),
        decreases n - start,
    {
        let ghost j = next@.len();
        let end = if n - start > a {
            start + a
        } else {
            n
        };
        assert(chunk_of(lvl, a as nat, j) == lvl.subrange(start as int, end as int));
        let d = if a == 2 && end - start == 2 {
            let r = backend.compress(&level[start], &level[start + 1], counter);
            proof {
                lemma_compress_is_pair_leaf_hash(backend, lvl[start as int], lvl[start + 1]);
                assert(lvl.subrange(start as int, end as int) =~= seq![
                    lvl[start as int],
                    lvl[start + 1],
                ]);
            }
            match r {
                Ok(d) => d,
                Err(_) => {
                    return next;
                },
            }
        } else {
            let inputs = chunk_inputs(level, start, end);
            let r = backend.leaf_hash(&inputs, counter);
            match r {
                Ok(d) => d,
                Err(_) => {
                    return next;
                },
            }
        };
        proof {
            lemma_wrapped_add(c0, next@.len(), 1);
            assert((j + 1) * a == j * a + a) by (nonlinear_arith);
        }
        next.push(d);
        start = end;
    }
    proof {
        lemma_chunk_count_exact(n as nat, a as nat, next@.len());
        assert(digests_view(next@) =~= parent_level(backend, lvl, a as nat));
    }
    next
}

/// A tree over at most `arity` leaves is one chunk: its root is the leaf
/// hash of all the leaves, and building it costs one hash call.
pub proof fn lemma_one_chunk(t: MerkleTree)
    requires
        t.wf(),
        t.leaves_spec().len() <= t.arity_spec(),
    ensures
        t.root_spec() == leaf_digest(t.backend_spec(), t.leaves_spec()),
        total_nodes(t.levels_spec()) == 1,
{
    let lv = t.levels_spec();
    let ls = t.leaves_spec();
    let a = t.arity_spec();
    assert(0 * a == 0) by (nonlinear_arith);
    assert(1 * a == a) by (nonlinear_arith);
    lemma_chunk_count_exact(ls.len(), a, 1);
    if lv.len() > 1 {
        assert(lv[0].len() >= 2);
    }
    assert(lv.len() == 1);
    assert(chunk_of(ls, a, 0) =~= ls);
    assert(lv.drop_last() =~= Seq::<Seq<Seq<u8>>>::empty());
    assert(total_nodes(lv.drop_last()) == 0);
}

/// A Merkle tree: its leaf values and every level, from the leaf-chunk
/// digests up to the root.
pub struct MerkleTree {
    backend: HashBackend,
    arity: usize,
    levels: Vec<Vec<Digest>>,
    leaves: Vec<Vec<u8>>,
}

impl MerkleTree {
    pub closed spec fn backend_spec(&self) -> HashBackend {
        self.backend
    }

    pub closed spec fn arity_spec(&self) -> nat {
        self.arity as nat
    }

    pub closed spec fn leaves_spec(&self) -> Seq<Seq<u8>> {
        byte_strings(self.leaves@)
    }

    /// The digests of each level, bottom first.
    pub closed spec fn levels_spec(&self) -> Seq<Seq<Seq<u8>>> {
        level_views(self.levels@)
    }

    /// The tree was built as `build` describes.
    pub open spec fn wf(&self) -> bool {
        &&& arity_ok(self.backend_spec(), self.arity_spec())
        &&& self.leaves_spec().len() >= 1
        &&& levels_wf(self.backend_spec(), self.arity_spec(), self.leaves_spec(), self.levels_spec())
    }

    /// The root digest, as a function of the levels.
    pub open spec fn root_spec(&self) -> Seq<u8> {
        self.levels_spec().last()[0]
    }

    /// Builds the tree over `leaves` with `backend` at `arity`. Fails on an
    /// empty leaf list, or on an arity below 2 or beyond what the backend
    /// absorbs in one call. Every chunk hashed on every level costs one hash
    /// call.
    pub fn build(
        leaves: &Vec<Vec<u8>>,
        backend: HashBackend,
        arity: usize,
        counter: &mut HashCounter,
    ) -> (r: Result<MerkleTree, MerkleError>)
        ensures
            leaves@.len() == 0 ==> r == Err::<MerkleTree, MerkleError>(MerkleError::EmptyInput),
            leaves@.len() > 0 && !arity_ok(backend, arity as nat) ==> r == Err::<
                MerkleTree,
                MerkleError,
            >(MerkleError::UnsupportedWidth),
            leaves@.len() > 0 && arity_ok(backend, arity as nat) ==> (r matches Ok(t) && t.wf()
                && t.backend_spec() == backend && t.arity_spec() == arity && t.leaves_spec()
                == byte_strings(leaves@) && final(counter).value() == wrapped(
                old(counter).value() + total_nodes(t.levels_spec()),
            )),
            r is Err ==> final(counter).value() == old(counter).value(),
    {
        if leaves.len() == 0 {
            return Err(MerkleError::EmptyInput);
        }
        if arity < 2 || (backend == HashBackend::Poseidon && arity > POSEIDON_MAX_INPUTS) {
            return Err(MerkleError::UnsupportedWidth);
        }
        let ghost ls = byte_strings(leaves@);
        let ghost c0 = counter.value();
        let kept = values_between(leaves, 0, leaves.len());
        assert(byte_strings(leaves@).subrange(0, leaves@.len() as int) =~= ls);
        let mut level = leaf_level_of(leaves, backend, arity, counter);
        proof {
            lemma_chunk_count_shrinks(leaves@.len() as nat, arity as nat);
            assert(level@.len() == digests_view(level@).len());
        }
        let mut levels: Vec<Vec<Digest>> = Vec::new();
        proof {
            let lv0 = level_views(levels@).push(digests_view(level@));
            assert(lv0.drop_last() =~= Seq::<Seq<Seq<u8>>>::empty());
            assert(total_nodes(lv0.drop_last()) == 0);
            assert(total_nodes(lv0) == level@.len());
            assert(lv0[0] == digests_view(level@));
        }
        while level.len() > 1
            invariant
                arity_ok(backend, arity as nat),
                level@.len() >= 1,
                ({
                    let lv = level_views(levels@).push(digests_view(level@));
                    &&& lv[0] == leaf_level(backend, ls, arity as nat)
                    &&& forall|k: int|
                        0 <= k < lv.len() - 1 ==> (#[trigger] lv[k]).len() >= 2 && lv[k + 1]
                            == parent_level(backend, lv[k], arity as nat)
                    &&& counter.value() == wrapped(c0 + total_nodes(lv))
                }),
            decreases level@.len(),
        {
            let ghost before = level_views(levels@).push(digests_view(level@));
            let next = parent_of(&level, backend, arity, counter);
            proof {
                assert(next@.len() == digests_view(next@).len());
                lemma_chunk_count_shrinks(level@.len() as nat, arity as nat);
                lemma_wrapped_add(c0, total_nodes(before), next@.len());
            }
            levels.push(level);
            level = next;
            proof {
                let after = level_views(levels@).push(digests_view(level@));
                assert(level_views(levels@) =~= before);
                assert(after.drop_last() =~= before);
                assert forall|k: int| 0 <= k < after.len() - 1 implies (#[trigger] after[k]).len()
                    >= 2 && after[k + 1] == parent_level(backend, after[k], arity as nat) by {
                    if k < before.len() - 1 {
                        assert(after[k] == before[k]);
                        assert(after[k + 1] == before[k + 1]);
                    }
                }
            }
        }
        let ghost final_lv = level_views(levels@).push(digests_view(level@));
        levels.push(level);
        assert(level_views(levels@) =~= final_lv);
        Ok(MerkleTree { backend, arity, levels, leaves: kept })
    }

    /// The root digest.
    pub fn root(&self) -> (r: Digest)
        requires
            self.wf(),
        ensures
            r@ == self.root_spec(),
    {
        let top = &self.levels[self.levels.len() - 1];
        top[0]
    }

    /// The inclusion proof of leaf `leaf_index`: the other leaf values of
    /// its chunk and its position there, then, at each digest level below
    /// the root, the other digests of the chunk on the leaf's path and the
    /// position of the path's node in it.
    pub fn generate_proof(&self, leaf_index: usize) -> (r: Result<Proof, MerkleError>)
        requires
            self.wf(),
        ensures
            leaf_index >= self.leaves_spec().len() ==> r == Err::<Proof, MerkleError>(
                MerkleError::IndexOutOfRange,
            ),
            leaf_index < self.leaves_spec().len() ==> (r matches Ok(p) && p.leaf_index
                == leaf_index && p.arity == self.arity_spec() && p.leaf_position == leaf_index as nat
                % self.arity_spec() && byte_strings(p.leaf_siblings@) == chunk_of(
                self.leaves_spec(),
                self.arity_spec(),
                leaf_index as nat / self.arity_spec(),
            ).remove((leaf_index as nat % self.arity_spec()) as int) && path_of(
                self.levels_spec(),
                self.arity_spec(),
                leaf_index as nat / self.arity_spec(),
                p.path@,
            )),
    {
        let ghost lv = self.levels_spec();
        let ghost ls = self.leaves_spec();
        let a = self.arity;
        let depth = self.levels.len();
        let n = self.leaves.len();
        if leaf_index >= n {
            return Err(MerkleError::IndexOutOfRange);
        }
        let lpos = leaf_index % a;
        proof {
            lemma_chunk_index(leaf_index as nat, n as nat, a as nat);
        }
        let lstart = leaf_index - lpos;
        let lend = if n - lstart > a {
            lstart + a
        } else {
            n
        };
        let leaf_siblings = values_without(&self.leaves, lstart, lend, leaf_index);
        proof {
            let j = (leaf_index / a) as nat;
            assert(chunk_of(ls, a as nat, j) == ls.subrange(lstart as int, lend as int));
        }
        let mut path: Vec<ProofStep> = Vec::new();
        let mut idx = leaf_index / a;
        let ghost i0 = (leaf_index / a) as nat;
        let mut k: usize = 0;
        assert(index_at(i0, a as nat, 0) == i0);
        while k + 1 < depth
            invariant
                self.wf(),
                lv == self.levels_spec(),
                a == self.arity_spec(),
                depth == lv.len(),
                k < depth,
                idx == index_at(i0, a as nat, k as nat),
                idx < lv[k as int].len(),
                path@.len() == k,
                forall|t: int|
                    0 <= t < k ==> {
                        let ix = index_at(i0, a as nat, t as nat);
                        &&& (#[trigger] path@[t]).position == ix % (a as nat)
                        &&& digests_view(path@[t].siblings@) == chunk_of(
                            lv[t],
                            a as nat,
                            ix / (a as nat),
                        ).remove((ix % (a as nat)) as int)
                    },
            decreases depth - k,
        {
            let level = &self.levels[k];
            let ghost lvl = lv[k as int];
            assert(lvl == digests_view(level@));
            let len = level.len();
            let pos = idx % a;
            proof {
                lemma_chunk_index(idx as nat, len as nat, a as nat);
            }
            let start = idx - pos;
            let end = if len - start > a {
                start + a
            } else {
                len
            };
            let siblings = digests_without(level, start, end, idx);
            proof {
                let j = (idx / a) as nat;
                assert(chunk_of(lvl, a as nat, j) == lvl.subrange(start as int, end as int));
                assert(digests_view(siblings@) =~= chunk_of(lvl, a as nat, j).remove(pos as int));
                assert(lv[k + 1] == parent_level(self.backend_spec(), lvl, a as nat));
            }
            path.push(ProofStep { position: pos, siblings });
            idx = idx / a;
            k = k + 1;
        }
        let p = Proof { leaf_index, arity: a, leaf_position: lpos, leaf_siblings, path };
        assert(path_of(lv, a as nat, i0, p.path@));
        Ok(p)
    }

    pub fn backend(&self) -> (r: HashBackend)
        ensures
            r == self.backend_spec(),
    {
        self.backend
    }

    pub fn arity(&self) -> (r: usize)
        ensures
            r == self.arity_spec(),
    {
        self.arity
    }

    /// Number of leaves.
    pub fn leaf_count(&self) -> (r: usize)
        ensures
            r == self.leaves_spec().len(),
    {
        self.leaves.len()
    }

    /// Number of digest levels, the bottom one and the root's included.
    pub fn depth(&self) -> (r: usize)
        ensures
            r == self.levels_spec().len(),
    {
        self.levels.len()
    }
}

} // verus!
