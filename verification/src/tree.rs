//! The Merkle tree itself, its inclusion proofs, and the proof verifier.

use crate::model::{
    combine_hash, is_pow2, leaf_digests, leaf_hash, lemma_padded_len_bounds, lemma_padded_len_min,
    lemma_pow2_double, merkle_root, padded_len, reduce_level,
};
use std::collections::hash_map::DefaultHasher;
use std::collections::VecDeque;
use std::hash::Hasher;
use vstd::bytes::u64_to_le_bytes;
use vstd::prelude::*;

verus! {

/// Which side of the running accumulator a recorded sibling digest sits on.
#[derive(Clone, Copy, Debug, PartialEq, Eq, Structural)]
pub enum Direction {
    Left,
    Right,
}

/// One level of an inclusion path: the sibling digest at that level and the
/// side it must be combined on.
#[derive(Clone, Copy, Debug, PartialEq, Eq, Structural)]
pub struct Step {
    pub direction: Direction,
    pub value: u64,
}

/// A self-contained inclusion proof: the claimed leaf digest, the claimed
/// root digest, and the recorded path from leaf level up to the root.
#[derive(Clone, Debug)]
pub struct MerkleProof {
    pub path: Vec<Step>,
    pub root: u64,
    pub leaf: u64,
}

/// The one caller-facing failure: a proof was requested for a position at or
/// beyond the padded leaf count.
#[derive(Clone, Copy, Debug, PartialEq, Eq, Structural)]
pub enum ProofError {
    IndexOutOfRange,
}

/// A Merkle tree over an ordered sequence of 64-bit values.
pub struct MerkleTree {
    values: Vec<u64>,
}

impl View for MerkleTree {
    type V = Seq<u64>;

    closed spec fn view(&self) -> Seq<u64> {
        self.values@
    }
}

/// The inclusion path recorded for position `i` of leaf level `s`: at each
/// level the sibling of `i` is `i + 1` if `i` is even, else `i - 1`; the
/// sibling sits to the Left exactly when `i` is greater than the sibling
/// position; then the level is reduced and `i` halves.
pub open spec fn proof_steps(s: Seq<u64>, i: int) -> Seq<Step>
    recommends
        is_pow2(s.len()),
        0 <= i < s.len(),
    decreases s.len(),
{
    if s.len() <= 1 {
        Seq::empty()
    } else {
        let sib: int = if i % 2 == 0 {
            i + 1
        } else {
            i - 1
        };
        let dir = if i > sib {
            Direction::Left
        } else {
            Direction::Right
        };
        seq![Step { direction: dir, value: s[sib] }] + proof_steps(reduce_level(s), i / 2)
    }
}

/// What verification recomputes: the accumulator after folding a recorded
/// path, in order, into a starting leaf digest. A Left step combines the
/// recorded sibling on the left of the accumulator, a Right step on the
/// right.
pub open spec fn fold_path(leaf: u64, path: Seq<Step>) -> u64
    decreases path.len(),
{
    if path.len() == 0 {
        leaf
    } else {
        let acc = match path[0].direction {
            Direction::Left => combine_hash(path[0].value, leaf),
            Direction::Right => combine_hash(leaf, path[0].value),
        };
        fold_path(acc, path.drop_first())
    }
}

impl From<Vec<u64>> for MerkleTree {
    fn from(values: Vec<u64>) -> (r: MerkleTree) {
        MerkleTree { values }
    }
}

impl vstd::std_specs::convert::FromSpecImpl<Vec<u64>> for MerkleTree {
    open spec fn obeys_from_spec() -> bool {
        true
    }

    closed spec fn from_spec(v: Vec<u64>) -> MerkleTree {
        MerkleTree { values: v }
    }
}

/// What `MerkleTree::from` builds: a tree whose stored values are exactly
/// the given vector's contents.
pub proof fn lemma_from_builds_tree(v: Vec<u64>)
    ensures
        <MerkleTree as vstd::std_specs::convert::FromSpec<Vec<u64>>>::obeys_from_spec(),
        <MerkleTree as vstd::std_specs::convert::FromSpec<Vec<u64>>>::from_spec(v)@ == v@,
{
}

impl MerkleTree {
    /// Append one value to the tree.
    pub fn add(&mut self, value: u64)
        ensures
            final(self)@ == old(self)@.push(value),
    {
        self.values.push(value);
    }

    /// Return the padded, hashed leaf level: the stored values hashed in
    /// order, extended with hashes of the default value 0 up to the smallest
    /// power of two at or above the number of stored values (at least 1).
    pub fn leafs(&self) -> (r: VecDeque<u64>)
        requires
            padded_len(self@.len()) <= usize::MAX,
        ensures
            r@ == leaf_digests(self@),
    {
        let n = self.values.len();
        proof {
            lemma_padded_len_bounds(self@.len());
        }
        let mut size: usize = 1;
        while size < n
            invariant
                1 <= size,
                is_pow2(size as nat),
                size as nat <= padded_len(self@.len()),
                n == self@.len(),
                padded_len(self@.len()) <= usize::MAX,
            decreases 2 * n - size,
        {
            proof {
                lemma_padded_len_bounds(self@.len());
                lemma_pow2_double(size as nat, padded_len(self@.len()));
            }
            size = size * 2;
        }
        proof {
            lemma_padded_len_min(self@.len(), size as nat);
            assert(size as nat == padded_len(self@.len()));
        }
        let mut leafs: VecDeque<u64> = VecDeque::new();
        let mut i: usize = 0;
        while i < size
            invariant
                i <= size,
                size as nat == padded_len(self@.len()),
                n == self@.len(),
                leafs@ == leaf_digests(self@).subrange(0, i as int),
            decreases size - i,
        {
            let value: u64 = if i < n {
                self.values[i]
            } else {
                0
            };
            leafs.push_back(Self::hash_leaf(&value));
            proof {
                assert(leaf_digests(self@).subrange(0, i + 1 as int) =~= leaf_digests(
                    self@,
                ).subrange(0, i as int).push(leaf_hash(value)));
            }
            i = i + 1;
        }
        proof {
            assert(leaf_digests(self@).subrange(0, size as int) =~= leaf_digests(self@));
        }
        leafs
    }

    /// Return the root digest: the single digest left after repeatedly
    /// reducing the padded leaf level pairwise.
    pub fn root(&self) -> (r: u64)
        requires
            padded_len(self@.len()) <= usize::MAX,
        ensures
            r == merkle_root(leaf_digests(self@)),
    {
        let mut hashes = self.leafs();
        proof {
            lemma_padded_len_bounds(self@.len());
        }
        while hashes.len() > 1
            invariant
                is_pow2(hashes@.len()),
                merkle_root(hashes@) == merkle_root(leaf_digests(self@)),
            decreases hashes@.len(),
        {
            Self::parents(&mut hashes);
        }
        hashes.pop_front().unwrap()
    }

    /// Build an inclusion proof for position `index` of the padded leaf
    /// level. Succeeds exactly when `index` is below the padded leaf count;
    /// the proof then records that leaf digest, the tree's root digest, and
    /// the sibling path from the leaf level up to the root.
    pub fn get_proof(&self, index: usize) -> (r: Result<MerkleProof, ProofError>)
        requires
            padded_len(self@.len()) <= usize::MAX,
        ensures
            r is Ok <==> (index as nat) < padded_len(self@.len()),
            r matches Ok(p) ==> {
                &&& p.leaf == leaf_digests(self@)[index as int]
                &&& p.root == merkle_root(leaf_digests(self@))
                &&& p.path@ == proof_steps(leaf_digests(self@), index as int)
            },
            r matches Err(e) ==> e == ProofError::IndexOutOfRange,
    {
        let mut hashes = self.leafs();
        if index >= hashes.len() {
            return Err(ProofError::IndexOutOfRange);
        }
        let leaf: u64 = hashes[index];
        let root = self.root();
        let ghost leaves = leaf_digests(self@);
        let mut path: Vec<Step> = Vec::new();
        let mut idx = index;
        proof {
            lemma_padded_len_bounds(self@.len());
            assert(proof_steps(leaves, index as int) =~= path@ + proof_steps(
                hashes@,
                idx as int,
            ));
        }
        while hashes.len() > 1
            invariant
                is_pow2(hashes@.len()),
                idx < hashes@.len(),
                proof_steps(leaves, index as int) == path@ + proof_steps(hashes@, idx as int),
            decreases hashes@.len(),
        {
            let sibling = if idx % 2 == 0 {
                idx + 1
            } else {
                idx - 1
            };
            let direction = if idx > sibling {
                Direction::Left
            } else {
                Direction::Right
            };
            let value: u64 = hashes[sibling];
            let ghost prev = hashes@;
            let ghost prev_idx = idx as int;
            let ghost step = (Step { direction, value });
            path.push(Step { direction, value });
            Self::parents(&mut hashes);
            idx = idx / 2;
            proof {
                assert(proof_steps(prev, prev_idx) == seq![step] + proof_steps(
                    hashes@,
                    idx as int,
                ));
                assert(path@ + proof_steps(hashes@, idx as int) =~= proof_steps(
                    leaves,
                    index as int,
                ));
            }
        }
        proof {
            assert(path@ + proof_steps(hashes@, idx as int) =~= path@);
        }
        Ok(MerkleProof { path, root, leaf })
    }

    /// Check an inclusion proof: fold the recorded path, in order, into the
    /// recorded leaf digest and accept exactly when the result equals the
    /// recorded root digest.
    pub fn verify_proof(pf: &MerkleProof) -> (r: bool)
        ensures
            r == (fold_path(pf.leaf, pf.path@) == pf.root),
    {
        let mut acc = pf.leaf;
        let mut i: usize = 0;
        proof {
            assert(pf.path@.skip(0) =~= pf.path@);
        }
        while i < pf.path.len()
            invariant
                i <= pf.path@.len(),
                fold_path(pf.leaf, pf.path@) == fold_path(acc, pf.path@.skip(i as int)),
            decreases pf.path@.len() - i,
        {
            let step = &pf.path[i];
            proof {
                assert(pf.path@.skip(i as int)[0] == pf.path@[i as int]);
                assert(pf.path@.skip(i as int).drop_first() =~= pf.path@.skip(i + 1 as int));
            }
            acc = match step.direction {
                Direction::Left => Self::hash_siblings(&step.value, &acc),
                Direction::Right => Self::hash_siblings(&acc, &step.value),
            };
            i = i + 1;
        }
        proof {
            assert(pf.path@.skip(i as int) =~= Seq::<Step>::empty());
        }
        pf.root == acc
    }

    /// Replace an even-length level of digests with its pairwise reduction:
    /// adjacent digests combined left to right, order preserved.
    fn parents(hashes: &mut VecDeque<u64>)
        requires
            old(hashes)@.len() % 2 == 0,
            old(hashes)@.len() > 0,
        ensures
            final(hashes)@ == reduce_level(old(hashes)@),
    {
        let len = hashes.len();
        let half = len / 2;
        let mut j: usize = 0;
        while j < half
            invariant
                j <= half,
                half == old(hashes)@.len() / 2,
                old(hashes)@.len() % 2 == 0,
                hashes@ == old(hashes)@.subrange(2 * j as int, old(hashes)@.len() as int)
                    + reduce_level(old(hashes)@).subrange(0, j as int),
            decreases half - j,
        {
            let left = hashes.pop_front().unwrap();
            let right = hashes.pop_front().unwrap();
            let parent = Self::hash_siblings(&left, &right);
            hashes.push_back(parent);
            proof {
                assert(hashes@ =~= old(hashes)@.subrange(
                    2 * (j + 1) as int,
                    old(hashes)@.len() as int,
                ) + reduce_level(old(hashes)@).subrange(0, j + 1 as int));
            }
            j = j + 1;
        }
        proof {
            assert(hashes@ =~= reduce_level(old(hashes)@));
        }
    }

    /// Hash one stored value into its leaf digest.
    fn hash_leaf(value: &u64) -> (r: u64)
        ensures
            r == leaf_hash(*value),
    {
        let bytes = u64_to_le_bytes(*value);
        let mut hasher = DefaultHasher::new();
        hasher.write(bytes.as_slice());
        let r = hasher.finish();
        proof {
            assert(hasher@ =~= seq![vstd::bytes::spec_u64_to_le_bytes(*value)]);
        }
        r
    }

    /// Hash two sibling digests into their parent digest, left first.
    fn hash_siblings(left: &u64, right: &u64) -> (r: u64)
        ensures
            r == combine_hash(*left, *right),
    {
        let left_bytes = u64_to_le_bytes(*left);
        let right_bytes = u64_to_le_bytes(*right);
        let mut hasher = DefaultHasher::new();
        hasher.write(left_bytes.as_slice());
        hasher.write(right_bytes.as_slice());
        let r = hasher.finish();
        proof {
            assert(hasher@ =~= seq![
                vstd::bytes::spec_u64_to_le_bytes(*left),
                vstd::bytes::spec_u64_to_le_bytes(*right),
            ]);
        }
        r
    }
}

/// Round trip, stated over one leaf level: folding the recorded path for a
/// valid position into that position's digest yields exactly the level's
/// root.
pub proof fn lemma_path_folds_to_root(s: Seq<u64>, i: int)
    requires
        is_pow2(s.len()),
        0 <= i < s.len(),
    ensures
        fold_path(s[i], proof_steps(s, i)) == merkle_root(s),
    decreases s.len(),
{
    if s.len() <= 1 {
    } else {
        let r = reduce_level(s);
        let sib: int = if i % 2 == 0 {
            i + 1
        } else {
            i - 1
        };
        let dir = if i > sib {
            Direction::Left
        } else {
            Direction::Right
        };
        let step = (Step { direction: dir, value: s[sib] });
        assert((seq![step] + proof_steps(r, i / 2))[0] == step);
        assert((seq![step] + proof_steps(r, i / 2)).drop_first() =~= proof_steps(r, i / 2));
        assert(r[i / 2] == combine_hash(s[2 * (i / 2)], s[2 * (i / 2) + 1]));
        lemma_path_folds_to_root(r, i / 2);
    }
}

/// Round trip: for every snapshot of stored values and every valid position
/// of the padded leaf level, the proof built for that position verifies
/// against the tree's root — folding the recorded path into the recorded
/// leaf digest yields exactly the recorded root digest.
pub proof fn lemma_proof_round_trip(values: Seq<u64>, i: int)
    requires
        0 <= i < leaf_digests(values).len(),
    ensures
        fold_path(leaf_digests(values)[i], proof_steps(leaf_digests(values), i)) == merkle_root(
            leaf_digests(values),
        ),
{
    lemma_padded_len_bounds(values.len());
    lemma_path_folds_to_root(leaf_digests(values), i);
}

/// Tampering with the recorded root is detected: a proof that verifies is
/// rejected once its root is replaced by any different digest. (A tampered
/// leaf, sibling digest or direction is detected only up to hash collisions,
/// so no claim is made of those here.)
pub proof fn lemma_tampered_root_rejected(leaf: u64, path: Seq<Step>, root: u64, tampered: u64)
    requires
        fold_path(leaf, path) == root,
        tampered != root,
    ensures
        fold_path(leaf, path) != tampered,
{
}

} // verus!
