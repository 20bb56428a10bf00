//! Tree construction, proof generation and proof verification, with the
//! mathematical model they are specified against.

use vstd::prelude::*;

use crate::digest::digest_of;

verus! {

/// The two ways a tree operation can be asked for something impossible.
#[derive(Debug, Clone, Copy, PartialEq, Eq, Structural)]
pub enum MerkleError {
    /// Root or proof computation was invoked on zero leaves.
    EmptyInput,
    /// Proof generation was asked for a leaf index at or past the leaf count.
    IndexOutOfRange,
}

/// An inclusion proof: the sibling digests along the path from one leaf to
/// the root, bottom to top, with the leaf count at construction time, the
/// proven leaf's index, and its original (unhashed) content.
#[derive(Debug)]
pub struct MerkleProof<T> {
    pub hashes: Vec<String>,
    pub num_of_leaves: usize,
    pub leaf_index: usize,
    pub leaf_content: T,
}

/// The tree itself is never stored: the three operations below each run the
/// reduction from scratch and discard their working levels on return.
pub struct MerkleTree;

/// Level zero: each leaf string hashed, in order.
pub open spec fn leaf_level(items: Seq<Seq<char>>) -> Seq<Seq<char>> {
    Seq::new(items.len(), |k: int| digest_of(items[k]))
}

/// The parent digest of chunk `k` of a level: the digests at `2k` and
/// `2k + 1` concatenated and rehashed, or the digest at `2k` self-paired
/// when it is a trailing odd node out.
pub open spec fn parent_at(level: Seq<Seq<char>>, k: int) -> Seq<char> {
    if 2 * k + 1 < level.len() {
        digest_of(level[2 * k] + level[2 * k + 1])
    } else {
        digest_of(level[2 * k] + level[2 * k])
    }
}

/// One reduction step: consecutive non-overlapping pairs, left to right.
pub open spec fn level_up(level: Seq<Seq<char>>) -> Seq<Seq<char>> {
    Seq::new(((level.len() + 1) / 2) as nat, |k: int| parent_at(level, k))
}

/// The root: the single digest left after repeated reduction.
pub open spec fn root_of(level: Seq<Seq<char>>) -> Seq<char>
    recommends
        level.len() >= 1,
    decreases level.len(),
{
    if level.len() <= 1 {
        level[0]
    } else {
        root_of(level_up(level))
    }
}

/// The sibling recorded for position `idx` of a level: the partner inside
/// its chunk, or the digest at `idx` itself when the chunk is a singleton.
pub open spec fn sibling_at(level: Seq<Seq<char>>, idx: int) -> Seq<char> {
    if idx % 2 == 1 {
        level[idx - 1]
    } else if idx + 1 < level.len() {
        level[idx + 1]
    } else {
        level[idx]
    }
}

/// All siblings along the path from position `idx` of a level to the root,
/// bottom to top.
pub open spec fn siblings_of(level: Seq<Seq<char>>, idx: int) -> Seq<Seq<char>>
    decreases level.len(),
{
    if level.len() <= 1 {
        Seq::empty()
    } else {
        seq![sibling_at(level, idx)] + siblings_of(level_up(level), idx / 2)
    }
}

/// Verification's replay: starting from digest `h` at position `idx`,
/// combine with each sibling in order, on the side the index's parity
/// dictates, halving the index each level.
pub open spec fn fold_up(h: Seq<char>, idx: int, sibs: Seq<Seq<char>>) -> Seq<char>
    decreases sibs.len(),
{
    if sibs.len() == 0 {
        h
    } else if idx % 2 == 0 {
        fold_up(digest_of(h + sibs[0]), idx / 2, sibs.drop_first())
    } else {
        fold_up(digest_of(sibs[0] + h), idx / 2, sibs.drop_first())
    }
}

/// The number of reduction steps from `n` leaves down to the root; equally,
/// the number of siblings a proof over `n` leaves holds.
pub open spec fn tree_height(n: int) -> int
    decreases n,
{
    if n <= 1 {
        0
    } else {
        1 + tree_height((n + 1) / 2)
    }
}

/// What a well-formed proof for leaf `idx` of `items` holds.
pub open spec fn is_proof_for(p: MerkleProof<String>, items: Seq<Seq<char>>, idx: int) -> bool {
    &&& p.num_of_leaves == items.len()
    &&& p.leaf_index == idx
    &&& p.leaf_content@ == items[idx]
    &&& p.hashes.deep_view() == siblings_of(leaf_level(items), idx)
}

/// A proof whose stated leaf count, leaf index and sibling count are
/// consistent with one another; anything else verifies as `false` outright.
pub open spec fn proof_shape_ok(num_of_leaves: int, leaf_index: int, num_siblings: int) -> bool {
    &&& 1 <= num_of_leaves
    &&& 0 <= leaf_index < num_of_leaves
    &&& num_siblings == tree_height(num_of_leaves)
}

/// Hashes every leaf in order, producing level zero.
fn hash_leaves(leaves: &Vec<String>) -> (r: Vec<String>)
    ensures
        r.deep_view() == leaf_level(leaves.deep_view()),
        r@.len() == leaves@.len(),
{
    let mut r: Vec<String> = Vec::new();
    let mut i: usize = 0;
    while i < leaves.len()
        invariant
            i <= leaves@.len(),
            r@.len() == i,
            forall|k: int| 0 <= k < i ==> r@[k]@ == digest_of(leaves@[k]@),
        decreases leaves@.len() - i,
    {
        let h = crate::digest::hash_leaf(leaves[i].as_str());
        r.push(h);
        i = i + 1;
    }
    proof {
        assert(r.deep_view() =~= leaf_level(leaves.deep_view()));
    }
    r
}

/// One reduction step: each consecutive pair concatenated and rehashed, a
/// trailing odd node out concatenated with itself.
fn reduce_level(level: &Vec<String>) -> (r: Vec<String>)
    requires
        level@.len() >= 1,
    ensures
        r.deep_view() == level_up(level.deep_view()),
        r@.len() == (level@.len() + 1) / 2,
{
    let n = level.len();
    let m = n / 2 + n % 2;
    let mut r: Vec<String> = Vec::new();
    let mut k: usize = 0;
    while k < m
        invariant
            n == level@.len(),
            1 <= n,
            m == (n + 1) / 2,
            k <= m,
            r@.len() == k,
            forall|j: int| 0 <= j < k ==> r@[j]@ == parent_at(level.deep_view(), j),
        decreases m - k,
    {
        let h = if 2 * k + 1 < n {
            crate::digest::hash_concat(level[2 * k].as_str(), level[2 * k + 1].as_str())
        } else {
            crate::digest::hash_concat(level[2 * k].as_str(), level[2 * k].as_str())
        };
        r.push(h);
        k = k + 1;
    }
    proof {
        assert(r.deep_view() =~= level_up(level.deep_view()));
    }
    r
}

/// The height of a tree is at most the number of its leaves.
pub proof fn lemma_tree_height_bounds(n: int)
    ensures
        0 <= tree_height(n),
        n >= 2 ==> 1 <= tree_height(n) < n,
    decreases n,
{
    if n >= 2 {
        lemma_tree_height_bounds((n + 1) / 2);
    }
}

/// The number of reduction steps from `n` leaves down to the root.
fn height_for(n: usize) -> (h: usize)
    requires
        1 <= n,
    ensures
        h == tree_height(n as int),
{
    let mut m = n;
    let mut h: usize = 0;
    while m > 1
        invariant
            1 <= m <= n,
            h + tree_height(m as int) == tree_height(n as int),
        decreases m,
    {
        proof {
            lemma_tree_height_bounds(n as int);
            lemma_tree_height_bounds(m as int);
        }
        m = m / 2 + m % 2;
        h = h + 1;
    }
    h
}

impl MerkleTree {
    /// The root digest committing to the whole leaf sequence: level zero is
    /// every leaf hashed in order, and each level above it combines
    /// consecutive pairs (a trailing odd node with itself) until one digest
    /// remains. An empty sequence has no root.
    pub fn merkle_root(leaves: &Vec<String>) -> (r: Result<String, MerkleError>)
        ensures
            leaves@.len() == 0 ==> r == Err::<String, MerkleError>(MerkleError::EmptyInput),
            leaves@.len() > 0 ==> r is Ok && r->Ok_0@ == root_of(leaf_level(leaves.deep_view())),
    {
        if leaves.len() == 0 {
            return Err(MerkleError::EmptyInput);
        }
        let mut level = hash_leaves(leaves);
        while level.len() > 1
            invariant
                level@.len() >= 1,
                root_of(level.deep_view()) == root_of(leaf_level(leaves.deep_view())),
            decreases level@.len(),
        {
            level = reduce_level(&level);
        }
        Ok(level[0].clone())
    }

    /// An inclusion proof for the leaf at `leaf_index`: the same reduction
    /// as `merkle_root`, additionally recording, at every level, the sibling
    /// of the node on the path from that leaf to the root.
    pub fn merkle_proof(leaves: &Vec<String>, leaf_index: usize) -> (r: Result<
        MerkleProof<String>,
        MerkleError,
    >)
        ensures
            leaves@.len() == 0 ==> r == Err::<MerkleProof<String>, MerkleError>(
                MerkleError::EmptyInput,
            ),
            leaves@.len() > 0 && leaf_index >= leaves@.len() ==> r == Err::<
                MerkleProof<String>,
                MerkleError,
            >(MerkleError::IndexOutOfRange),
            leaf_index < leaves@.len() ==> r is Ok && is_proof_for(
                r->Ok_0,
                leaves.deep_view(),
                leaf_index as int,
            ),
    {
        if leaves.len() == 0 {
            return Err(MerkleError::EmptyInput);
        }
        if leaf_index >= leaves.len() {
            return Err(MerkleError::IndexOutOfRange);
        }
        let leaf_content = leaves[leaf_index].clone();
        let ghost level0 = leaf_level(leaves.deep_view());
        let mut hashes: Vec<String> = Vec::new();
        let mut level = hash_leaves(leaves);
        let mut index = leaf_index;
        proof {
            assert(Seq::<Seq<char>>::empty() + siblings_of(level0, leaf_index as int)
                =~= siblings_of(level0, leaf_index as int));
        }
        while level.len() > 1
            invariant
                1 <= level@.len(),
                index < level@.len(),
                hashes.deep_view() + siblings_of(level.deep_view(), index as int)
                    == siblings_of(level0, leaf_index as int),
            decreases level@.len(),
        {
            let sibling: String = if index % 2 == 1 {
                level[index - 1].clone()
            } else if index + 1 < level.len() {
                level[index + 1].clone()
            } else {
                level[index].clone()
            };
            let ghost old_hashes = hashes.deep_view();
            let ghost old_level = level.deep_view();
            let ghost old_index = index as int;
            proof {
                assert(sibling@ == sibling_at(old_level, old_index));
                assert(siblings_of(old_level, old_index) == seq![
                    sibling_at(old_level, old_index),
                ] + siblings_of(level_up(old_level), old_index / 2));
            }
            hashes.push(sibling);
            level = reduce_level(&level);
            index = index / 2;
            proof {
                assert(hashes.deep_view() =~= old_hashes + seq![
                    sibling_at(old_level, old_index),
                ]);
                assert(hashes.deep_view() + siblings_of(level.deep_view(), index as int)
                    =~= old_hashes + siblings_of(old_level, old_index));
            }
        }
        proof {
            assert(hashes.deep_view() + Seq::<Seq<char>>::empty() =~= hashes.deep_view());
        }
        Ok(
            MerkleProof {
                hashes,
                num_of_leaves: leaves.len(),
                leaf_index,
                leaf_content,
            },
        )
    }

    /// Replays the reduction from the proof's claimed leaf content,
    /// consuming the recorded siblings bottom to top — the parity of the
    /// halved index decides the concatenation order at each level — and
    /// compares the result against the trusted root. A proof whose leaf
    /// count, leaf index and sibling count do not fit together is `false`
    /// outright; verification never fails in any other way.
    pub fn verify_proof(root: &String, proof: &MerkleProof<String>) -> (r: bool)
        ensures
            r == ({
                &&& proof_shape_ok(
                    proof.num_of_leaves as int,
                    proof.leaf_index as int,
                    proof.hashes@.len() as int,
                )
                &&& root@ == fold_up(
                    digest_of(proof.leaf_content@),
                    proof.leaf_index as int,
                    proof.hashes.deep_view(),
                )
            }),
    {
        if proof.num_of_leaves == 0 || proof.leaf_index >= proof.num_of_leaves {
            return false;
        }
        if proof.hashes.len() != height_for(proof.num_of_leaves) {
            return false;
        }
        let ghost start = digest_of(proof.leaf_content@);
        let ghost sibs = proof.hashes.deep_view();
        let mut hash = crate::digest::hash_leaf(proof.leaf_content.as_str());
        let mut index = proof.leaf_index;
        let mut i: usize = 0;
        proof {
            assert(sibs.skip(0) =~= sibs);
        }
        while i < proof.hashes.len()
            invariant
                i <= sibs.len(),
                sibs == proof.hashes.deep_view(),
                fold_up(start, proof.leaf_index as int, sibs) == fold_up(
                    hash@,
                    index as int,
                    sibs.skip(i as int),
                ),
            decreases sibs.len() - i,
        {
            let sibling = &proof.hashes[i];
            proof {
                assert(sibs.skip(i as int)[0] == sibling@);
                assert(sibs.skip(i as int).drop_first() =~= sibs.skip(i as int + 1));
            }
            hash = if index % 2 == 0 {
                crate::digest::hash_concat(hash.as_str(), sibling.as_str())
            } else {
                crate::digest::hash_concat(sibling.as_str(), hash.as_str())
            };
            index = index / 2;
            i = i + 1;
        }
        proof {
            assert(sibs.skip(sibs.len() as int) =~= Seq::<Seq<char>>::empty());
        }
        *root == hash
    }
}

} // verus!
