//! The properties that bind the three operations together, proved once and
//! for all over the model in `tree`.

use vstd::prelude::*;

use vstd::arithmetic::power2::lemma2_to64;
use vstd::arithmetic::power2::lemma_pow2_unfold;
use vstd::arithmetic::power2::pow2;

use crate::digest::digest_of;
use crate::tree::fold_up;
use crate::tree::leaf_level;
use crate::tree::level_up;
use crate::tree::parent_at;
use crate::tree::proof_shape_ok;
use crate::tree::root_of;
use crate::tree::sibling_at;
use crate::tree::siblings_of;
use crate::tree::tree_height;

verus! {

/// A proof over a level holds exactly one sibling per reduction step.
pub proof fn lemma_siblings_len(level: Seq<Seq<char>>, idx: int)
    ensures
        siblings_of(level, idx).len() == tree_height(level.len() as int),
    decreases level.len(),
{
    if level.len() > 1 {
        lemma_siblings_len(level_up(level), idx / 2);
    }
}

/// Replaying the recorded siblings from any position of a level recomputes
/// that level's root: the combination the verifier makes at each step is
/// exactly the parent the reduction built above the tracked node.
pub proof fn lemma_fold_matches_root(level: Seq<Seq<char>>, idx: int)
    requires
        0 <= idx < level.len(),
    ensures
        fold_up(level[idx], idx, siblings_of(level, idx)) == root_of(level),
    decreases level.len(),
{
    if level.len() > 1 {
        let up = level_up(level);
        let sib = sibling_at(level, idx);
        let rest = siblings_of(up, idx / 2);
        assert(siblings_of(level, idx) == seq![sib] + rest);
        assert((seq![sib] + rest).drop_first() =~= rest);
        let combined = if idx % 2 == 0 {
            digest_of(level[idx] + sib)
        } else {
            digest_of(sib + level[idx])
        };
        assert(combined == parent_at(level, idx / 2)) by {
            if idx % 2 == 0 {
                assert(2 * (idx / 2) == idx);
            } else {
                assert(2 * (idx / 2) == idx - 1);
            }
        }
        assert(up[idx / 2] == parent_at(level, idx / 2));
        lemma_fold_matches_root(up, idx / 2);
    }
}

/// Round trip: for any non-empty leaf sequence and any valid leaf index,
/// the proof generated over those leaves verifies against their root — its
/// shape is consistent, and folding the proven leaf's digest through the
/// recorded siblings yields exactly the root digest.
pub proof fn lemma_proof_round_trip(items: Seq<Seq<char>>, idx: int)
    requires
        0 <= idx < items.len(),
    ensures
        proof_shape_ok(items.len() as int, idx, siblings_of(leaf_level(items), idx).len() as int),
        fold_up(digest_of(items[idx]), idx, siblings_of(leaf_level(items), idx)) == root_of(
            leaf_level(items),
        ),
{
    lemma_siblings_len(leaf_level(items), idx);
    lemma_fold_matches_root(leaf_level(items), idx);
}

/// The root of a single leaf is that leaf's digest, with no reduction step.
pub proof fn lemma_single_leaf_root(item: Seq<char>)
    ensures
        root_of(leaf_level(seq![item])) == digest_of(item),
        tree_height(1) == 0,
{
    assert(leaf_level(seq![item]).len() == 1);
    assert(leaf_level(seq![item])[0] == digest_of(item));
}

/// Determinism: the root is a function of the leaf sequence alone, so any
/// two computations over the same leaves agree.
pub proof fn lemma_root_deterministic(items: Seq<Seq<char>>, r1: Seq<char>, r2: Seq<char>)
    requires
        r1 == root_of(leaf_level(items)),
        r2 == root_of(leaf_level(items)),
    ensures
        r1 == r2,
{
}

/// A proof's sibling count is the base-two logarithm of the leaf count,
/// rounded up: the height `h` of a tree over `n >= 2` leaves satisfies
/// `2^(h-1) < n <= 2^h`.
pub proof fn lemma_height_is_ceil_log2(n: int)
    requires
        2 <= n,
    ensures
        1 <= tree_height(n),
        n <= pow2(tree_height(n) as nat),
        pow2((tree_height(n) - 1) as nat) < n,
    decreases n,
{
    crate::tree::lemma_tree_height_bounds(n);
    let m = (n + 1) / 2;
    if m == 1 {
        assert(n == 2);
        assert(tree_height(2) == 1);
        lemma2_to64();
    } else {
        lemma_height_is_ceil_log2(m);
        let h = tree_height(m);
        assert(tree_height(n) == h + 1);
        lemma_pow2_unfold((h + 1) as nat);
        lemma_pow2_unfold(h as nat);
        assert(pow2((h + 1) as nat) == 2 * pow2(h as nat));
        assert(n <= 2 * m);
        assert(n <= pow2((h + 1) as nat));
        assert(pow2(h as nat) == 2 * pow2((h - 1) as nat));
        assert(pow2((h - 1) as nat) < m);
        assert(2 * m <= n + 1);
        assert(pow2(h as nat) <= 2 * m - 2);
    }
}

} // verus!
