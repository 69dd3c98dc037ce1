//! The mathematical model of a tree: what a tree is, which tree belongs to a
//! sequence of blobs, and what holds of that tree.

use vstd::prelude::*;
use vstd::arithmetic::power2::{pow2, lemma_pow2_pos, lemma_pow2_unfold, lemma2_to64};
use crate::hashing::{digest_of, node_digest, DIGEST_LEN};

verus! {

/// A tree as a mathematical value: every node with its digest, inner nodes
/// with their two subtrees.
pub enum TreeModel {
    Leaf { digest: Seq<u8> },
    Branch { digest: Seq<u8>, left: Box<TreeModel>, right: Box<TreeModel> },
}

impl TreeModel {
    /// The digest that the topmost node carries.
    pub open spec fn digest(self) -> Seq<u8> {
        match self {
            TreeModel::Leaf { digest } => digest,
            TreeModel::Branch { digest, .. } => digest,
        }
    }

    /// The number of layers, a single leaf counting as one.
    pub open spec fn depth(self) -> nat
        decreases self,
    {
        match self {
            TreeModel::Leaf { .. } => 1,
            TreeModel::Branch { left, right, .. } => {
                let l = left.depth();
                let r = right.depth();
                if l >= r {
                    l + 1
                } else {
                    r + 1
                }
            },
        }
    }

    /// The number of leaves.
    pub open spec fn leaf_count(self) -> nat
        decreases self,
    {
        match self {
            TreeModel::Leaf { .. } => 1,
            TreeModel::Branch { left, right, .. } => left.leaf_count() + right.leaf_count(),
        }
    }

    /// The structural invariant: every inner node carries the digest of its
    /// children's digests, left before right, and its two subtrees have the
    /// same depth.
    pub open spec fn well_formed(self) -> bool
        decreases self,
    {
        match self {
            TreeModel::Leaf { .. } => true,
            TreeModel::Branch { digest, left, right } => {
                &&& digest == node_digest(left.digest(), right.digest())
                &&& left.depth() == right.depth()
                &&& left.well_formed()
                &&& right.well_formed()
            },
        }
    }
}

/// `n` is two to some power; zero is not.
///
/// To show it of a given number, name the exponent: `assert(8 == pow2(3))`
/// holds once `lemma2_to64` of vstd has been called.
pub open spec fn is_power_of_two(n: nat) -> bool {
    exists|k: nat| n == pow2(k)
}

/// The binary logarithm of `n`, rounded down; zero for `n` below two.
pub open spec fn log2(n: nat) -> nat
    decreases n,
{
    if n <= 1 {
        0
    } else {
        1 + log2(n / 2)
    }
}

/// The leaf that stands for one blob.
pub open spec fn leaf_of(blob: Seq<u8>) -> TreeModel {
    TreeModel::Leaf { digest: digest_of(blob) }
}

/// The inner node above the subtrees `left` and `right`.
pub open spec fn branch_of(left: TreeModel, right: TreeModel) -> TreeModel {
    TreeModel::Branch {
        digest: node_digest(left.digest(), right.digest()),
        left: Box::new(left),
        right: Box::new(right),
    }
}

/// The perfectly balanced tree above the `2^level` blobs that begin at index
/// `start`: a leaf at level zero, else the node above the trees of the two
/// halves of that range.
pub open spec fn subtree(blobs: Seq<Seq<u8>>, level: nat, start: int) -> TreeModel
    decreases level,
{
    if level == 0 {
        leaf_of(blobs[start])
    } else {
        let below = (level - 1) as nat;
        branch_of(subtree(blobs, below, start), subtree(blobs, below, start + pow2(below)))
    }
}

/// The tree that belongs to `blobs`, a sequence whose length is a power of
/// two: the leaf of the blob where there is one blob, else the node above the
/// trees of the first and the second half (`lemma_tree_of_one`,
/// `lemma_tree_of_halves`).
pub open spec fn tree_of(blobs: Seq<Seq<u8>>) -> TreeModel {
    subtree(blobs, log2(blobs.len()), 0)
}

/// The digest that commits to `blobs` and to their order.
pub open spec fn merkle_root(blobs: Seq<Seq<u8>>) -> Seq<u8> {
    tree_of(blobs).digest()
}

/// `root` is the root digest of `blobs`: the test that verification makes.
pub open spec fn verifies(blobs: Seq<Seq<u8>>, root: Seq<u8>) -> bool {
    merkle_root(blobs) == root
}

/// The logarithm undoes the power.
pub proof fn lemma_log2_pow2(k: nat)
    ensures
        log2(pow2(k)) == k,
    decreases k,
{
    if k == 0 {
        assert(pow2(0) == 1) by {
            lemma2_to64();
        }
    } else {
        lemma_pow2_unfold(k);
        lemma_pow2_pos((k - 1) as nat);
        lemma_log2_pow2((k - 1) as nat);
    }
}

/// A power of two is two to its own logarithm.
pub proof fn lemma_power_of_two_log2(n: nat)
    requires
        is_power_of_two(n),
    ensures
        n == pow2(log2(n)),
        n >= 1,
{
    let k = choose|k: nat| n == pow2(k);
    lemma_log2_pow2(k);
    lemma_pow2_pos(k);
}

/// The shape of `subtree`: `level + 1` layers, `2^level` leaves, every
/// digest of full length, and the structural invariant.
pub proof fn lemma_subtree_shape(blobs: Seq<Seq<u8>>, level: nat, start: int)
    ensures
        subtree(blobs, level, start).depth() == level + 1,
        subtree(blobs, level, start).leaf_count() == pow2(level),
        subtree(blobs, level, start).digest().len() == DIGEST_LEN,
        subtree(blobs, level, start).well_formed(),
    decreases level,
{
    if level == 0 {
        assert(pow2(0) == 1) by {
            lemma2_to64();
        }
    } else {
        let below = (level - 1) as nat;
        let l = subtree(blobs, below, start);
        let r = subtree(blobs, below, start + pow2(below));
        lemma_subtree_shape(blobs, below, start);
        lemma_subtree_shape(blobs, below, start + pow2(below));
        lemma_pow2_unfold(level);
    }
}

/// A subtree depends on no blobs but those in its own range: equal ranges,
/// wherever they lie, have equal subtrees.
pub proof fn lemma_subtree_of_equal_ranges(
    a: Seq<Seq<u8>>,
    from_a: int,
    b: Seq<Seq<u8>>,
    from_b: int,
    level: nat,
)
    requires
        0 <= from_a,
        from_a + pow2(level) <= a.len(),
        0 <= from_b,
        from_b + pow2(level) <= b.len(),
        a.subrange(from_a, from_a + pow2(level)) == b.subrange(from_b, from_b + pow2(level)),
    ensures
        subtree(a, level, from_a) == subtree(b, level, from_b),
    decreases level,
{
    let size = pow2(level) as int;
    let range_a = a.subrange(from_a, from_a + size);
    let range_b = b.subrange(from_b, from_b + size);
    lemma_pow2_pos(level);
    if level == 0 {
        assert(a[from_a] == range_a[0] && b[from_b] == range_b[0]);
    } else {
        let below = (level - 1) as nat;
        let half = pow2(below) as int;
        lemma_pow2_unfold(level);
        assert(a.subrange(from_a, from_a + half) == range_a.subrange(0, half));
        assert(b.subrange(from_b, from_b + half) == range_b.subrange(0, half));
        assert(a.subrange(from_a + half, from_a + half + half) == range_a.subrange(half, size));
        assert(b.subrange(from_b + half, from_b + half + half) == range_b.subrange(half, size));
        lemma_subtree_of_equal_ranges(a, from_a, b, from_b, below);
        lemma_subtree_of_equal_ranges(a, from_a + half, b, from_b + half, below);
    }
}

/// The tree of a single blob is its leaf.
pub proof fn lemma_tree_of_one(blob: Seq<u8>)
    ensures
        tree_of(seq![blob]) == leaf_of(blob),
{
}

/// The tree of two halves of equal length is the node above the trees of the
/// halves.
pub proof fn lemma_tree_of_halves(left: Seq<Seq<u8>>, right: Seq<Seq<u8>>)
    requires
        is_power_of_two(left.len()),
        left.len() == right.len(),
    ensures
        is_power_of_two((left + right).len()),
        tree_of(left + right) == branch_of(tree_of(left), tree_of(right)),
{
    let k = choose|k: nat| left.len() == pow2(k);
    let half = pow2(k) as int;
    let both = left + right;
    lemma_log2_pow2(k);
    lemma_log2_pow2(k + 1);
    lemma_pow2_unfold(k + 1);
    assert(both.subrange(0, half) == left.subrange(0, half));
    assert(both.subrange(half, half + half) == right.subrange(0, half));
    lemma_subtree_of_equal_ranges(both, 0, left, 0, k);
    lemma_subtree_of_equal_ranges(both, half, right, 0, k);
}

/// The tree of a sequence of `2^k` blobs has `log2(len) + 1` layers, one
/// leaf for each blob, and is well formed.
pub proof fn lemma_tree_of_shape(blobs: Seq<Seq<u8>>)
    requires
        is_power_of_two(blobs.len()),
    ensures
        tree_of(blobs).depth() == log2(blobs.len()) + 1,
        tree_of(blobs).leaf_count() == blobs.len(),
        tree_of(blobs).well_formed(),
        merkle_root(blobs).len() == DIGEST_LEN,
{
    lemma_power_of_two_log2(blobs.len());
    lemma_subtree_shape(blobs, log2(blobs.len()), 0);
}

} // verus!
