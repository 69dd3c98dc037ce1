//! What a root digest commits to.
//!
//! SHA-256 maps infinitely many byte strings to 32 bytes, so no statement of
//! the form "other blobs give another root" can hold outright. What does hold
//! is a reduction: whoever shows two different sequences of blobs with one
//! root has shown two different byte strings with one SHA-256 digest. The
//! theorems here hand that pair out.

use vstd::prelude::*;
use vstd::arithmetic::power2::{pow2, lemma_pow2_unfold, lemma2_to64};
use crate::Data;
use crate::construct::blobs_of;
use crate::hashing::{digest_of, DIGEST_LEN};
use crate::model::{
    is_power_of_two, log2, subtree, tree_of, merkle_root, verifies, lemma_power_of_two_log2,
};

verus! {

/// `x` and `y` are different byte strings with the same digest.
pub open spec fn is_collision(x: Seq<u8>, y: Seq<u8>) -> bool {
    x != y && digest_of(x) == digest_of(y)
}

/// `a` and `b` hold the same blobs at the indices `start..start + count`.
pub open spec fn same_blobs(a: Seq<Seq<u8>>, b: Seq<Seq<u8>>, start: int, count: int) -> bool {
    forall|i: int| start <= i < start + count ==> a[i] == b[i]
}

/// `blobs` with the blobs at `i` and `j` exchanged.
pub open spec fn swapped(blobs: Seq<Seq<u8>>, i: int, j: int) -> Seq<Seq<u8>> {
    blobs.update(i, blobs[j]).update(j, blobs[i])
}

/// Two concatenations of two digests each are equal only if their parts are.
proof fn lemma_split_digests(l1: Seq<u8>, r1: Seq<u8>, l2: Seq<u8>, r2: Seq<u8>)
    requires
        l1.len() == l2.len(),
        l1 + r1 == l2 + r2,
    ensures
        l1 == l2,
        r1 == r2,
{
    let whole = l1 + r1;
    let n = l1.len() as int;
    assert(l1 == whole.subrange(0, n) && l2 == whole.subrange(0, n));
    assert(r1 == whole.subrange(n, whole.len() as int) && r2 == whole.subrange(
        n,
        whole.len() as int,
    ));
}

/// Two subtrees above the same range of indices have the same digest only if
/// the blobs in that range are the same, or else the pair handed out is a
/// collision.
pub proof fn lemma_subtree_binds_blobs(
    a: Seq<Seq<u8>>,
    b: Seq<Seq<u8>>,
    level: nat,
    start: int,
) -> (pair: (Seq<u8>, Seq<u8>))
    ensures
        subtree(a, level, start).digest() == subtree(b, level, start).digest() ==> same_blobs(
            a,
            b,
            start,
            pow2(level) as int,
        ) || is_collision(pair.0, pair.1),
    decreases level,
{
    if level == 0 {
        lemma2_to64();
        (a[start], b[start])
    } else {
        let below = (level - 1) as nat;
        let half = pow2(below) as int;
        let la = subtree(a, below, start).digest();
        let ra = subtree(a, below, start + half).digest();
        let lb = subtree(b, below, start).digest();
        let rb = subtree(b, below, start + half).digest();
        lemma_pow2_unfold(level);
        if la + ra != lb + rb {
            (la + ra, lb + rb)
        } else {
            lemma_split_digests(la, ra, lb, rb);
            let left = lemma_subtree_binds_blobs(a, b, below, start);
            let right = lemma_subtree_binds_blobs(a, b, below, start + half);
            if is_collision(left.0, left.1) {
                left
            } else {
                right
            }
        }
    }
}

/// The root binds the blobs: two different sequences of the same length have
/// different roots, or else the pair handed out is a collision. So blobs of
/// which a single byte was changed do not verify against the old root unless
/// SHA-256 is broken.
pub proof fn lemma_root_binds_blobs(a: Seq<Seq<u8>>, b: Seq<Seq<u8>>) -> (pair: (
    Seq<u8>,
    Seq<u8>,
))
    requires
        is_power_of_two(a.len()),
        a.len() == b.len(),
        a != b,
    ensures
        !verifies(b, merkle_root(a)) || is_collision(pair.0, pair.1),
{
    lemma_power_of_two_log2(a.len());
    let pair = lemma_subtree_binds_blobs(a, b, log2(a.len()), 0);
    if same_blobs(a, b, 0, a.len() as int) {
        assert(a =~= b);
    }
    pair
}

/// The root depends on the order of the blobs: exchanging two different blobs
/// changes it, or else the pair handed out is a collision.
pub proof fn lemma_root_depends_on_order(blobs: Seq<Seq<u8>>, i: int, j: int) -> (pair: (
    Seq<u8>,
    Seq<u8>,
))
    requires
        is_power_of_two(blobs.len()),
        0 <= i < blobs.len(),
        0 <= j < blobs.len(),
        blobs[i] != blobs[j],
    ensures
        merkle_root(swapped(blobs, i, j)) != merkle_root(blobs) || is_collision(pair.0, pair.1),
{
    let other = swapped(blobs, i, j);
    lemma_root_binds_blobs(blobs, other)
}

/// The root of the tree of some blobs verifies those blobs.
pub proof fn lemma_root_verifies(blobs: Seq<Seq<u8>>)
    requires
        is_power_of_two(blobs.len()),
    ensures
        verifies(blobs, tree_of(blobs).digest()),
        tree_of(blobs).digest().len() == DIGEST_LEN,
{
}

/// The tree is a function of the bytes of the blobs: two inputs that hold the
/// same bytes in the same order have the same tree, node for node, and so the
/// same root.
pub proof fn lemma_same_bytes_same_tree(first: Seq<Data>, second: Seq<Data>)
    requires
        first.len() == second.len(),
        forall|i: int| 0 <= i < first.len() ==> first[i]@ == second[i]@,
    ensures
        tree_of(blobs_of(first)) == tree_of(blobs_of(second)),
        merkle_root(blobs_of(first)) == merkle_root(blobs_of(second)),
{
    assert(blobs_of(first) =~= blobs_of(second));
}

} // verus!
