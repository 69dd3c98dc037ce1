//! Building a tree from its blobs in one pass, and checking blobs against a
//! root digest.
//!
//! The pass works like a binary counter. One slot per layer holds a finished
//! subtree that waits for its right sibling. Every blob enters at the leaf
//! layer and is merged upwards as long as a left sibling waits, which is the
//! carry of an increment.

use vstd::prelude::*;
use vstd::arithmetic::power2::{pow2, lemma_pow2_pos, lemma_pow2_unfold, lemma2_to64};
use crate::Data;
use crate::hashing::{hash_data, hashable, DIGEST_LEN};
use crate::model::{
    is_power_of_two, log2, subtree, tree_of, verifies, lemma_log2_pow2, lemma_tree_of_shape,
};
use crate::tree::MerkleTree;

verus! {

/// The one way in which an input can be unfit for a tree.
#[derive(Debug, Clone, Copy, PartialEq, Eq, Structural)]
pub enum MerkleError {
    /// The number of blobs is zero or not a power of two.
    InvalidInputLength,
}

/// The blobs of an input, each as its byte sequence.
pub open spec fn blobs_of(input: Seq<Data>) -> Seq<Seq<u8>> {
    input.map_values(|blob: Data| blob@)
}

/// Every blob of the input is short enough to be hashed.
pub open spec fn hashable_blobs(input: Seq<Data>) -> bool {
    forall|i: int| 0 <= i < input.len() ==> hashable(#[trigger] input[i]@)
}

/// The waiting subtrees in layers `lo..hi` are the trees of adjoining blocks
/// of blobs that together make up the first `end` blobs: the tree in layer
/// `j` stands above `2^j` blobs, and higher layers stand further left.
spec fn covers(
    pending: Seq<Option<MerkleTree>>,
    blobs: Seq<Seq<u8>>,
    lo: nat,
    hi: nat,
    end: int,
) -> bool
    decreases hi - lo,
{
    if lo >= hi {
        end == 0
    } else {
        match pending[lo as int] {
            None => covers(pending, blobs, lo + 1, hi, end),
            Some(tree) => {
                let start = end - pow2(lo);
                &&& start >= 0
                &&& tree@ == subtree(blobs, lo, start)
                &&& covers(pending, blobs, lo + 1, hi, start)
            },
        }
    }
}

/// Only the layers `lo..hi` matter to `covers`.
proof fn lemma_covers_frame(
    p: Seq<Option<MerkleTree>>,
    q: Seq<Option<MerkleTree>>,
    blobs: Seq<Seq<u8>>,
    lo: nat,
    hi: nat,
    end: int,
)
    requires
        forall|j: int| lo <= j < hi ==> p[j] == q[j],
    ensures
        covers(p, blobs, lo, hi, end) == covers(q, blobs, lo, hi, end),
    decreases hi - lo,
{
    if lo < hi {
        match p[lo as int] {
            None => lemma_covers_frame(p, q, blobs, lo + 1, hi, end),
            Some(_) => lemma_covers_frame(p, q, blobs, lo + 1, hi, end - pow2(lo)),
        }
    }
}

/// Empty layers at the bottom can be left out.
proof fn lemma_covers_skip_empty(
    p: Seq<Option<MerkleTree>>,
    blobs: Seq<Seq<u8>>,
    lo: nat,
    mid: nat,
    hi: nat,
    end: int,
)
    requires
        lo <= mid <= hi,
        forall|j: int| lo <= j < mid ==> p[j] is None,
    ensures
        covers(p, blobs, lo, hi, end) == covers(p, blobs, mid, hi, end),
    decreases mid - lo,
{
    if lo < mid {
        lemma_covers_skip_empty(p, blobs, lo + 1, mid, hi, end);
    }
}

/// Layers `lo..hi` hold fewer than `2^hi` blobs.
proof fn lemma_covers_bound(
    p: Seq<Option<MerkleTree>>,
    blobs: Seq<Seq<u8>>,
    lo: nat,
    hi: nat,
    end: int,
)
    requires
        lo <= hi,
        covers(p, blobs, lo, hi, end),
    ensures
        0 <= end <= pow2(hi) - pow2(lo),
    decreases hi - lo,
{
    if lo < hi {
        lemma_pow2_unfold(lo + 1);
        match p[lo as int] {
            None => lemma_covers_bound(p, blobs, lo + 1, hi, end),
            Some(_) => lemma_covers_bound(p, blobs, lo + 1, hi, end - pow2(lo)),
        }
    }
}

/// What the topmost of the layers `lo..=hi` holds: nothing, and the layers
/// below it cover the same blobs; or the tree of the first `2^hi` blobs.
proof fn lemma_covers_top(
    p: Seq<Option<MerkleTree>>,
    blobs: Seq<Seq<u8>>,
    lo: nat,
    hi: nat,
    end: int,
)
    requires
        lo <= hi,
        covers(p, blobs, lo, hi + 1, end),
    ensures
        match p[hi as int] {
            None => covers(p, blobs, lo, hi, end),
            Some(tree) => tree@ == subtree(blobs, hi, 0),
        },
    decreases hi - lo,
{
    if lo < hi {
        match p[lo as int] {
            None => lemma_covers_top(p, blobs, lo + 1, hi, end),
            Some(_) => lemma_covers_top(p, blobs, lo + 1, hi, end - pow2(lo)),
        }
    } else {
        match p[hi as int] {
            None => {
                assert(covers(p, blobs, hi + 1, hi + 1, end));
            },
            Some(_) => {
                assert(covers(p, blobs, hi + 1, hi + 1, end - pow2(hi)));
            },
        }
    }
}

/// An even number is a power of two exactly when its half is one.
proof fn lemma_power_of_two_half(m: nat)
    requires
        m >= 2,
        m % 2 == 0,
    ensures
        is_power_of_two(m) == is_power_of_two(m / 2),
{
    lemma2_to64();
    if is_power_of_two(m) {
        let k = choose|k: nat| m == pow2(k);
        lemma_pow2_unfold(k);
    }
    if is_power_of_two(m / 2) {
        let k = choose|k: nat| m / 2 == pow2(k);
        lemma_pow2_unfold(k + 1);
    }
}

/// No odd number but one is a power of two, nor is zero.
proof fn lemma_odd_power_of_two(m: nat)
    requires
        m == 0 || m % 2 == 1,
        m != 1,
    ensures
        !is_power_of_two(m),
{
    if is_power_of_two(m) {
        let k = choose|k: nat| m == pow2(k);
        lemma_pow2_pos(k);
        lemma2_to64();
        if k > 0 {
            lemma_pow2_unfold(k);
        }
    }
}

/// The exponent `k` with `n == 2^k`, if `n` is a power of two.
fn exact_log2(n: usize) -> (exponent: Option<usize>)
    ensures
        match exponent {
            Some(k) => n == pow2(k as nat) && k == log2(n as nat),
            None => !is_power_of_two(n as nat),
        },
{
    if n == 0 {
        proof {
            lemma_odd_power_of_two(0);
        }
        return None;
    }
    let mut rest: usize = n;
    let mut k: usize = 0;
    proof {
        lemma2_to64();
    }
    while rest % 2 == 0
        invariant
            rest >= 1,
            k + rest <= n,
            n == rest * pow2(k as nat),
            is_power_of_two(n as nat) == is_power_of_two(rest as nat),
        decreases rest,
    {
        proof {
            lemma_power_of_two_half(rest as nat);
            lemma_pow2_unfold((k + 1) as nat);
            let half = (rest / 2) as int;
            let p = pow2(k as nat) as int;
            assert((2 * half) * p == half * (2 * p)) by (nonlinear_arith);
        }
        rest = rest / 2;
        k = k + 1;
    }
    if rest == 1 {
        proof {
            lemma_log2_pow2(k as nat);
        }
        Some(k)
    } else {
        proof {
            lemma_odd_power_of_two(rest as nat);
        }
        None
    }
}

/// The tree above `2^top` blobs, built in one pass from left to right.
fn build(input: &[Data], top: usize) -> (tree: MerkleTree)
    requires
        input@.len() == pow2(top as nat),
        hashable_blobs(input@),
    ensures
        tree@ == subtree(blobs_of(input@), top as nat, 0),
{
    let ghost blobs = blobs_of(input@);
    let n = input.len();
    proof {
        lemma_pow2_exceeds(top as nat);
    }
    let depth = top + 1;

    // Unfinished subtrees that wait for the tree to their right.
    let mut left_side: Vec<Option<MerkleTree>> = Vec::new();
    let mut made: usize = 0;
    while made < depth
        invariant
            made <= depth,
            left_side@.len() == made,
            forall|j: int| 0 <= j < made ==> left_side@[j] is None,
        decreases depth - made,
    {
        left_side.push(None);
        made = made + 1;
    }
    proof {
        lemma_covers_skip_empty(left_side@, blobs, 0, depth as nat, depth as nat, 0);
    }

    let mut i: usize = 0;
    while i < n
        invariant
            i <= n,
            n == input@.len(),
            n == pow2(top as nat),
            depth == top + 1,
            blobs == blobs_of(input@),
            hashable_blobs(input@),
            left_side@.len() == depth,
            covers(left_side@, blobs, 0, depth as nat, i as int),
        decreases n - i,
    {
        let mut right = MerkleTree::leaf(hash_data(&input[i]));
        let mut layer: usize = 0;
        proof {
            lemma2_to64();
        }
        // Carry the new subtree upwards past every waiting left sibling.
        loop
            invariant_except_break
                layer <= top,
                i + 1 - pow2(layer as nat) >= 0,
                right@ == subtree(blobs, layer as nat, i + 1 - pow2(layer as nat)),
                forall|j: int| 0 <= j < layer ==> left_side@[j] is None,
                covers(left_side@, blobs, layer as nat, depth as nat, i + 1 - pow2(layer as nat)),
            invariant
                i < n,
                n == pow2(top as nat),
                depth == top + 1,
                left_side@.len() == depth,
            ensures
                covers(left_side@, blobs, 0, depth as nat, i + 1),
            decreases depth - layer,
        {
            let ghost before = left_side@;
            let ghost block = pow2(layer as nat) as int;
            let ghost end = i + 1 - block;
            match left_side[layer].take() {
                Some(left) => {
                    proof {
                        lemma_covers_frame(
                            before,
                            left_side@,
                            blobs,
                            (layer + 1) as nat,
                            depth as nat,
                            end - block,
                        );
                        lemma_pow2_unfold((layer + 1) as nat);
                    }
                    right = MerkleTree::branch(left, right);
                    layer = layer + 1;
                },
                None => {
                    left_side[layer] = Some(right);
                    proof {
                        lemma_covers_frame(
                            before,
                            left_side@,
                            blobs,
                            (layer + 1) as nat,
                            depth as nat,
                            end,
                        );
                        lemma_covers_skip_empty(
                            left_side@,
                            blobs,
                            0,
                            layer as nat,
                            depth as nat,
                            i + 1,
                        );
                    }
                    break ;
                },
            }
        }
        i = i + 1;
    }

    proof {
        lemma_covers_top(left_side@, blobs, 0, top as nat, n as int);
        if left_side@[top as int] is None {
            lemma_covers_bound(left_side@, blobs, 0, top as nat, n as int);
            lemma2_to64();
        }
    }
    // The topmost node is the root of the tree.
    left_side.pop().unwrap().unwrap()
}

/// Every exponent is below its power of two.
proof fn lemma_pow2_exceeds(k: nat)
    ensures
        k < pow2(k),
    decreases k,
{
    lemma2_to64();
    if k > 0 {
        lemma_pow2_exceeds((k - 1) as nat);
        lemma_pow2_unfold(k);
    }
}

impl MerkleTree {
    /// Builds the tree of the given blobs, whose number must be a power of
    /// two and not zero.
    ///
    /// A caller that Verus does not check and that passes another number of
    /// blobs gets a panic, never a tree; `try_construct` answers such a
    /// caller with an error instead.
    pub fn construct(input: &[Data]) -> (tree: MerkleTree)
        requires
            is_power_of_two(input@.len()),
            hashable_blobs(input@),
        ensures
            tree@ == tree_of(blobs_of(input@)),
            tree@.depth() == log2(input@.len()) + 1,
            tree@.leaf_count() == input@.len(),
            tree@.digest().len() == DIGEST_LEN,
            tree@.well_formed(),
    {
        let top = exact_log2(input.len()).unwrap();
        proof {
            lemma_tree_of_shape(blobs_of(input@));
        }
        build(input, top)
    }

    /// Builds the tree of the given blobs, or says that their number is zero
    /// or not a power of two.
    pub fn try_construct(input: &[Data]) -> (result: Result<MerkleTree, MerkleError>)
        requires
            hashable_blobs(input@),
        ensures
            match result {
                Ok(tree) => {
                    &&& is_power_of_two(input@.len())
                    &&& tree@ == tree_of(blobs_of(input@))
                    &&& tree@.depth() == log2(input@.len()) + 1
                    &&& tree@.leaf_count() == input@.len()
                    &&& tree@.digest().len() == DIGEST_LEN
                    &&& tree@.well_formed()
                },
                Err(error) => {
                    &&& !is_power_of_two(input@.len())
                    &&& error == MerkleError::InvalidInputLength
                },
            },
    {
        match exact_log2(input.len()) {
            Some(top) => {
                proof {
                    lemma_tree_of_shape(blobs_of(input@));
                }
                Ok(build(input, top))
            },
            None => Err(MerkleError::InvalidInputLength),
        }
    }

    /// Tells whether the given blobs, whose number must be a power of two and
    /// not zero, have the given root digest. The whole tree is built anew for
    /// the answer.
    ///
    /// A caller that Verus does not check and that passes another number of
    /// blobs gets a panic; `try_verify` answers such a caller with an error
    /// instead.
    pub fn verify(input: &[Data], root_hash: &crate::Hash) -> (ok: bool)
        requires
            is_power_of_two(input@.len()),
            hashable_blobs(input@),
        ensures
            ok == verifies(blobs_of(input@), root_hash@),
    {
        let tree = MerkleTree::construct(input);
        same_bytes(tree.hash(), root_hash)
    }

    /// Tells whether the given blobs have the given root digest, or says that
    /// their number is zero or not a power of two. A digest that does not
    /// match is no error: the answer is then `Ok(false)`.
    pub fn try_verify(input: &[Data], root_hash: &crate::Hash) -> (result: Result<
        bool,
        MerkleError,
    >)
        requires
            hashable_blobs(input@),
        ensures
            match result {
                Ok(ok) => {
                    &&& is_power_of_two(input@.len())
                    &&& ok == verifies(blobs_of(input@), root_hash@)
                },
                Err(error) => {
                    &&& !is_power_of_two(input@.len())
                    &&& error == MerkleError::InvalidInputLength
                },
            },
    {
        match MerkleTree::try_construct(input) {
            Ok(tree) => Ok(same_bytes(tree.hash(), root_hash)),
            Err(error) => Err(error),
        }
    }
}

/// Compares two digests byte by byte.
fn same_bytes(a: &crate::Hash, b: &crate::Hash) -> (same: bool)
    ensures
        same == (a@ == b@),
{
    if a.len() != b.len() {
        return false;
    }
    let mut i: usize = 0;
    while i < a.len()
        invariant
            i <= a.len(),
            a.len() == b.len(),
            a@.subrange(0, i as int) == b@.subrange(0, i as int),
        decreases a.len() - i,
    {
        if a[i] != b[i] {
            return false;
        }
        i = i + 1;
    }
    proof {
        assert(a@ == a@.subrange(0, a.len() as int));
        assert(b@ == b@.subrange(0, b.len() as int));
    }
    true
}

} // verus!
