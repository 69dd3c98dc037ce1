//! The tree itself: its nodes, and how one is put together.

use vstd::prelude::*;
use crate::hashing::{hash_concat, hashable};
use crate::model::{TreeModel, branch_of};

verus! {

/// A Merkle (sub)tree: a node with its digest and whatever hangs below it.
pub struct MerkleTree {
    hash: crate::Hash,
    children: MerkleTreeChildren,
}

/// What hangs below a single node.
pub enum MerkleTreeChildren {
    Leaf,
    Branch { left: Box<MerkleTree>, right: Box<MerkleTree> },
}

impl MerkleTree {
    /// The tree as a mathematical value.
    pub closed spec fn model(&self) -> TreeModel
        decreases self,
    {
        match self.children {
            MerkleTreeChildren::Leaf => TreeModel::Leaf { digest: self.hash@ },
            MerkleTreeChildren::Branch { left, right } => TreeModel::Branch {
                digest: self.hash@,
                left: Box::new(left.model()),
                right: Box::new(right.model()),
            },
        }
    }
}

impl View for MerkleTree {
    type V = TreeModel;

    open spec fn view(&self) -> TreeModel {
        self.model()
    }
}

impl MerkleTreeChildren {
    /// The children of a node whose model is `node`: none below a leaf, the
    /// two subtrees below an inner node.
    pub open spec fn below(self, node: TreeModel) -> bool {
        match self {
            MerkleTreeChildren::Leaf => node is Leaf,
            MerkleTreeChildren::Branch { left, right } => {
                &&& node is Branch
                &&& *node->left == left@
                &&& *node->right == right@
            },
        }
    }
}

impl MerkleTree {
    /// A node without children that carries `hash`.
    pub fn leaf(hash: crate::Hash) -> (tree: MerkleTree)
        ensures
            tree@ == (TreeModel::Leaf { digest: hash@ }),
            tree@.well_formed(),
    {
        MerkleTree { hash, children: MerkleTreeChildren::Leaf }
    }

    /// The node above `left` and `right`, with the digest of their two
    /// digests.
    pub fn branch(left: MerkleTree, right: MerkleTree) -> (tree: MerkleTree)
        requires
            hashable(left@.digest() + right@.digest()),
        ensures
            tree@ == branch_of(left@, right@),
            left@.well_formed() && right@.well_formed() && left@.depth() == right@.depth()
                ==> tree@.well_formed(),
    {
        let hash = hash_concat(&left.hash, &right.hash);
        MerkleTree {
            hash,
            children: MerkleTreeChildren::Branch { left: Box::new(left), right: Box::new(right) },
        }
    }

    /// The digest of this node; at the top of a tree, the root digest.
    pub fn hash(&self) -> (hash: &crate::Hash)
        ensures
            hash@ == self@.digest(),
    {
        &self.hash
    }

    /// The subtrees below this node.
    pub fn children(&self) -> (children: &MerkleTreeChildren)
        ensures
            children.below(self@),
    {
        &self.children
    }
}

} // verus!
