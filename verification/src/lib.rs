//! A binary hash tree (Merkle tree) over an ordered sequence of byte blobs.
//!
//! The tree commits to every blob and to their order through a single root
//! digest. Leaves hold the SHA-256 digest of one blob; every inner node holds
//! the SHA-256 digest of its two children's digests, left before right.
//!
//! `MerkleTree::construct` builds the tree of `2^k` blobs and
//! `MerkleTree::verify` holds blobs against a root digest; `try_construct` and
//! `try_verify` do the same for any number of blobs and answer with
//! `MerkleError::InvalidInputLength` where no tree exists. What a tree is, as
//! a mathematical value, stands in `model`; what its root commits to, in
//! `commitment`. SHA-256 itself comes from the `sha2` crate and is the one
//! thing taken on trust.

use vstd::prelude::*;

pub mod commitment;
pub mod construct;
pub mod hashing;
pub mod model;
pub mod tree;

pub use construct::MerkleError;
pub use hashing::{hash_concat, hash_data};
pub use tree::{MerkleTree, MerkleTreeChildren};

verus! {

/// A blob of input data.
pub type Data = Vec<u8>;

/// A digest, in the hash function's own byte order.
pub type Hash = Vec<u8>;

} // verus!
