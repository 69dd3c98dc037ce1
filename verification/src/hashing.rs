//! The two hashes of the tree: the digest of a blob, and the digest of two
//! concatenated digests.

use vstd::prelude::*;
use sha2::Digest;
use crate::Data;

verus! {

/// Number of bytes in a SHA-256 digest.
pub const DIGEST_LEN: usize = 32;

/// The longest message, in bytes, that SHA-256 takes: its length in bits has
/// to fit in 64 bits.
pub const MAX_MESSAGE_LEN: u64 = 0x1fff_ffff_ffff_ffff;

/// `data` is short enough to be hashed.
pub open spec fn hashable(data: Seq<u8>) -> bool {
    data.len() <= MAX_MESSAGE_LEN
}

/// The SHA-256 digest of `data`, as the `sha2` crate computes it.
///
/// The function is left uninterpreted: nothing here says which 32 bytes come
/// out, only that they depend on `data` alone.
pub uninterp spec fn sha256(data: Seq<u8>) -> [u8; 32];

/// The digest of `data` as a byte sequence.
pub open spec fn digest_of(data: Seq<u8>) -> Seq<u8> {
    sha256(data)@
}

/// The digest that an inner node carries above children with digests
/// `left` and `right`.
pub open spec fn node_digest(left: Seq<u8>, right: Seq<u8>) -> Seq<u8> {
    digest_of(left + right)
}

/// Calls `sha2::Sha256::digest` on `data` and hands the output over as a plain
/// array.
///
/// Trusted: the body is not verified. The contract claims only that the call
/// returns, and that what it returns is a function of the bytes of `data`,
/// named `sha256`; that the output has 32 bytes is the output type of
/// `Sha256` in the `sha2` crate. Longer messages are left out because `sha2`
/// computes the length in bits in a `u64`.
#[verifier::external_body]
fn sha256_digest(data: &[u8]) -> (digest: [u8; 32])
    requires
        hashable(data@),
    ensures
        digest == sha256(data@),
{
    sha2::Sha256::digest(data).into()
}

/// Every digest is `DIGEST_LEN` bytes long.
pub proof fn lemma_digest_len(data: Seq<u8>)
    ensures
        digest_of(data).len() == DIGEST_LEN,
{
    broadcast use vstd::array::group_array_axioms;
}

/// Hashes one blob.
pub fn hash_data(data: &Data) -> (hash: crate::Hash)
    requires
        hashable(data@),
    ensures
        hash@ == digest_of(data@),
        hash@.len() == DIGEST_LEN,
{
    let digest = sha256_digest(data.as_slice());
    let mut hash: Vec<u8> = Vec::with_capacity(DIGEST_LEN);
    let mut i: usize = 0;
    while i < DIGEST_LEN
        invariant
            i <= DIGEST_LEN,
            digest@.len() == DIGEST_LEN,
            hash@ == digest@.subrange(0, i as int),
        decreases DIGEST_LEN - i,
    {
        hash.push(digest[i]);
        i += 1;
    }
    hash
}

/// Hashes the concatenation of two digests, `h1` before `h2`.
pub fn hash_concat(h1: &crate::Hash, h2: &crate::Hash) -> (hash: crate::Hash)
    requires
        hashable(h1@ + h2@),
    ensures
        hash@ == node_digest(h1@, h2@),
        hash@.len() == DIGEST_LEN,
{
    let mut joined: Vec<u8> = Vec::new();
    let mut i: usize = 0;
    while i < h1.len()
        invariant
            i <= h1.len(),
            joined@ == h1@.subrange(0, i as int),
        decreases h1.len() - i,
    {
        joined.push(h1[i]);
        i += 1;
    }
    let mut j: usize = 0;
    while j < h2.len()
        invariant
            j <= h2.len(),
            joined@ == h1@ + h2@.subrange(0, j as int),
        decreases h2.len() - j,
    {
        joined.push(h2[j]);
        j += 1;
    }
    assert(h2@.subrange(0, h2.len() as int) == h2@);
    hash_data(&joined)
}

} // verus!
