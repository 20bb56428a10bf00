//! The fixed hash of the library: lowercase hexadecimal text of a
//! Blake2b-512 digest. Every level of the tree is built from it.

use vstd::prelude::*;

verus! {

/// The digest of a string under the library's hash: the 128 lowercase hex
/// characters encoding the Blake2b-512 digest of the string's UTF-8 bytes.
/// The function is left abstract; the trusted wrapper below ties it to the
/// real hash, and every contract of the library speaks of it by this name.
pub uninterp spec fn digest_of(s: Seq<char>) -> Seq<char>;

/// Relies on blake2's `Blake2b512` (repeated `Digest::update` calls hash the
/// concatenation of their inputs, and the digest is a function of those bytes
/// alone) and on `hex::encode` (two lowercase hex digits per byte, so 128
/// characters for the 64-byte digest).
#[verifier::external_body]
pub(crate) fn hash_concat(a: &str, b: &str) -> (r: String)
    ensures
        r@ == digest_of(a@ + b@),
        r@.len() == 128,
{
    let mut hasher = <blake2::Blake2b512 as blake2::Digest>::new();
    blake2::Digest::update(&mut hasher, a.as_bytes());
    blake2::Digest::update(&mut hasher, b.as_bytes());
    hex::encode(blake2::Digest::finalize(hasher))
}

/// Hashes one leaf's content to its level-zero digest.
pub fn hash_leaf(leaf: &str) -> (r: String)
    ensures
        r@ == digest_of(leaf@),
        r@.len() == 128,
{
    let r = hash_concat(leaf, "");
    proof {
        reveal_strlit("");
        assert(leaf@ + ""@ =~= leaf@);
    }
    r
}

} // verus!
