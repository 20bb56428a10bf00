//! A binary Merkle hash tree over an ordered sequence of byte strings.
//!
//! The tree is an ephemeral computation: `merkle_root` reduces the hashed
//! leaves level by level to a single root digest, `merkle_proof` records the
//! sibling digests along the path from one leaf to the root, and
//! `verify_proof` replays that path from the leaf's content and compares the
//! result against a trusted root. An odd node out at any level is paired with
//! itself; this self-pairing rule is shared by all three operations.

pub mod digest;
pub mod laws;
pub mod tree;

pub use digest::hash_leaf;
pub use tree::MerkleError;
pub use tree::MerkleProof;
pub use tree::MerkleTree;
