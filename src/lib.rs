//! A generic, minimalist Merkle tree.
//!
//! The tree is generic over the hashed input data, the hash function, and
//! what gets stored in leaf nodes besides their hash. Trees are built
//! incrementally from leaves and subtrees, or in bulk from a sequence of
//! inputs in one of three binary shapes (balanced, full and complete),
//! sequentially or on a work-stealing thread pool.
use vstd::prelude::*;

pub mod hash;
pub mod leaf;
pub mod parallel;
pub mod tree;

pub use tree::MerkleTree;

verus! {

} // verus!
