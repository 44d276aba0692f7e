//! The abstraction of the hash algorithm for Merkle trees.
use vstd::prelude::*;

use crate::tree::Node;

verus! {

/// What a node hasher sees of a sequence of child nodes: for each child,
/// whether it is a leaf, and the view of its hash value.
///
/// Leaf data never figures here, so the hash of a node cannot depend on it.
pub open spec fn child_keys<H: View, T>(children: Seq<Node<H, T>>) -> Seq<(bool, H::V)> {
    children.map_values(|c: Node<H, T>| (c is Leaf, c.spec_hash()@))
}

/// An algorithm to compute a hash of a sequence of child nodes.
///
/// Implementations are agnostic to the hash function and may choose
/// different ways of calculating the hash of child nodes for their parent.
/// The result is a function of the children's hash values and of whether
/// each child is a leaf or a hash node.
pub trait NodeHasher {
    /// The output of the hash function.
    type HashOutput: View;

    /// The hash of a parent node over the given children, as seen through
    /// [`child_keys`]. Every verified implementation defines it; the
    /// default, left to implementations outside verified code, is
    /// unspecified.
    closed spec fn spec_hash_nodes(
        &self,
        children: Seq<(bool, <Self::HashOutput as View>::V)>,
    ) -> <Self::HashOutput as View>::V {
        arbitrary()
    }

    /// Hash a sequence of child nodes to produce the parent hash value.
    ///
    /// The leaf data type of the nodes is arbitrary and is ignored.
    fn hash_nodes<T>(&self, children: &[Node<Self::HashOutput, T>]) -> (r: Self::HashOutput)
        ensures
            r@ == self.spec_hash_nodes(child_keys(children@)),
    ;
}

/// A hash algorithm implementation for a Merkle tree.
///
/// Besides hashing child nodes, a `Hasher` hashes the elements of the
/// input data to obtain the hash values of leaf nodes.
pub trait Hasher<In>: NodeHasher {
    /// The hash of a leaf node made from `input`. Every verified
    /// implementation defines it; the default, left to implementations
    /// outside verified code, is unspecified.
    closed spec fn spec_hash_input(&self, input: In) -> <Self::HashOutput as View>::V {
        arbitrary()
    }

    /// Hash an element of the input data.
    fn hash_input(&self, input: &In) -> (r: Self::HashOutput)
        ensures
            r@ == self.spec_hash_input(*input),
    ;
}

} // verus!
