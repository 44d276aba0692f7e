//! A trait shared by the builders for making a tree out of nodes.
use vstd::prelude::*;

use super::builder::BuildResult;
use super::Node;

verus! {

/// Makes a tree whose root has the given nodes as its children.
pub trait FromNodes {
    /// The hash values of the nodes.
    type HashOutput;

    /// The leaf data of the nodes.
    type LeafData;

    /// Makes a hash node over `nodes`, in order, as the root of a new tree;
    /// fails with `EmptyTree` exactly when there are no nodes.
    fn tree_from_nodes(&self, nodes: Vec<Node<Self::HashOutput, Self::LeafData>>) -> (r: BuildResult<
        Self::HashOutput,
        Self::LeafData,
    >)
        ensures
            r is Err <==> nodes@.len() == 0,
            r is Ok ==> r->Ok_0.spec_root() is Hash && r->Ok_0.spec_root().spec_children()
                == nodes@,
    ;
}

} // verus!
