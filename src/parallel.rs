//! Building balanced Merkle trees in parallel.
use vstd::prelude::*;

use crate::hash::Hasher;
use crate::leaf::{self, ExtractData, NoData};
use crate::tree;
use crate::tree::shape::is_balanced_tree;
use crate::tree::{EmptyTree, MerkleTree};

verus! {

/// A builder of balanced Merkle trees that distributes the work across a
/// pool of work-stealing threads.
#[derive(Clone, Debug, Default)]
pub struct Builder<D, L> {
    hasher: D,
    leaf_data_extractor: L,
}

impl<D, In> Builder<D, NoData<In>> where D: Hasher<In> + Default {
    /// Constructs a `Builder` with a default instance of the hasher,
    /// and `NoData` in place of the leaf data extractor.
    pub fn new() -> (r: Self)
        ensures
            call_ensures(D::default, (), r.hasher()),
            r.extractor() == NoData::<In>::spec_value(),
    {
        Builder { hasher: D::default(), leaf_data_extractor: leaf::no_data() }
    }
}

impl<D, L> Builder<D, L> {
    /// The hasher.
    pub closed spec fn hasher(&self) -> D {
        self.hasher
    }

    /// The leaf data extractor.
    pub closed spec fn extractor(&self) -> L {
        self.leaf_data_extractor
    }
}

impl<D, L> Builder<D, L> where
    D: Hasher<L::Input> + Sync,
    L: ExtractData + Sync,
    L::Input: Send,
    D::HashOutput: Send + Sync,
    L::LeafData: Send + Sync,
 {
    /// Constructs a balanced binary Merkle tree from a sequence of input
    /// values, consuming the builder: every sequence of two or more inputs
    /// is split so that the left part has half of them, rounded up.
    ///
    /// Returns the `EmptyTree` error when the input is empty.
    pub fn build_balanced_from(self, inputs: Vec<L::Input>) -> (r: Result<
        MerkleTree<D::HashOutput, L::LeafData>,
        EmptyTree,
    >)
        ensures
            r is Err <==> inputs@.len() == 0,
            r is Ok ==> is_balanced_tree(
                self.hasher(),
                self.extractor(),
                r->Ok_0.spec_root(),
                inputs@,
            ),
    {
        let builder = tree::parallel::Builder::from_hasher_leaf_data(
            self.hasher,
            self.leaf_data_extractor,
        );
        builder.balanced_tree_from(inputs)
    }
}

} // verus!
