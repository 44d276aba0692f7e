//! Building Merkle trees in parallel.
//!
//! The `Builder` of this module uses rayon, a data parallelism framework,
//! to distribute the building of a Merkle tree across a pool of
//! work-stealing threads. It builds the same trees as the sequential
//! `tree::Builder`: both establish the same shape predicates.
use vstd::prelude::*;

use rayon::iter::{IntoParallelIterator, ParallelIterator};

use super::builder::{next_power_of_two, split_index, BuildResult, EmptyTree};
use super::plumbing::FromNodes;
use super::shape::{
    is_complete_over,
    is_complete_tree,
    is_leaf_of,
    is_parent_of,
    is_pow2,
    is_split_over,
    is_split_tree,
    leaves_made_from,
    lemma_complete_over_leaves,
    lemma_next_pow2_bounds,
    lemma_split_over_leaves,
};
use super::{into_roots, roots_of, MerkleTree};
use crate::hash::Hasher;
use crate::leaf::{ExtractData, NoData};
use crate::tree;

verus! {

/// Relies on `rayon::join`: it runs both closures, potentially in
/// parallel, and returns their results in the order of the closures.
pub assume_specification<A, B, RA, RB>[ rayon::join::<A, B, RA, RB> ](oper_a: A, oper_b: B) -> (r: (
    RA,
    RB,
))
    where
        A: FnOnce() -> RA + Send,
        B: FnOnce() -> RB + Send,
        RA: Send,
        RB: Send,
    requires
        oper_a.requires(()),
        oper_b.requires(()),
    ensures
        oper_a.ensures((), r.0),
        oper_b.ensures((), r.1),
;

/// Relies on rayon's parallel iterator over a `Vec`: `map` followed by
/// `collect` into a `Vec` yields one item for each input, in input order.
/// Each leaf is made by the verified `tree::Builder::make_leaf`.
#[verifier::external_body]
fn make_leaves_in_parallel<D, L>(builder: &tree::Builder<D, L>, inputs: Vec<L::Input>) -> (r: Vec<
    MerkleTree<D::HashOutput, L::LeafData>,
>) where
    D: Hasher<L::Input> + Sync,
    L: ExtractData + Sync,
    L::Input: Send,
    D::HashOutput: Send + Sync,
    L::LeafData: Send + Sync,

    ensures
        r@.len() == inputs@.len(),
        forall|i: int|
            0 <= i < inputs@.len() ==> is_leaf_of(
                builder.hasher(),
                builder.extractor(),
                #[trigger] r@[i].spec_root(),
                inputs@[i],
            ),
{
    inputs.into_par_iter().map(|input| builder.make_leaf(input)).collect()
}

/// A parallel Merkle tree builder utilizing a work-stealing thread pool.
///
/// This is a data-parallel workalike of the sequential `tree::Builder`:
/// leaves are made in parallel across the input sequence, and the work to
/// construct subtrees is recursively subdivided between concurrent tasks.
pub struct Builder<D, L> where D: Hasher<L::Input>, L: ExtractData {
    inner: tree::Builder<D, L>,
}

impl<D, In> Builder<D, NoData<In>> where D: Hasher<In> + Default {
    /// Constructs a `Builder` with a default instance of the hasher,
    /// and `NoData` in place of the leaf data extractor.
    pub fn new() -> (r: Self)
        ensures
            call_ensures(D::default, (), r.hasher()),
            r.extractor() == NoData::<In>::spec_value(),
    {
        Builder { inner: tree::Builder::new() }
    }
}

impl<D, L> Builder<D, L> where D: Hasher<L::Input>, L: ExtractData {
    /// The hasher.
    pub closed spec fn hasher(&self) -> D {
        self.inner.hasher()
    }

    /// The leaf data extractor.
    pub closed spec fn extractor(&self) -> L {
        self.inner.extractor()
    }

    /// Constructs a `Builder` from the given instances of the hasher
    /// and the leaf data extractor.
    pub fn from_hasher_leaf_data(hasher: D, leaf_data_extractor: L) -> (r: Self)
        ensures
            r.hasher() == hasher,
            r.extractor() == leaf_data_extractor,
    {
        Builder { inner: tree::Builder::from_hasher_leaf_data(hasher, leaf_data_extractor) }
    }

    /// Transforms input data into a tree consisting of a single leaf node.
    pub fn make_leaf(&self, input: L::Input) -> (r: MerkleTree<D::HashOutput, L::LeafData>)
        ensures
            is_leaf_of(self.hasher(), self.extractor(), r.spec_root(), input),
    {
        self.inner.make_leaf(input)
    }

    /// Constructs a Merkle tree with the passed subtree as the single
    /// child of the root node.
    pub fn chain_lone_child(&self, child: MerkleTree<D::HashOutput, L::LeafData>) -> (r:
        MerkleTree<D::HashOutput, L::LeafData>)
        ensures
            is_parent_of(self.hasher(), r.spec_root(), seq![child.spec_root()]),
    {
        self.inner.chain_lone_child(child)
    }

    /// Collects Merkle trees as child nodes, in order, for the root of the
    /// returned tree.
    ///
    /// Returns the `EmptyTree` error when there are no trees.
    pub fn collect_children_from(&self, trees: Vec<MerkleTree<D::HashOutput, L::LeafData>>) -> (r:
        BuildResult<D::HashOutput, L::LeafData>)
        ensures
            r is Err <==> trees@.len() == 0,
            r is Ok ==> is_parent_of(self.hasher(), r->Ok_0.spec_root(), roots_of(trees@)),
    {
        let nodes = into_roots(trees);
        self.inner.tree_from_nodes(nodes)
    }
}

impl<D, L> Builder<D, L> where
    D: Hasher<L::Input> + Sync,
    L: ExtractData + Sync,
    L::Input: Send,
    D::HashOutput: Send + Sync,
    L::LeafData: Send + Sync,
 {
    /// Joins the Merkle trees produced by two closures, potentially run in
    /// parallel, to produce a tree with a new root node whose two children
    /// are the roots of the trees returned by the closures.
    pub fn join<LF, RF>(&self, left: LF, right: RF) -> (r: MerkleTree<
        D::HashOutput,
        L::LeafData,
    >) where
        LF: FnOnce() -> MerkleTree<D::HashOutput, L::LeafData> + Send,
        RF: FnOnce() -> MerkleTree<D::HashOutput, L::LeafData> + Send,

        requires
            left.requires(()),
            right.requires(()),
        ensures
            exists|lt: MerkleTree<D::HashOutput, L::LeafData>, rt: MerkleTree<D::HashOutput, L::LeafData>|
                {
                    &&& #[trigger] left.ensures((), lt)
                    &&& #[trigger] right.ensures((), rt)
                    &&& is_parent_of(
                        self.hasher(),
                        r.spec_root(),
                        seq![lt.spec_root(), rt.spec_root()],
                    )
                },
    {
        let (left_tree, right_tree) = rayon::join(left, right);
        self.inner.join(left_tree, right_tree)
    }

    /// Constructs a left-filled binary Merkle tree with all leaves at the
    /// same depth from a sequence of input values: the same tree as
    /// `tree::Builder::complete_tree_from` builds.
    ///
    /// Returns the `EmptyTree` error when the input is empty.
    pub fn complete_tree_from(&self, inputs: Vec<L::Input>) -> (r: BuildResult<
        D::HashOutput,
        L::LeafData,
    >)
        ensures
            r is Err <==> inputs@.len() == 0,
            r is Ok ==> is_complete_tree(
                self.hasher(),
                self.extractor(),
                r->Ok_0.spec_root(),
                inputs@,
            ),
    {
        let len = inputs.len();
        if len == 0 {
            return Err(EmptyTree);
        }
        let ghost all = inputs@;
        let leaves = make_leaves_in_parallel(&self.inner, inputs);
        let perfect_len = next_power_of_two(len as u128);
        proof {
            lemma_next_pow2_bounds(len as nat);
            self.lemma_leaves_are_made_from(leaves@, all);
        }
        let tree = self.reduce_complete(leaves, perfect_len);
        proof {
            lemma_complete_over_leaves(
                self.hasher(),
                self.extractor(),
                tree.spec_root(),
                roots_of(leaves@),
                all,
                perfect_len as nat,
            );
        }
        Ok(tree)
    }

    /// The roots of trees that are each a leaf made from the input at the
    /// same position are leaves made from the inputs.
    proof fn lemma_leaves_are_made_from(
        &self,
        trees: Seq<MerkleTree<D::HashOutput, L::LeafData>>,
        inputs: Seq<L::Input>,
    )
        requires
            trees.len() == inputs.len(),
            forall|i: int|
                0 <= i < inputs.len() ==> is_leaf_of(
                    self.hasher(),
                    self.extractor(),
                    #[trigger] trees[i].spec_root(),
                    inputs[i],
                ),
        ensures
            leaves_made_from(self.hasher(), self.extractor(), roots_of(trees), inputs),
    {
        assert forall|i: int| 0 <= i < inputs.len() implies is_leaf_of(
            self.hasher(),
            self.extractor(),
            #[trigger] roots_of(trees)[i],
            inputs[i],
        ) by {
            assert(roots_of(trees)[i] == trees[i].spec_root());
        }
    }

    /// Reduces trees, in order, to the left-filled tree over them that is a
    /// subgraph of the perfect binary tree with `perfect_len` positions;
    /// a single tree is returned as it is.
    fn reduce_complete(
        &self,
        level_nodes: Vec<MerkleTree<D::HashOutput, L::LeafData>>,
        perfect_len: u128,
    ) -> (r: MerkleTree<D::HashOutput, L::LeafData>)
        requires
            0 < level_nodes@.len() <= perfect_len,
            is_pow2(perfect_len as nat),
        ensures
            is_complete_over(
                self.hasher(),
                r.spec_root(),
                roots_of(level_nodes@),
                perfect_len as nat,
            ),
        decreases perfect_len,
    {
        let mut level_nodes = level_nodes;
        let len = level_nodes.len();
        let left_len = perfect_len / 2;
        if len as u128 <= left_len {
            // No right subtree on this node; it is still a hash node,
            // since this never holds when perfect_len is 1.
            let subtree = self.reduce_complete(level_nodes, left_len);
            let tree = self.chain_lone_child(subtree);
            assert(tree.spec_root().spec_children()[0] == subtree.spec_root());
            tree
        } else if len == 1 {
            let ghost all_nodes = level_nodes@;
            let tree = level_nodes.pop().unwrap();
            assert(roots_of(all_nodes)[0] == tree.spec_root());
            tree
        } else {
            let ghost half: nat = left_len as nat;
            let ghost all_roots = roots_of(level_nodes@);
            let right = level_nodes.split_off(left_len as usize);
            let left = level_nodes;
            let ghost left_roots = roots_of(left@);
            let ghost right_roots = roots_of(right@);
            assert(left_roots =~= all_roots.subrange(0, half as int));
            assert(right_roots =~= all_roots.subrange(half as int, all_roots.len() as int));
            let left_task = move || -> (t: MerkleTree<D::HashOutput, L::LeafData>)
                ensures
                    is_complete_over(self.hasher(), t.spec_root(), left_roots, half),
                { self.reduce_complete(left, left_len) };
            let right_task = move || -> (t: MerkleTree<D::HashOutput, L::LeafData>)
                ensures
                    is_complete_over(self.hasher(), t.spec_root(), right_roots, half),
                { self.reduce_complete(right, left_len) };
            self.join(left_task, right_task)
        }
    }

    /// Constructs a full binary Merkle tree from a sequence of input
    /// values: the same tree as `tree::Builder::full_tree_from` builds.
    ///
    /// Returns the `EmptyTree` error when the input is empty.
    pub fn full_tree_from(&self, inputs: Vec<L::Input>) -> (r: BuildResult<
        D::HashOutput,
        L::LeafData,
    >)
        ensures
            r is Err <==> inputs@.len() == 0,
            r is Ok ==> is_split_tree(
                self.hasher(),
                self.extractor(),
                r->Ok_0.spec_root(),
                inputs@,
                true,
            ),
    {
        if inputs.len() == 0 {
            return Err(EmptyTree);
        }
        let ghost all = inputs@;
        let leaves = make_leaves_in_parallel(&self.inner, inputs);
        proof {
            self.lemma_leaves_are_made_from(leaves@, all);
        }
        let tree = self.reduce_split(leaves, true);
        proof {
            lemma_split_over_leaves(
                self.hasher(),
                self.extractor(),
                tree.spec_root(),
                roots_of(leaves@),
                all,
                true,
            );
        }
        Ok(tree)
    }

    /// Constructs a balanced binary Merkle tree from a sequence of input
    /// values: the same tree as `tree::Builder::balanced_tree_from` builds.
    ///
    /// Returns the `EmptyTree` error when the input is empty.
    pub fn balanced_tree_from(&self, inputs: Vec<L::Input>) -> (r: BuildResult<
        D::HashOutput,
        L::LeafData,
    >)
        ensures
            r is Err <==> inputs@.len() == 0,
            r is Ok ==> is_split_tree(
                self.hasher(),
                self.extractor(),
                r->Ok_0.spec_root(),
                inputs@,
                false,
            ),
    {
        if inputs.len() == 0 {
            return Err(EmptyTree);
        }
        let ghost all = inputs@;
        let leaves = make_leaves_in_parallel(&self.inner, inputs);
        proof {
            self.lemma_leaves_are_made_from(leaves@, all);
        }
        let tree = self.reduce_split(leaves, false);
        proof {
            lemma_split_over_leaves(
                self.hasher(),
                self.extractor(),
                tree.spec_root(),
                roots_of(leaves@),
                all,
                false,
            );
        }
        Ok(tree)
    }

    /// Reduces trees, in order, to the binary tree over them that splits
    /// every sequence of two or more at `split_point(full, _)`: a full tree
    /// when `full` holds, else a balanced one; a single tree is returned
    /// as it is.
    fn reduce_split(&self, level_nodes: Vec<MerkleTree<D::HashOutput, L::LeafData>>, full: bool) -> (r:
        MerkleTree<D::HashOutput, L::LeafData>)
        requires
            level_nodes@.len() > 0,
        ensures
            is_split_over(self.hasher(), r.spec_root(), roots_of(level_nodes@), full),
        decreases level_nodes@.len(),
    {
        let mut level_nodes = level_nodes;
        let len = level_nodes.len();
        if len == 1 {
            let ghost all_nodes = level_nodes@;
            let tree = level_nodes.pop().unwrap();
            assert(roots_of(all_nodes)[0] == tree.spec_root());
            tree
        } else {
            let left_len = split_index(full, len);
            let ghost k: int = left_len as int;
            let ghost all_roots = roots_of(level_nodes@);
            let right = level_nodes.split_off(left_len);
            let left = level_nodes;
            let ghost left_roots = roots_of(left@);
            let ghost right_roots = roots_of(right@);
            assert(left_roots =~= all_roots.subrange(0, k));
            assert(right_roots =~= all_roots.subrange(k, all_roots.len() as int));
            let left_task = move || -> (t: MerkleTree<D::HashOutput, L::LeafData>)
                ensures
                    is_split_over(self.hasher(), t.spec_root(), left_roots, full),
                { self.reduce_split(left, full) };
            let right_task = move || -> (t: MerkleTree<D::HashOutput, L::LeafData>)
                ensures
                    is_split_over(self.hasher(), t.spec_root(), right_roots, full),
                { self.reduce_split(right, full) };
            self.join(left_task, right_task)
        }
    }
}

} // verus!
