//! The sequential facility for constructing Merkle trees.
use vstd::prelude::*;

use super::plumbing::FromNodes;
use super::shape::{
    is_complete_subtree,
    is_complete_tree,
    is_leaf_of,
    is_parent_of,
    is_split_tree,
    lemma_next_pow2_bounds,
    is_pow2,
    lemma_split_point_bounds,
    next_pow2,
    split_point,
};
use super::{into_roots, reversed, roots_of, MerkleTree, Node};
use crate::hash::Hasher;
use crate::leaf::{self, ExtractData, NoData};

verus! {

/// The result type of the operations that build a tree.
pub type BuildResult<H, T> = Result<MerkleTree<H, T>, EmptyTree>;

/// The error value returned when a tree was attempted to be constructed
/// from empty input.
///
/// An empty tree is not considered to be a valid Merkle tree.
#[derive(Debug, Clone, Copy, PartialEq, Eq, Structural)]
pub struct EmptyTree;

impl EmptyTree {
    /// A short description of the error.
    pub fn description(&self) -> (r: &'static str)
        ensures
            r@ == "empty Merkle tree"@,
    {
        "empty Merkle tree"
    }

    /// The message that describes the error.
    pub fn to_string(&self) -> (r: String)
        ensures
            r@ == "attempted to create an empty Merkle tree"@,
    {
        "attempted to create an empty Merkle tree".to_owned()
    }
}

/// The least power of two that is not less than `n`.
pub(crate) fn next_power_of_two(n: u128) -> (r: u128)
    requires
        1 <= n <= u64::MAX,
    ensures
        r == next_pow2(n as nat),
    decreases n,
{
    proof {
        lemma_next_pow2_bounds(n as nat);
    }
    if n <= 1 {
        1
    } else {
        let half = n - n / 2;
        proof {
            lemma_next_pow2_bounds(half as nat);
            assert(half as nat == ((n + 1) / 2) as nat);
        }
        2 * next_power_of_two(half)
    }
}

/// Where a sequence of `len` inputs is split: see `split_point`.
pub(crate) fn split_index(full: bool, len: usize) -> (r: usize)
    requires
        len >= 2,
    ensures
        r == split_point(full, len as nat),
        0 < r < len,
{
    proof {
        lemma_split_point_bounds(full, len as nat);
    }
    let half = len - len / 2;
    assert(half as nat == ((len + 1) / 2) as nat);
    if full {
        next_power_of_two(half as u128) as usize
    } else {
        half
    }
}

/// The facility for constructing Merkle trees.
///
/// There are two ways of construction: incremental, by pushing leaves or
/// previously built subtrees and finishing the builder, or by composing
/// trees with `join`, `chain_lone_child` and `collect_children_from`;
/// and in bulk, by building a balanced, full or complete binary tree out
/// of a sequence of input values.
///
/// `Builder` has two type parameters: the hasher implementing trait
/// `hash::Hasher`, and the leaf data extractor implementing trait
/// `leaf::ExtractData`.
pub struct Builder<D, L> where D: Hasher<L::Input>, L: ExtractData {
    hasher: D,
    leaf_data_extractor: L,
    nodes: Vec<Node<D::HashOutput, L::LeafData>>,
}

impl<D, In> Builder<D, NoData<In>> where D: Hasher<In> + Default {
    /// Constructs a `Builder` with a default instance of the hasher,
    /// and `NoData` in place of the leaf data extractor.
    /// The constructed tree will contain only hash values in its leaf nodes.
    pub fn new() -> (r: Self)
        ensures
            call_ensures(D::default, (), r.hasher()),
            r.extractor() == NoData::<In>::spec_value(),
            r.pending().len() == 0,
    {
        Self::from_hasher_leaf_data(D::default(), leaf::no_data())
    }
}

impl<D, L> Builder<D, L> where D: Hasher<L::Input>, L: ExtractData {
    /// The hasher.
    pub closed spec fn hasher(&self) -> D {
        self.hasher
    }

    /// The leaf data extractor.
    pub closed spec fn extractor(&self) -> L {
        self.leaf_data_extractor
    }

    /// The nodes pushed so far and not yet made into a tree, in order.
    pub closed spec fn pending(&self) -> Seq<Node<D::HashOutput, L::LeafData>> {
        self.nodes@
    }

    /// Constructs a `Builder` from the given instances of the hasher
    /// and the leaf data extractor.
    pub fn from_hasher_leaf_data(hasher: D, leaf_data_extractor: L) -> (r: Self)
        ensures
            r.hasher() == hasher,
            r.extractor() == leaf_data_extractor,
            r.pending().len() == 0,
    {
        Builder { hasher, leaf_data_extractor, nodes: Vec::with_capacity(2) }
    }

    /// Transforms input data into a tree consisting of a single leaf node.
    ///
    /// The hash value of the leaf is calculated by the hasher, and the leaf
    /// data value is obtained by the leaf data extractor.
    pub fn make_leaf(&self, input: L::Input) -> (r: MerkleTree<D::HashOutput, L::LeafData>)
        ensures
            is_leaf_of(self.hasher(), self.extractor(), r.spec_root(), input),
    {
        let hash = self.hasher.hash_input(&input);
        let data = self.leaf_data_extractor.extract_data(input);
        MerkleTree::from_root(Node::new_leaf(hash, data))
    }

    fn make_tree(&self, children: Vec<Node<D::HashOutput, L::LeafData>>) -> (r: BuildResult<
        D::HashOutput,
        L::LeafData,
    >)
        ensures
            r is Err <==> children@.len() == 0,
            r is Ok ==> is_parent_of(self.hasher(), r->Ok_0.spec_root(), children@),
    {
        if children.len() == 0 {
            return Err(EmptyTree);
        }
        Ok(self.make_tree_unchecked(children))
    }

    fn make_tree_unchecked(&self, children: Vec<Node<D::HashOutput, L::LeafData>>) -> (r:
        MerkleTree<D::HashOutput, L::LeafData>)
        requires
            children@.len() > 0,
        ensures
            is_parent_of(self.hasher(), r.spec_root(), children@),
    {
        let hash = self.hasher.hash_nodes(children.as_slice());
        MerkleTree::from_root(Node::new_hash(hash, children))
    }

    /// Joins the two given subtrees to produce a tree with a new root node,
    /// with the roots of the passed trees as its two children.
    pub fn join(
        &self,
        left: MerkleTree<D::HashOutput, L::LeafData>,
        right: MerkleTree<D::HashOutput, L::LeafData>,
    ) -> (r: MerkleTree<D::HashOutput, L::LeafData>)
        ensures
            is_parent_of(self.hasher(), r.spec_root(), seq![left.spec_root(), right.spec_root()]),
    {
        let mut children = Vec::with_capacity(2);
        children.push(left.into_root());
        children.push(right.into_root());
        assert(children@ =~= seq![left.spec_root(), right.spec_root()]);
        self.make_tree_unchecked(children)
    }

    /// Constructs a Merkle tree with the passed subtree as the single
    /// child of the root node.
    ///
    /// This deals with the unpaired rightmost node in a level of the tree
    /// under construction, when equal path height to all leaf nodes needs
    /// to be maintained.
    pub fn chain_lone_child(&self, child: MerkleTree<D::HashOutput, L::LeafData>) -> (r:
        MerkleTree<D::HashOutput, L::LeafData>)
        ensures
            is_parent_of(self.hasher(), r.spec_root(), seq![child.spec_root()]),
    {
        let mut children = Vec::with_capacity(1);
        children.push(child.into_root());
        assert(children@ =~= seq![child.spec_root()]);
        self.make_tree_unchecked(children)
    }

    /// Collects Merkle trees as child nodes, in order, for the root of the
    /// returned tree.
    ///
    /// Returns the `EmptyTree` error when there are no trees.
    pub fn collect_children_from(&self, trees: Vec<MerkleTree<D::HashOutput, L::LeafData>>) -> (r:
        BuildResult<D::HashOutput, L::LeafData>)
        ensures
            r is Err <==> trees@.len() == 0,
            r is Ok ==> is_parent_of(self.hasher(), r->Ok_0.spec_root(), roots_of(trees@)),
    {
        let children = into_roots(trees);
        self.make_tree(children)
    }

    /// Appends a leaf made from `input` to the pending nodes.
    pub fn push_leaf(&mut self, input: L::Input)
        ensures
            final(self).hasher() == old(self).hasher(),
            final(self).extractor() == old(self).extractor(),
            final(self).pending().len() == old(self).pending().len() + 1,
            final(self).pending().drop_last() == old(self).pending(),
            is_leaf_of(old(self).hasher(), old(self).extractor(), final(self).pending().last(), input),
    {
        let leaf = self.make_leaf(input);
        self.nodes.push(leaf.into_root());
        assert(self.nodes@.drop_last() =~= old(self).nodes@);
    }

    /// Appends the root of a previously built tree to the pending nodes,
    /// as it is.
    pub fn push_tree(&mut self, tree: MerkleTree<D::HashOutput, L::LeafData>)
        ensures
            final(self).hasher() == old(self).hasher(),
            final(self).extractor() == old(self).extractor(),
            final(self).pending() == old(self).pending().push(tree.spec_root()),
    {
        self.nodes.push(tree.into_root());
    }

    /// Appends leaves made from `inputs`, in order, to the pending nodes.
    pub fn extend_leaves(&mut self, inputs: Vec<L::Input>)
        ensures
            final(self).hasher() == old(self).hasher(),
            final(self).extractor() == old(self).extractor(),
            final(self).pending().len() == old(self).pending().len() + inputs@.len(),
            final(self).pending().subrange(0, old(self).pending().len() as int) == old(
                self,
            ).pending(),
            forall|i: int|
                0 <= i < inputs@.len() ==> is_leaf_of(
                    old(self).hasher(),
                    old(self).extractor(),
                    #[trigger] final(self).pending()[old(self).pending().len() + i],
                    inputs@[i],
                ),
    {
        let ghost start = self.nodes@.len();
        let mut rest = reversed(inputs);
        let ghost orig = rest@.reverse();
        proof {
            assert(orig =~= inputs@);
        }
        let total = rest.len();
        self.nodes.reserve(total);
        let mut done: usize = 0;
        while rest.len() > 0
            invariant
                orig.len() == total,
                self.hasher == old(self).hasher,
                self.leaf_data_extractor == old(self).leaf_data_extractor,
                done + rest@.len() == orig.len(),
                rest@ == orig.subrange(done as int, orig.len() as int).reverse(),
                self.nodes@.len() == start + done,
                self.nodes@.subrange(0, start as int) == old(self).nodes@,
                forall|i: int|
                    0 <= i < done ==> is_leaf_of(
                        self.hasher,
                        self.leaf_data_extractor,
                        #[trigger] self.nodes@[start + i],
                        orig[i],
                    ),
            decreases rest@.len(),
        {
            let input = rest.pop().unwrap();
            assert(input == orig[done as int]);
            let leaf = self.make_leaf(input);
            let ghost before = self.nodes@;
            self.nodes.push(leaf.into_root());
            assert(self.nodes@.subrange(0, start as int) =~= before.subrange(0, start as int));
            assert(rest@ =~= orig.subrange(done + 1, orig.len() as int).reverse());
            done = done + 1;
        }
    }

    /// Makes a tree out of the pending nodes, consuming the builder.
    ///
    /// A single pending node becomes the root as it is; two or more become
    /// the children of a new hash node. Returns the `EmptyTree` error when
    /// no node is pending.
    pub fn finish(self) -> (r: BuildResult<D::HashOutput, L::LeafData>)
        ensures
            r is Err <==> self.pending().len() == 0,
            self.pending().len() == 1 ==> r is Ok && r->Ok_0.spec_root() == self.pending()[0],
            self.pending().len() >= 2 ==> r is Ok && is_parent_of(
                self.hasher(),
                r->Ok_0.spec_root(),
                self.pending(),
            ),
    {
        let count = self.nodes.len();
        if count == 0 {
            Err(EmptyTree)
        } else if count == 1 {
            let mut nodes = self.nodes;
            let root = nodes.pop().unwrap();
            Ok(MerkleTree::from_root(root))
        } else {
            let hash = self.hasher.hash_nodes(self.nodes.as_slice());
            Ok(MerkleTree::from_root(Node::new_hash(hash, self.nodes)))
        }
    }

    /// Constructs a left-filled binary Merkle tree with all leaves at the
    /// same depth from a sequence of input values.
    ///
    /// The left subtree of the root node is a perfect binary tree, all leaf
    /// nodes are on the same level, and nodes on every level are packed to
    /// the left: the rightmost hash node on any level under the root may
    /// have only a single child. This layout is a subgraph of the complete
    /// binary tree with the same leaf nodes at the deepest level.
    ///
    /// Returns the `EmptyTree` error when the input sequence is empty.
    /// The builder must have no pending nodes.
    pub fn complete_tree_from(&self, inputs: Vec<L::Input>) -> (r: BuildResult<
        D::HashOutput,
        L::LeafData,
    >)
        requires
            self.pending().len() == 0,
        ensures
            r is Err <==> inputs@.len() == 0,
            r is Ok ==> is_complete_tree(
                self.hasher(),
                self.extractor(),
                r->Ok_0.spec_root(),
                inputs@,
            ),
    {
        let len = inputs.len();
        if len == 0 {
            return Err(EmptyTree);
        }
        let perfect_len = next_power_of_two(len as u128);
        proof {
            lemma_next_pow2_bounds(len as nat);
        }
        Ok(self.extract_complete_tree(inputs, perfect_len))
    }

    fn extract_complete_tree(&self, inputs: Vec<L::Input>, perfect_len: u128) -> (r: MerkleTree<
        D::HashOutput,
        L::LeafData,
    >)
        requires
            0 < inputs@.len() <= perfect_len,
            is_pow2(perfect_len as nat),
        ensures
            is_complete_subtree(
                self.hasher(),
                self.extractor(),
                r.spec_root(),
                inputs@,
                perfect_len as nat,
            ),
        decreases perfect_len,
    {
        let mut inputs = inputs;
        let len = inputs.len();
        let left_len = perfect_len / 2;
        if len as u128 <= left_len {
            // No right subtree on this node; it is still a hash node,
            // since this never holds when perfect_len is 1.
            let left_tree = self.extract_complete_tree(inputs, left_len);
            let tree = self.chain_lone_child(left_tree);
            assert(tree.spec_root().spec_children()[0] == left_tree.spec_root());
            tree
        } else if len == 1 {
            let input = inputs.pop().unwrap();
            self.make_leaf(input)
        } else {
            let right = inputs.split_off(left_len as usize);
            let left_tree = self.extract_complete_tree(inputs, left_len);
            let right_tree = self.extract_complete_tree(right, left_len);
            let tree = self.join(left_tree, right_tree);
            assert(tree.spec_root().spec_children()[0] == left_tree.spec_root());
            assert(tree.spec_root().spec_children()[1] == right_tree.spec_root());
            tree
        }
    }

    /// Constructs a balanced binary Merkle tree from a sequence of input
    /// values: every sequence of two or more inputs is split so that the
    /// left part has half of them, rounded up.
    ///
    /// Returns the `EmptyTree` error when the input sequence is empty.
    /// The builder must have no pending nodes.
    pub fn balanced_tree_from(&self, inputs: Vec<L::Input>) -> (r: BuildResult<
        D::HashOutput,
        L::LeafData,
    >)
        requires
            self.pending().len() == 0,
        ensures
            r is Err <==> inputs@.len() == 0,
            r is Ok ==> is_split_tree(
                self.hasher(),
                self.extractor(),
                r->Ok_0.spec_root(),
                inputs@,
                false,
            ),
    {
        if inputs.len() == 0 {
            return Err(EmptyTree);
        }
        Ok(self.extract_split_tree(inputs, false))
    }

    /// Constructs a full binary Merkle tree from a sequence of input
    /// values: the left subtree of every hash node is a perfect binary
    /// tree, its leaf count being half of the inputs rounded up to a power
    /// of two.
    ///
    /// Returns the `EmptyTree` error when the input sequence is empty.
    /// The builder must have no pending nodes.
    pub fn full_tree_from(&self, inputs: Vec<L::Input>) -> (r: BuildResult<
        D::HashOutput,
        L::LeafData,
    >)
        requires
            self.pending().len() == 0,
        ensures
            r is Err <==> inputs@.len() == 0,
            r is Ok ==> is_split_tree(
                self.hasher(),
                self.extractor(),
                r->Ok_0.spec_root(),
                inputs@,
                true,
            ),
    {
        if inputs.len() == 0 {
            return Err(EmptyTree);
        }
        Ok(self.extract_split_tree(inputs, true))
    }

    fn extract_split_tree(&self, inputs: Vec<L::Input>, full: bool) -> (r: MerkleTree<
        D::HashOutput,
        L::LeafData,
    >)
        requires
            inputs@.len() > 0,
        ensures
            is_split_tree(self.hasher(), self.extractor(), r.spec_root(), inputs@, full),
        decreases inputs@.len(),
    {
        let mut inputs = inputs;
        let len = inputs.len();
        if len == 1 {
            let input = inputs.pop().unwrap();
            self.make_leaf(input)
        } else {
            let left_len = split_index(full, len);
            let right = inputs.split_off(left_len);
            let left_tree = self.extract_split_tree(inputs, full);
            let right_tree = self.extract_split_tree(right, full);
            let tree = self.join(left_tree, right_tree);
            assert(tree.spec_root().spec_children()[0] == left_tree.spec_root());
            assert(tree.spec_root().spec_children()[1] == right_tree.spec_root());
            tree
        }
    }
}

impl<D, L> FromNodes for Builder<D, L> where D: Hasher<L::Input>, L: ExtractData {
    type HashOutput = D::HashOutput;

    type LeafData = L::LeafData;

    fn tree_from_nodes(&self, nodes: Vec<Node<D::HashOutput, L::LeafData>>) -> (r: BuildResult<
        D::HashOutput,
        L::LeafData,
    >)
        ensures
            r is Ok ==> is_parent_of(self.hasher(), r->Ok_0.spec_root(), nodes@),
    {
        self.make_tree(nodes)
    }
}

} // verus!
