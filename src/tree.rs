//! The data model and construction facilities for Merkle trees.
//!
//! The data of complete, immutable Merkle trees are represented
//! by types `MerkleTree`, `Node`, `LeafNode`, and `HashNode`.
//! Each of these types is comparable for equality with values of the same
//! type, by hash value alone: practical uniqueness of the hash values in a
//! Merkle tree is relied upon, and leaf data never figure in equality
//! comparisons or in hashing.
use vstd::prelude::*;
use vstd::std_specs::cmp::PartialEqSpec;

pub mod builder;
pub mod parallel;
pub mod plumbing;
pub mod shape;
pub mod testmocks;

pub use self::builder::{BuildResult, Builder, EmptyTree};

verus! {

/// A complete Merkle tree.
///
/// A valid tree either has a single leaf node as the root node,
/// or has a hierarchy of nodes terminating with leaf nodes and
/// with hash-only nodes at levels above leaves.
///
/// `MerkleTree` hierarchies are immutable: nodes can only be borrowed
/// from a tree, never replaced or modified in place.
#[derive(Debug)]
pub struct MerkleTree<H, T> {
    root: Node<H, T>,
}

/// A Merkle tree node, which can be either a leaf node or a hash node.
///
/// `Node` values can be borrowed from under a `MerkleTree`.
#[derive(Debug)]
pub enum Node<H, T> {
    /// A leaf node value.
    Leaf(LeafNode<H, T>),
    /// A hash node value with child nodes.
    Hash(HashNode<H, T>),
}

/// A value representing a leaf node.
///
/// `LeafNode` values can be obtained by destructuring `Node`.
#[derive(Debug)]
pub struct LeafNode<H, T> {
    hash: H,
    data: T,
}

/// A value representing a node containing the hash of its child nodes.
///
/// `HashNode` values can be obtained by destructuring `Node`.
/// A hash node always has at least one child.
#[derive(Debug)]
pub struct HashNode<H, T> {
    hash: H,
    children: Vec<Node<H, T>>,
}

impl<H, T> MerkleTree<H, T> {
    /// The root node of the tree.
    pub closed spec fn spec_root(self) -> Node<H, T> {
        self.root
    }

    pub(crate) fn from_root(root: Node<H, T>) -> (r: Self)
        ensures
            r.spec_root() == root,
    {
        MerkleTree { root }
    }

    pub(crate) fn into_root(self) -> (r: Node<H, T>)
        ensures
            r == self.spec_root(),
    {
        self.root
    }

    /// Returns the root node of the tree as a borrowed reference.
    pub fn root(&self) -> (r: &Node<H, T>)
        ensures
            *r == self.spec_root(),
    {
        &self.root
    }
}

impl<H, T> Node<H, T> {
    /// The hash value of the node.
    pub open spec fn spec_hash(self) -> H {
        match self {
            Node::Leaf(l) => l.spec_hash(),
            Node::Hash(h) => h.spec_hash(),
        }
    }

    /// The child nodes of a hash node, in order; empty for a leaf.
    pub open spec fn spec_children(self) -> Seq<Node<H, T>> {
        match self {
            Node::Leaf(_) => Seq::empty(),
            Node::Hash(h) => h.spec_children(),
        }
    }

    /// The leaf data of a leaf node.
    pub open spec fn spec_data(self) -> T
        recommends
            self is Leaf,
    {
        match self {
            Node::Leaf(l) => l.spec_data(),
            Node::Hash(_) => arbitrary(),
        }
    }

    pub(crate) fn new_leaf(hash: H, data: T) -> (r: Self)
        ensures
            r is Leaf,
            r.spec_hash() == hash,
            r.spec_data() == data,
    {
        Node::Leaf(LeafNode { hash, data })
    }

    pub(crate) fn new_hash(hash: H, children: Vec<Node<H, T>>) -> (r: Self)
        requires
            children@.len() > 0,
        ensures
            r is Hash,
            r.spec_hash() == hash,
            r.spec_children() == children@,
    {
        Node::Hash(HashNode { hash, children })
    }

    /// Returns a reference to the hash value of the tree node.
    pub fn hash(&self) -> (r: &H)
        ensures
            *r == self.spec_hash(),
    {
        match self {
            Node::Leaf(ln) => &ln.hash,
            Node::Hash(hn) => &hn.hash,
        }
    }
}

impl<T> Node<Vec<u8>, T> {
    /// Returns the hash value of the node as a byte slice.
    pub fn hash_bytes(&self) -> (r: &[u8])
        ensures
            r@ == self.spec_hash()@,
    {
        self.hash().as_slice()
    }
}

impl<H, T> LeafNode<H, T> {
    /// The hash value of the leaf.
    pub closed spec fn spec_hash(self) -> H {
        self.hash
    }

    /// The leaf data.
    pub closed spec fn spec_data(self) -> T {
        self.data
    }

    /// Returns a reference to the hash value of the node.
    pub fn hash(&self) -> (r: &H)
        ensures
            *r == self.spec_hash(),
    {
        &self.hash
    }

    /// Returns a reference to the leaf data value of the node.
    pub fn data(&self) -> (r: &T)
        ensures
            *r == self.spec_data(),
    {
        &self.data
    }
}

impl<T> LeafNode<Vec<u8>, T> {
    /// Returns the hash value of the node as a byte slice.
    pub fn hash_bytes(&self) -> (r: &[u8])
        ensures
            r@ == self.spec_hash()@,
    {
        self.hash.as_slice()
    }
}

impl<H, T> HashNode<H, T> {
    #[verifier::type_invariant]
    spec fn has_children(self) -> bool {
        self.children@.len() > 0
    }

    /// The hash value of the node.
    pub closed spec fn spec_hash(self) -> H {
        self.hash
    }

    /// The child nodes, in order.
    pub closed spec fn spec_children(self) -> Seq<Node<H, T>> {
        self.children@
    }

    /// Returns a reference to the hash value of the node.
    pub fn hash(&self) -> (r: &H)
        ensures
            *r == self.spec_hash(),
    {
        &self.hash
    }

    /// The number of child nodes, which is never zero.
    pub fn child_count(&self) -> (r: usize)
        ensures
            r == self.spec_children().len(),
            r > 0,
    {
        proof {
            use_type_invariant(self);
        }
        self.children.len()
    }

    /// Borrows a child node value at the specified index.
    ///
    /// The index must be less than the number of children.
    pub fn child_at(&self, index: usize) -> (r: &Node<H, T>)
        requires
            index < self.spec_children().len(),
        ensures
            *r == self.spec_children()[index as int],
    {
        &self.children[index]
    }

    /// Returns an iterator over the child nodes.
    pub fn children(&self) -> (r: Nodes<'_, H, T>)
        ensures
            r.remaining() == self.spec_children(),
    {
        proof {
            use_type_invariant(self);
        }
        Nodes { nodes: self.children.as_slice(), front: 0, back: self.children.len() }
    }
}

impl<T> HashNode<Vec<u8>, T> {
    /// Returns the hash value of the node as a byte slice.
    pub fn hash_bytes(&self) -> (r: &[u8])
        ensures
            r@ == self.spec_hash()@,
    {
        self.hash.as_slice()
    }
}

/// An iterator over borrowed values of tree nodes, usually being the
/// child nodes of a single hash node. It walks from both ends.
#[derive(Debug)]
pub struct Nodes<'a, H, T> {
    nodes: &'a [Node<H, T>],
    front: usize,
    back: usize,
}

impl<'a, H, T> Nodes<'a, H, T> {
    #[verifier::type_invariant]
    spec fn in_bounds(self) -> bool {
        self.front <= self.back <= self.nodes@.len()
    }

    /// The nodes not yet handed out, in order.
    pub closed spec fn remaining(self) -> Seq<Node<H, T>> {
        self.nodes@.subrange(self.front as int, self.back as int)
    }

    /// The number of nodes not yet handed out.
    pub fn len(&self) -> (r: usize)
        ensures
            r == self.remaining().len(),
    {
        proof {
            use_type_invariant(self);
        }
        self.back - self.front
    }

    /// Hands out the first remaining node.
    pub fn next(&mut self) -> (r: Option<&'a Node<H, T>>)
        ensures
            old(self).remaining().len() == 0 ==> r is None && final(self).remaining() == old(
                self,
            ).remaining(),
            old(self).remaining().len() > 0 ==> r == Some(&old(self).remaining()[0])
                && final(self).remaining() == old(self).remaining().drop_first(),
    {
        proof {
            use_type_invariant(&*self);
        }
        if self.front == self.back {
            None
        } else {
            let node = &self.nodes[self.front];
            self.front = self.front + 1;
            Some(node)
        }
    }

    /// Hands out the last remaining node.
    pub fn next_back(&mut self) -> (r: Option<&'a Node<H, T>>)
        ensures
            old(self).remaining().len() == 0 ==> r is None && final(self).remaining() == old(
                self,
            ).remaining(),
            old(self).remaining().len() > 0 ==> r == Some(&old(self).remaining().last())
                && final(self).remaining() == old(self).remaining().drop_last(),
    {
        proof {
            use_type_invariant(&*self);
        }
        if self.front == self.back {
            None
        } else {
            self.back = self.back - 1;
            Some(&self.nodes[self.back])
        }
    }
}

impl<'a, H, T> Clone for Nodes<'a, H, T> {
    /// A copy that walks the same nodes again from where this one stands.
    fn clone(&self) -> (r: Self)
        ensures
            r.remaining() == self.remaining(),
    {
        proof {
            use_type_invariant(self);
        }
        Nodes { nodes: self.nodes, front: self.front, back: self.back }
    }
}

/// The root nodes of a sequence of trees.
pub open spec fn roots_of<H, T>(trees: Seq<MerkleTree<H, T>>) -> Seq<Node<H, T>> {
    trees.map_values(|t: MerkleTree<H, T>| t.spec_root())
}

/// Reverses the order of the items of `v`.
pub(crate) fn reversed<X>(v: Vec<X>) -> (r: Vec<X>)
    ensures
        r@ == v@.reverse(),
{
    let mut v = v;
    let ghost orig = v@;
    let mut r: Vec<X> = Vec::with_capacity(v.len());
    while v.len() > 0
        invariant
            v@.len() <= orig.len(),
            v@ == orig.subrange(0, v@.len() as int),
            r@ == orig.subrange(v@.len() as int, orig.len() as int).reverse(),
        decreases v@.len(),
    {
        let x = v.pop().unwrap();
        r.push(x);
        assert(orig.subrange(v@.len() as int, orig.len() as int) =~= seq![x] + orig.subrange(
            v@.len() as int + 1,
            orig.len() as int,
        ));
        assert(r@ =~= orig.subrange(v@.len() as int, orig.len() as int).reverse());
    }
    assert(orig.subrange(0, orig.len() as int) == orig);
    r
}

/// Takes the root nodes out of a sequence of trees, keeping their order.
pub(crate) fn into_roots<H, T>(trees: Vec<MerkleTree<H, T>>) -> (r: Vec<Node<H, T>>)
    ensures
        r@ == roots_of(trees@),
{
    let mut rest = reversed(trees);
    let ghost orig = rest@.reverse();
    proof {
        assert(orig =~= trees@);
    }
    let mut roots: Vec<Node<H, T>> = Vec::with_capacity(rest.len());
    while rest.len() > 0
        invariant
            rest@.len() <= orig.len(),
            rest@ == orig.subrange(roots@.len() as int, orig.len() as int).reverse(),
            roots@ == roots_of(orig.subrange(0, roots@.len() as int)),
            roots@.len() + rest@.len() == orig.len(),
        decreases rest@.len(),
    {
        let ghost k = roots@.len() as int;
        let tree = rest.pop().unwrap();
        assert(tree == orig[k]);
        roots.push(tree.into_root());
        assert(orig.subrange(0, k + 1) =~= orig.subrange(0, k).push(orig[k]));
        assert(roots@ =~= roots_of(orig.subrange(0, k + 1)));
        assert(rest@ =~= orig.subrange(k + 1, orig.len() as int).reverse());
    }
    assert(orig.subrange(0, orig.len() as int) == orig);
    roots
}

/// The leaf nodes under `n`, from left to right.
pub open spec fn leaves<H, T>(n: Node<H, T>) -> Seq<Node<H, T>>
    decreases n, 1nat, 0nat,
{
    match n {
        Node::Leaf(_) => seq![n],
        Node::Hash(_) => prefix_leaves(n, n.spec_children().len()),
    }
}

/// The leaf nodes under the first `k` children of `n`, from left to right.
pub open spec fn prefix_leaves<H, T>(n: Node<H, T>, k: nat) -> Seq<Node<H, T>>
    decreases n, 0nat, k,
{
    if k == 0 || k > n.spec_children().len() {
        Seq::empty()
    } else {
        prefix_leaves(n, (k - 1) as nat) + leaves(n.spec_children()[k - 1])
    }
}

/// Every leaf under `n` is `depth` levels below it.
pub open spec fn leaves_at_depth<H, T>(n: Node<H, T>, depth: nat) -> bool
    decreases n, 1nat, 0nat,
{
    match n {
        Node::Leaf(_) => depth == 0,
        Node::Hash(_) => depth > 0 && prefix_leaves_at_depth(
            n,
            n.spec_children().len(),
            (depth - 1) as nat,
        ),
    }
}

/// Every leaf under the first `k` children of `n` is `depth` levels below
/// the child.
pub open spec fn prefix_leaves_at_depth<H, T>(n: Node<H, T>, k: nat, depth: nat) -> bool
    decreases n, 0nat, k,
{
    if k == 0 {
        true
    } else if k > n.spec_children().len() {
        false
    } else {
        &&& prefix_leaves_at_depth(n, (k - 1) as nat, depth)
        &&& leaves_at_depth(n.spec_children()[k - 1], depth)
    }
}

/// Node for node, `a` and `b` have the same kind, the same hash value as
/// seen through its view, and the same number of children; leaf data are
/// not compared.
pub open spec fn alike<H: View, T>(a: Node<H, T>, b: Node<H, T>) -> bool
    decreases a, 1nat, 0nat,
{
    &&& (a is Leaf <==> b is Leaf)
    &&& a.spec_hash()@ == b.spec_hash()@
    &&& a.spec_children().len() == b.spec_children().len()
    &&& prefix_alike(a, b, a.spec_children().len())
}

/// The first `k` children of `a` and of `b` are pairwise alike.
pub open spec fn prefix_alike<H: View, T>(a: Node<H, T>, b: Node<H, T>, k: nat) -> bool
    decreases a, 0nat, k,
{
    if k == 0 {
        true
    } else if k > a.spec_children().len() || k > b.spec_children().len() {
        false
    } else {
        &&& prefix_alike(a, b, (k - 1) as nat)
        &&& alike(a.spec_children()[k - 1], b.spec_children()[k - 1])
    }
}

fn hashes_equal<H: PartialEq>(a: &H, b: &H) -> (r: bool)
    ensures
        <H as PartialEqSpec>::obeys_eq_spec() ==> r == PartialEqSpec::eq_spec(a, b),
{
    a == b
}

fn nodes_equal<H: PartialEq, T>(a: &Node<H, T>, b: &Node<H, T>) -> (r: bool)
    ensures
        <H as PartialEqSpec>::obeys_eq_spec() ==> r == ((*a is Leaf <==> *b is Leaf)
            && PartialEqSpec::eq_spec(&a.spec_hash(), &b.spec_hash())),
{
    match (a, b) {
        (Node::Leaf(_), Node::Leaf(_)) => hashes_equal(a.hash(), b.hash()),
        (Node::Hash(_), Node::Hash(_)) => hashes_equal(a.hash(), b.hash()),
        _ => false,
    }
}

impl<H: PartialEq, T> PartialEq for MerkleTree<H, T> {
    fn eq(&self, other: &Self) -> (r: bool) {
        nodes_equal(&self.root, &other.root)
    }
}

impl<H: PartialEq, T> vstd::std_specs::cmp::PartialEqSpecImpl for MerkleTree<H, T> {
    open spec fn obeys_eq_spec() -> bool {
        <H as PartialEqSpec>::obeys_eq_spec()
    }

    open spec fn eq_spec(&self, other: &Self) -> bool {
        &&& (self.spec_root() is Leaf <==> other.spec_root() is Leaf)
        &&& PartialEqSpec::eq_spec(&self.spec_root().spec_hash(), &other.spec_root().spec_hash())
    }
}

impl<H: PartialEq, T> PartialEq for Node<H, T> {
    fn eq(&self, other: &Self) -> (r: bool) {
        nodes_equal(self, other)
    }
}

impl<H: PartialEq, T> vstd::std_specs::cmp::PartialEqSpecImpl for Node<H, T> {
    open spec fn obeys_eq_spec() -> bool {
        <H as PartialEqSpec>::obeys_eq_spec()
    }

    open spec fn eq_spec(&self, other: &Self) -> bool {
        &&& (*self is Leaf <==> *other is Leaf)
        &&& PartialEqSpec::eq_spec(&self.spec_hash(), &other.spec_hash())
    }
}

impl<H: PartialEq, T> PartialEq for LeafNode<H, T> {
    fn eq(&self, other: &Self) -> (r: bool) {
        hashes_equal(self.hash(), other.hash())
    }
}

impl<H: PartialEq, T> vstd::std_specs::cmp::PartialEqSpecImpl for LeafNode<H, T> {
    open spec fn obeys_eq_spec() -> bool {
        <H as PartialEqSpec>::obeys_eq_spec()
    }

    open spec fn eq_spec(&self, other: &Self) -> bool {
        PartialEqSpec::eq_spec(&self.spec_hash(), &other.spec_hash())
    }
}

impl<H: PartialEq, T> PartialEq for HashNode<H, T> {
    fn eq(&self, other: &Self) -> (r: bool) {
        hashes_equal(self.hash(), other.hash())
    }
}

impl<H: PartialEq, T> vstd::std_specs::cmp::PartialEqSpecImpl for HashNode<H, T> {
    open spec fn obeys_eq_spec() -> bool {
        <H as PartialEqSpec>::obeys_eq_spec()
    }

    open spec fn eq_spec(&self, other: &Self) -> bool {
        PartialEqSpec::eq_spec(&self.spec_hash(), &other.spec_hash())
    }
}

impl<H: Eq, T> Eq for MerkleTree<H, T> {

}

impl<H: Eq, T> Eq for Node<H, T> {

}

impl<H: Eq, T> Eq for LeafNode<H, T> {

}

impl<H: Eq, T> Eq for HashNode<H, T> {

}

/// Relies on `std::hash::Hash::hash`, which feeds a value into a hasher
/// state; nothing is claimed of the state afterwards.
#[verifier::external_body]
fn feed_hash<V: std::hash::Hash, St: std::hash::Hasher>(value: &V, state: &mut St) {
    value.hash(state)
}

impl<H: std::hash::Hash, T> std::hash::Hash for MerkleTree<H, T> {
    fn hash<S: std::hash::Hasher>(&self, state: &mut S) {
        feed_hash(self.root.hash(), state)
    }
}

impl<H: std::hash::Hash, T> std::hash::Hash for LeafNode<H, T> {
    fn hash<S: std::hash::Hasher>(&self, state: &mut S) {
        feed_hash(&self.hash, state)
    }
}

impl<H: std::hash::Hash, T> std::hash::Hash for HashNode<H, T> {
    fn hash<S: std::hash::Hasher>(&self, state: &mut S) {
        feed_hash(&self.hash, state)
    }
}

impl<H: std::hash::Hash, T> std::hash::Hash for Node<H, T> {
    fn hash<S: std::hash::Hasher>(&self, state: &mut S) {
        feed_hash(self.hash(), state)
    }
}

} // verus!
