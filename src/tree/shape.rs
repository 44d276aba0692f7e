//! The shapes in which trees are built from a sequence of inputs, as
//! predicates over nodes, and what follows from them.
//!
//! Each predicate fixes, node for node, the kind of every node, its number
//! of children and its hash, and which input each leaf was made from. The
//! sequential and the parallel builders establish the same predicates.
use vstd::prelude::*;

use crate::hash::{child_keys, Hasher, NodeHasher};
use crate::leaf::ExtractData;
use crate::tree::{
    alike,
    leaves,
    leaves_at_depth,
    prefix_alike,
    prefix_leaves,
    prefix_leaves_at_depth,
    MerkleTree,
    Node,
};
use vstd::std_specs::cmp::PartialEqSpec;

verus! {

/// `n` is a leaf made from `input`: its hash is the hash of the input, and
/// its data is what the extractor takes from the input.
pub open spec fn is_leaf_of<D: Hasher<L::Input>, L: ExtractData>(
    hasher: D,
    extractor: L,
    n: Node<D::HashOutput, L::LeafData>,
    input: L::Input,
) -> bool {
    &&& n is Leaf
    &&& n.spec_hash()@ == hasher.spec_hash_input(input)
    &&& extractor.extracts(input, n.spec_data())
}

/// `n` is a hash node whose children are exactly `children`, in order, and
/// whose hash the hasher computed over them.
pub open spec fn is_parent_of<D: NodeHasher, T>(
    hasher: D,
    n: Node<D::HashOutput, T>,
    children: Seq<Node<D::HashOutput, T>>,
) -> bool {
    &&& n is Hash
    &&& n.spec_children() == children
    &&& n.spec_hash()@ == hasher.spec_hash_nodes(child_keys(children))
}

/// The least power of two that is not less than `n`.
pub open spec fn next_pow2(n: nat) -> nat
    decreases n,
{
    if n <= 1 {
        1
    } else {
        2 * next_pow2(((n + 1) / 2) as nat)
    }
}

/// `n` is a power of two.
pub open spec fn is_pow2(n: nat) -> bool
    decreases n,
{
    if n <= 1 {
        n == 1
    } else {
        n % 2 == 0 && is_pow2(n / 2)
    }
}

/// The number of times `n` has to be halved, rounding up, to reach one:
/// the depth of a complete binary tree with `n` leaves.
pub open spec fn ceil_log2(n: nat) -> nat
    decreases n,
{
    if n <= 1 {
        0
    } else {
        1 + ceil_log2(((n + 1) / 2) as nat)
    }
}

/// The size of the left part when `n` inputs are split in two:
/// half of them rounded up for a balanced tree, and that rounded up to a
/// power of two for a full tree.
pub open spec fn split_point(full: bool, n: nat) -> nat {
    if full {
        next_pow2(((n + 1) / 2) as nat)
    } else {
        ((n + 1) / 2) as nat
    }
}

/// `n` is the binary tree over `inputs` that splits every sequence of two
/// or more inputs at [`split_point`]: a full tree when `full` holds, else
/// a balanced one. A single input makes a leaf.
pub open spec fn is_split_tree<D: Hasher<L::Input>, L: ExtractData>(
    hasher: D,
    extractor: L,
    n: Node<D::HashOutput, L::LeafData>,
    inputs: Seq<L::Input>,
    full: bool,
) -> bool
    decreases inputs.len(),
{
    if inputs.len() == 0 {
        false
    } else if inputs.len() == 1 {
        is_leaf_of(hasher, extractor, n, inputs[0])
    } else {
        let k = split_point(full, inputs.len()) as int;
        if 0 < k < inputs.len() {
            &&& n.spec_children().len() == 2
            &&& is_parent_of(hasher, n, n.spec_children())
            &&& is_split_tree(hasher, extractor, n.spec_children()[0], inputs.subrange(0, k), full)
            &&& is_split_tree(
                hasher,
                extractor,
                n.spec_children()[1],
                inputs.subrange(k, inputs.len() as int),
                full,
            )
        } else {
            false
        }
    }
}

/// `n` is the balanced tree over `inputs`.
pub open spec fn is_balanced_tree<D: Hasher<L::Input>, L: ExtractData>(
    hasher: D,
    extractor: L,
    n: Node<D::HashOutput, L::LeafData>,
    inputs: Seq<L::Input>,
) -> bool {
    is_split_tree(hasher, extractor, n, inputs, false)
}

/// `n` is the full tree over `inputs`.
pub open spec fn is_full_tree<D: Hasher<L::Input>, L: ExtractData>(
    hasher: D,
    extractor: L,
    n: Node<D::HashOutput, L::LeafData>,
    inputs: Seq<L::Input>,
) -> bool {
    is_split_tree(hasher, extractor, n, inputs, true)
}

/// `n` is the left-filled tree over `inputs` that is a subgraph of the
/// perfect binary tree with `perfect` leaf positions: the first half of
/// the positions goes to the left child; where no input is left for the
/// right half, the node has the left child alone.
pub open spec fn is_complete_subtree<D: Hasher<L::Input>, L: ExtractData>(
    hasher: D,
    extractor: L,
    n: Node<D::HashOutput, L::LeafData>,
    inputs: Seq<L::Input>,
    perfect: nat,
) -> bool
    decreases perfect,
{
    let len = inputs.len();
    let half = perfect / 2;
    if len == 0 || perfect < len {
        false
    } else if len <= half {
        &&& n.spec_children().len() == 1
        &&& is_parent_of(hasher, n, n.spec_children())
        &&& is_complete_subtree(hasher, extractor, n.spec_children()[0], inputs, half)
    } else if len == 1 {
        is_leaf_of(hasher, extractor, n, inputs[0])
    } else {
        &&& n.spec_children().len() == 2
        &&& is_parent_of(hasher, n, n.spec_children())
        &&& is_complete_subtree(
            hasher,
            extractor,
            n.spec_children()[0],
            inputs.subrange(0, half as int),
            half,
        )
        &&& is_complete_subtree(
            hasher,
            extractor,
            n.spec_children()[1],
            inputs.subrange(half as int, len as int),
            half,
        )
    }
}

/// `n` is the left-filled tree over the given base trees `base` that is a
/// subgraph of the perfect binary tree with `perfect` positions for them,
/// shaped as [`is_complete_subtree`] is, with each base tree standing as it
/// is in its position.
pub open spec fn is_complete_over<D: NodeHasher, T>(
    hasher: D,
    n: Node<D::HashOutput, T>,
    base: Seq<Node<D::HashOutput, T>>,
    perfect: nat,
) -> bool
    decreases perfect,
{
    let len = base.len();
    let half = perfect / 2;
    if len == 0 || perfect < len {
        false
    } else if len <= half {
        &&& n.spec_children().len() == 1
        &&& is_parent_of(hasher, n, n.spec_children())
        &&& is_complete_over(hasher, n.spec_children()[0], base, half)
    } else if len == 1 {
        n == base[0]
    } else {
        &&& n.spec_children().len() == 2
        &&& is_parent_of(hasher, n, n.spec_children())
        &&& is_complete_over(hasher, n.spec_children()[0], base.subrange(0, half as int), half)
        &&& is_complete_over(
            hasher,
            n.spec_children()[1],
            base.subrange(half as int, len as int),
            half,
        )
    }
}

/// `n` is the binary tree over the given base trees `base` that splits
/// every sequence of two or more of them at [`split_point`], with each
/// base tree standing as it is in its position.
pub open spec fn is_split_over<D: NodeHasher, T>(
    hasher: D,
    n: Node<D::HashOutput, T>,
    base: Seq<Node<D::HashOutput, T>>,
    full: bool,
) -> bool
    decreases base.len(),
{
    if base.len() == 0 {
        false
    } else if base.len() == 1 {
        n == base[0]
    } else {
        let k = split_point(full, base.len()) as int;
        if 0 < k < base.len() {
            &&& n.spec_children().len() == 2
            &&& is_parent_of(hasher, n, n.spec_children())
            &&& is_split_over(hasher, n.spec_children()[0], base.subrange(0, k), full)
            &&& is_split_over(
                hasher,
                n.spec_children()[1],
                base.subrange(k, base.len() as int),
                full,
            )
        } else {
            false
        }
    }
}

/// `n` is the complete tree over `inputs`.
pub open spec fn is_complete_tree<D: Hasher<L::Input>, L: ExtractData>(
    hasher: D,
    extractor: L,
    n: Node<D::HashOutput, L::LeafData>,
    inputs: Seq<L::Input>,
) -> bool {
    is_complete_subtree(hasher, extractor, n, inputs, next_pow2(inputs.len()))
}

/// The exponent of a power of two.
pub open spec fn log2(n: nat) -> nat
    decreases n,
{
    if n <= 1 {
        0
    } else {
        1 + log2(n / 2)
    }
}

/// The nodes of `ls`, in order, are leaves made from `inputs`, in order.
pub open spec fn leaves_made_from<D: Hasher<L::Input>, L: ExtractData>(
    hasher: D,
    extractor: L,
    ls: Seq<Node<D::HashOutput, L::LeafData>>,
    inputs: Seq<L::Input>,
) -> bool {
    &&& ls.len() == inputs.len()
    &&& forall|i: int| 0 <= i < ls.len() ==> is_leaf_of(hasher, extractor, #[trigger] ls[i], inputs[i])
}

/// Bounds on [`next_pow2`]: at least `n`, less than `2 * n`, and even above one.
pub proof fn lemma_next_pow2_bounds(n: nat)
    requires
        n >= 1,
    ensures
        n <= next_pow2(n) <= 2 * n - 1,
        n >= 2 ==> next_pow2(n) % 2 == 0,
        next_pow2(n) >= 1,
        is_pow2(next_pow2(n)),
    decreases n,
{
    if n >= 2 {
        let m = ((n + 1) / 2) as nat;
        lemma_next_pow2_bounds(m);
        if m >= 2 {
            assert(next_pow2(m) <= 2 * m - 2);
        }
        assert(next_pow2(n) / 2 == next_pow2(m));
    }
}

/// Both split points leave a nonempty part on either side.
pub proof fn lemma_split_point_bounds(full: bool, n: nat)
    requires
        n >= 2,
    ensures
        0 < split_point(full, n) < n,
{
    let m = ((n + 1) / 2) as nat;
    lemma_next_pow2_bounds(m);
    if m >= 2 {
        assert(next_pow2(m) <= 2 * m - 2);
    }
}

/// The leaves of a hash node with one child are those of the child.
pub proof fn lemma_leaves_of_one_child<H, T>(n: Node<H, T>)
    requires
        n is Hash,
        n.spec_children().len() == 1,
    ensures
        leaves(n) == leaves(n.spec_children()[0]),
{
    let c = n.spec_children();
    assert(leaves(n) == prefix_leaves(n, 1));
    assert(prefix_leaves(n, 0) == Seq::<Node<H, T>>::empty());
    assert(prefix_leaves(n, 1) == prefix_leaves(n, 0) + leaves(c[0]));
    assert(leaves(n) =~= leaves(c[0]));
}

/// The leaves of a hash node with two children are those of the left
/// child followed by those of the right one.
pub proof fn lemma_leaves_of_two_children<H, T>(n: Node<H, T>)
    requires
        n is Hash,
        n.spec_children().len() == 2,
    ensures
        leaves(n) == leaves(n.spec_children()[0]) + leaves(n.spec_children()[1]),
{
    let c = n.spec_children();
    assert(leaves(n) == prefix_leaves(n, 2));
    assert(prefix_leaves(n, 0) == Seq::<Node<H, T>>::empty());
    assert(prefix_leaves(n, 1) == prefix_leaves(n, 0) + leaves(c[0]));
    assert(prefix_leaves(n, 2) == prefix_leaves(n, 1) + leaves(c[1]));
    assert(leaves(n) =~= leaves(c[0]) + leaves(c[1]));
}

/// Two sequences of leaves made from two consecutive parts of the inputs
/// make up the leaves made from the whole.
proof fn lemma_leaves_made_from_concat<D: Hasher<L::Input>, L: ExtractData>(
    hasher: D,
    extractor: L,
    left: Seq<Node<D::HashOutput, L::LeafData>>,
    right: Seq<Node<D::HashOutput, L::LeafData>>,
    inputs: Seq<L::Input>,
    k: int,
)
    requires
        0 <= k <= inputs.len(),
        leaves_made_from(hasher, extractor, left, inputs.subrange(0, k)),
        leaves_made_from(hasher, extractor, right, inputs.subrange(k, inputs.len() as int)),
    ensures
        leaves_made_from(hasher, extractor, left + right, inputs),
{
    assert forall|i: int| 0 <= i < (left + right).len() implies is_leaf_of(
        hasher,
        extractor,
        #[trigger] (left + right)[i],
        inputs[i],
    ) by {
        if i < k {
            assert(inputs.subrange(0, k)[i] == inputs[i]);
        } else {
            assert(inputs.subrange(k, inputs.len() as int)[i - k] == inputs[i]);
        }
    }
}

/// Leaves made from the inputs, restricted to a range of positions, are
/// made from the inputs in that range.
proof fn lemma_leaves_made_from_subrange<D: Hasher<L::Input>, L: ExtractData>(
    hasher: D,
    extractor: L,
    ls: Seq<Node<D::HashOutput, L::LeafData>>,
    inputs: Seq<L::Input>,
    lo: int,
    hi: int,
)
    requires
        0 <= lo <= hi <= inputs.len(),
        leaves_made_from(hasher, extractor, ls, inputs),
    ensures
        leaves_made_from(hasher, extractor, ls.subrange(lo, hi), inputs.subrange(lo, hi)),
{
    assert forall|i: int| 0 <= i < hi - lo implies is_leaf_of(
        hasher,
        extractor,
        #[trigger] ls.subrange(lo, hi)[i],
        inputs.subrange(lo, hi)[i],
    ) by {
        assert(ls.subrange(lo, hi)[i] == ls[lo + i]);
        assert(inputs.subrange(lo, hi)[i] == inputs[lo + i]);
    }
}

/// A complete tree over base trees that are leaves made from `inputs`, in
/// order, is the complete tree over `inputs`.
pub proof fn lemma_complete_over_leaves<D: Hasher<L::Input>, L: ExtractData>(
    hasher: D,
    extractor: L,
    n: Node<D::HashOutput, L::LeafData>,
    base: Seq<Node<D::HashOutput, L::LeafData>>,
    inputs: Seq<L::Input>,
    perfect: nat,
)
    requires
        is_complete_over(hasher, n, base, perfect),
        leaves_made_from(hasher, extractor, base, inputs),
    ensures
        is_complete_subtree(hasher, extractor, n, inputs, perfect),
    decreases perfect,
{
    let len = base.len();
    let half = perfect / 2;
    if len <= half {
        lemma_complete_over_leaves(hasher, extractor, n.spec_children()[0], base, inputs, half);
    } else if len == 1 {
    } else {
        lemma_leaves_made_from_subrange(hasher, extractor, base, inputs, 0, half as int);
        lemma_leaves_made_from_subrange(hasher, extractor, base, inputs, half as int, len as int);
        lemma_complete_over_leaves(
            hasher,
            extractor,
            n.spec_children()[0],
            base.subrange(0, half as int),
            inputs.subrange(0, half as int),
            half,
        );
        lemma_complete_over_leaves(
            hasher,
            extractor,
            n.spec_children()[1],
            base.subrange(half as int, len as int),
            inputs.subrange(half as int, len as int),
            half,
        );
    }
}

/// A balanced (or full) tree over base trees that are leaves made from
/// `inputs`, in order, is the balanced (or full) tree over `inputs`.
pub proof fn lemma_split_over_leaves<D: Hasher<L::Input>, L: ExtractData>(
    hasher: D,
    extractor: L,
    n: Node<D::HashOutput, L::LeafData>,
    base: Seq<Node<D::HashOutput, L::LeafData>>,
    inputs: Seq<L::Input>,
    full: bool,
)
    requires
        is_split_over(hasher, n, base, full),
        leaves_made_from(hasher, extractor, base, inputs),
    ensures
        is_split_tree(hasher, extractor, n, inputs, full),
    decreases base.len(),
{
    let len = base.len();
    if len >= 2 {
        let k = split_point(full, len) as int;
        lemma_leaves_made_from_subrange(hasher, extractor, base, inputs, 0, k);
        lemma_leaves_made_from_subrange(hasher, extractor, base, inputs, k, len as int);
        lemma_split_over_leaves(
            hasher,
            extractor,
            n.spec_children()[0],
            base.subrange(0, k),
            inputs.subrange(0, k),
            full,
        );
        lemma_split_over_leaves(
            hasher,
            extractor,
            n.spec_children()[1],
            base.subrange(k, len as int),
            inputs.subrange(k, len as int),
            full,
        );
    }
}

/// Order preservation for complete trees: the leaves of a complete tree,
/// from left to right, are made from the inputs in their order, one leaf
/// for each input.
pub proof fn lemma_complete_leaves_in_order<D: Hasher<L::Input>, L: ExtractData>(
    hasher: D,
    extractor: L,
    n: Node<D::HashOutput, L::LeafData>,
    inputs: Seq<L::Input>,
    perfect: nat,
)
    requires
        is_complete_subtree(hasher, extractor, n, inputs, perfect),
    ensures
        leaves_made_from(hasher, extractor, leaves(n), inputs),
    decreases perfect,
{
    let len = inputs.len();
    let half = perfect / 2;
    if len <= half {
        lemma_complete_leaves_in_order(hasher, extractor, n.spec_children()[0], inputs, half);
        lemma_leaves_of_one_child(n);
    } else if len == 1 {
        assert(leaves(n) =~= seq![n]);
    } else {
        let c = n.spec_children();
        lemma_complete_leaves_in_order(hasher, extractor, c[0], inputs.subrange(0, half as int), half);
        lemma_complete_leaves_in_order(
            hasher,
            extractor,
            c[1],
            inputs.subrange(half as int, len as int),
            half,
        );
        lemma_leaves_of_two_children(n);
        lemma_leaves_made_from_concat(hasher, extractor, leaves(c[0]), leaves(c[1]), inputs, half as int);
    }
}

/// Order preservation for balanced and full trees: the leaves, from left
/// to right, are made from the inputs in their order, one leaf for each
/// input.
pub proof fn lemma_split_leaves_in_order<D: Hasher<L::Input>, L: ExtractData>(
    hasher: D,
    extractor: L,
    n: Node<D::HashOutput, L::LeafData>,
    inputs: Seq<L::Input>,
    full: bool,
)
    requires
        is_split_tree(hasher, extractor, n, inputs, full),
    ensures
        leaves_made_from(hasher, extractor, leaves(n), inputs),
    decreases inputs.len(),
{
    if inputs.len() == 1 {
        assert(leaves(n) =~= seq![n]);
    } else {
        let k = split_point(full, inputs.len()) as int;
        let c = n.spec_children();
        lemma_split_leaves_in_order(hasher, extractor, c[0], inputs.subrange(0, k), full);
        lemma_split_leaves_in_order(
            hasher,
            extractor,
            c[1],
            inputs.subrange(k, inputs.len() as int),
            full,
        );
        lemma_leaves_of_two_children(n);
        lemma_leaves_made_from_concat(hasher, extractor, leaves(c[0]), leaves(c[1]), inputs, k);
    }
}

/// A node over children that are alike, with the hash computed by the
/// same hasher, is alike too.
proof fn lemma_parents_alike<D: NodeHasher, T>(
    hasher: D,
    a: Node<D::HashOutput, T>,
    b: Node<D::HashOutput, T>,
)
    requires
        is_parent_of(hasher, a, a.spec_children()),
        is_parent_of(hasher, b, b.spec_children()),
        1 <= a.spec_children().len() <= 2,
        a.spec_children().len() == b.spec_children().len(),
        alike(a.spec_children()[0], b.spec_children()[0]),
        a.spec_children().len() == 2 ==> alike(a.spec_children()[1], b.spec_children()[1]),
    ensures
        alike(a, b),
{
    let ka = child_keys(a.spec_children());
    let kb = child_keys(b.spec_children());
    assert forall|i: int| 0 <= i < ka.len() implies ka[i] == kb[i] by {
        if i == 0 {
            assert(alike(a.spec_children()[0], b.spec_children()[0]));
        } else {
            assert(alike(a.spec_children()[1], b.spec_children()[1]));
        }
    }
    assert(ka =~= kb);
    assert(prefix_alike(a, b, 0));
    assert(prefix_alike(a, b, 1));
    if a.spec_children().len() == 2 {
        assert(prefix_alike(a, b, 2));
    }
}

/// Two leaves made from the same input are alike.
proof fn lemma_leaves_alike<D: Hasher<L::Input>, L: ExtractData>(
    hasher: D,
    extractor: L,
    a: Node<D::HashOutput, L::LeafData>,
    b: Node<D::HashOutput, L::LeafData>,
    input: L::Input,
)
    requires
        is_leaf_of(hasher, extractor, a, input),
        is_leaf_of(hasher, extractor, b, input),
    ensures
        alike(a, b),
{
}

/// Complete trees over the same inputs are alike, node for node. Since
/// the sequential `complete_tree_from` and the parallel one both build a
/// tree satisfying [`is_complete_tree`], their results are alike.
pub proof fn lemma_complete_tree_unique<D: Hasher<L::Input>, L: ExtractData>(
    hasher: D,
    extractor: L,
    a: Node<D::HashOutput, L::LeafData>,
    b: Node<D::HashOutput, L::LeafData>,
    inputs: Seq<L::Input>,
    perfect: nat,
)
    requires
        is_complete_subtree(hasher, extractor, a, inputs, perfect),
        is_complete_subtree(hasher, extractor, b, inputs, perfect),
    ensures
        alike(a, b),
    decreases perfect,
{
    let len = inputs.len();
    let half = perfect / 2;
    if len <= half {
        lemma_complete_tree_unique(
            hasher,
            extractor,
            a.spec_children()[0],
            b.spec_children()[0],
            inputs,
            half,
        );
        lemma_parents_alike(hasher, a, b);
    } else if len == 1 {
        lemma_leaves_alike(hasher, extractor, a, b, inputs[0]);
    } else {
        lemma_complete_tree_unique(
            hasher,
            extractor,
            a.spec_children()[0],
            b.spec_children()[0],
            inputs.subrange(0, half as int),
            half,
        );
        lemma_complete_tree_unique(
            hasher,
            extractor,
            a.spec_children()[1],
            b.spec_children()[1],
            inputs.subrange(half as int, len as int),
            half,
        );
        lemma_parents_alike(hasher, a, b);
    }
}

/// Balanced (or full) trees over the same inputs are alike, node for node.
/// Since the sequential and the parallel builders both build a tree
/// satisfying [`is_split_tree`], their results are alike.
pub proof fn lemma_split_tree_unique<D: Hasher<L::Input>, L: ExtractData>(
    hasher: D,
    extractor: L,
    a: Node<D::HashOutput, L::LeafData>,
    b: Node<D::HashOutput, L::LeafData>,
    inputs: Seq<L::Input>,
    full: bool,
)
    requires
        is_split_tree(hasher, extractor, a, inputs, full),
        is_split_tree(hasher, extractor, b, inputs, full),
    ensures
        alike(a, b),
    decreases inputs.len(),
{
    if inputs.len() == 1 {
        lemma_leaves_alike(hasher, extractor, a, b, inputs[0]);
    } else {
        let k = split_point(full, inputs.len()) as int;
        lemma_split_tree_unique(
            hasher,
            extractor,
            a.spec_children()[0],
            b.spec_children()[0],
            inputs.subrange(0, k),
            full,
        );
        lemma_split_tree_unique(
            hasher,
            extractor,
            a.spec_children()[1],
            b.spec_children()[1],
            inputs.subrange(k, inputs.len() as int),
            full,
        );
        lemma_parents_alike(hasher, a, b);
    }
}

/// A single input makes a tree whose root is a leaf made from it, in each
/// of the three shapes: never a hash node over the leaf.
pub proof fn lemma_single_input_is_leaf<D: Hasher<L::Input>, L: ExtractData>(
    hasher: D,
    extractor: L,
    n: Node<D::HashOutput, L::LeafData>,
    inputs: Seq<L::Input>,
)
    requires
        inputs.len() == 1,
        is_complete_tree(hasher, extractor, n, inputs) || is_split_tree(
            hasher,
            extractor,
            n,
            inputs,
            false,
        ) || is_split_tree(hasher, extractor, n, inputs, true),
    ensures
        n is Leaf,
        is_leaf_of(hasher, extractor, n, inputs[0]),
{
    assert(next_pow2(1) == 1);
}

/// Every leaf of a complete subtree over `perfect` leaf positions lies at
/// the depth of a perfect binary tree with that many leaves.
pub proof fn lemma_complete_subtree_depth<D: Hasher<L::Input>, L: ExtractData>(
    hasher: D,
    extractor: L,
    n: Node<D::HashOutput, L::LeafData>,
    inputs: Seq<L::Input>,
    perfect: nat,
)
    requires
        is_pow2(perfect),
        is_complete_subtree(hasher, extractor, n, inputs, perfect),
    ensures
        leaves_at_depth(n, log2(perfect)),
    decreases perfect,
{
    let len = inputs.len();
    let half = perfect / 2;
    let d = log2(perfect);
    if len <= half {
        let c = n.spec_children();
        lemma_complete_subtree_depth(hasher, extractor, c[0], inputs, half);
        assert(log2(half) == d - 1);
        assert(prefix_leaves_at_depth(n, 0, log2(half)));
        assert(prefix_leaves_at_depth(n, 1, log2(half)));
    } else if len == 1 {
    } else {
        let c = n.spec_children();
        lemma_complete_subtree_depth(hasher, extractor, c[0], inputs.subrange(0, half as int), half);
        lemma_complete_subtree_depth(
            hasher,
            extractor,
            c[1],
            inputs.subrange(half as int, len as int),
            half,
        );
        assert(log2(half) == d - 1);
        assert(prefix_leaves_at_depth(n, 0, log2(half)));
        assert(prefix_leaves_at_depth(n, 1, log2(half)));
        assert(prefix_leaves_at_depth(n, 2, log2(half)));
    }
}

/// The exponent of the least power of two not below `n` is [`ceil_log2`].
pub proof fn lemma_log2_next_pow2(n: nat)
    requires
        n >= 1,
    ensures
        log2(next_pow2(n)) == ceil_log2(n),
    decreases n,
{
    if n >= 2 {
        let m = ((n + 1) / 2) as nat;
        lemma_log2_next_pow2(m);
        lemma_next_pow2_bounds(m);
        assert(next_pow2(n) / 2 == next_pow2(m));
    }
}

/// The complete-tree shape: the root of a complete tree over `inputs` has
/// one leaf for each input, made from the inputs in order, and every leaf
/// lies at the same depth, the least `d` with `inputs.len() <= 2^d`. So
/// the tree is a subgraph of the perfect binary tree of that depth, with
/// no node that would only have missing leaves under it.
pub proof fn lemma_complete_tree_shape<D: Hasher<L::Input>, L: ExtractData>(
    hasher: D,
    extractor: L,
    n: Node<D::HashOutput, L::LeafData>,
    inputs: Seq<L::Input>,
)
    requires
        is_complete_tree(hasher, extractor, n, inputs),
    ensures
        leaves_made_from(hasher, extractor, leaves(n), inputs),
        leaves_at_depth(n, ceil_log2(inputs.len())),
{
    lemma_next_pow2_bounds(inputs.len());
    lemma_complete_leaves_in_order(hasher, extractor, n, inputs, next_pow2(inputs.len()));
    lemma_complete_subtree_depth(hasher, extractor, n, inputs, next_pow2(inputs.len()));
    lemma_log2_next_pow2(inputs.len());
}

/// Leaf data agree, leaf for leaf, between two complete trees over the
/// same inputs, where the extractor allows one result for each input (as
/// `NoData` and `Owned` do). Together with [`lemma_complete_tree_unique`]
/// this makes the parallel and the sequential complete builds identical
/// node for node.
pub proof fn lemma_complete_tree_same_leaf_data<D: Hasher<L::Input>, L: ExtractData>(
    hasher: D,
    extractor: L,
    a: Node<D::HashOutput, L::LeafData>,
    b: Node<D::HashOutput, L::LeafData>,
    inputs: Seq<L::Input>,
)
    requires
        is_complete_tree(hasher, extractor, a, inputs),
        is_complete_tree(hasher, extractor, b, inputs),
        forall|x: L::Input, d1: L::LeafData, d2: L::LeafData|
            #![trigger extractor.extracts(x, d1), extractor.extracts(x, d2)]
            extractor.extracts(x, d1) && extractor.extracts(x, d2) ==> d1 == d2,
    ensures
        leaves(a).len() == leaves(b).len() == inputs.len(),
        forall|i: int|
            0 <= i < inputs.len() ==> #[trigger] leaves(a)[i].spec_data() == leaves(
                b,
            )[i].spec_data(),
{
    lemma_complete_leaves_in_order(hasher, extractor, a, inputs, next_pow2(inputs.len()));
    lemma_complete_leaves_in_order(hasher, extractor, b, inputs, next_pow2(inputs.len()));
    assert forall|i: int| 0 <= i < inputs.len() implies #[trigger] leaves(a)[i].spec_data()
        == leaves(b)[i].spec_data() by {
        assert(is_leaf_of(hasher, extractor, leaves(a)[i], inputs[i]));
        assert(is_leaf_of(hasher, extractor, leaves(b)[i], inputs[i]));
    }
}

/// Leaf data agree, leaf for leaf, between two balanced (or full) trees
/// over the same inputs, where the extractor allows one result for each
/// input. Together with [`lemma_split_tree_unique`] this makes the parallel
/// and the sequential builds identical node for node.
pub proof fn lemma_split_tree_same_leaf_data<D: Hasher<L::Input>, L: ExtractData>(
    hasher: D,
    extractor: L,
    a: Node<D::HashOutput, L::LeafData>,
    b: Node<D::HashOutput, L::LeafData>,
    inputs: Seq<L::Input>,
    full: bool,
)
    requires
        is_split_tree(hasher, extractor, a, inputs, full),
        is_split_tree(hasher, extractor, b, inputs, full),
        forall|x: L::Input, d1: L::LeafData, d2: L::LeafData|
            #![trigger extractor.extracts(x, d1), extractor.extracts(x, d2)]
            extractor.extracts(x, d1) && extractor.extracts(x, d2) ==> d1 == d2,
    ensures
        leaves(a).len() == leaves(b).len() == inputs.len(),
        forall|i: int|
            0 <= i < inputs.len() ==> #[trigger] leaves(a)[i].spec_data() == leaves(
                b,
            )[i].spec_data(),
{
    lemma_split_leaves_in_order(hasher, extractor, a, inputs, full);
    lemma_split_leaves_in_order(hasher, extractor, b, inputs, full);
    assert forall|i: int| 0 <= i < inputs.len() implies #[trigger] leaves(a)[i].spec_data()
        == leaves(b)[i].spec_data() by {
        assert(is_leaf_of(hasher, extractor, leaves(a)[i], inputs[i]));
        assert(is_leaf_of(hasher, extractor, leaves(b)[i], inputs[i]));
    }
}

/// `n` is a perfect binary tree of the given depth: every hash node has
/// two children and every leaf lies at that depth.
pub open spec fn is_perfect<H, T>(n: Node<H, T>, depth: nat) -> bool
    decreases depth,
{
    if depth == 0 {
        n is Leaf
    } else {
        &&& n is Hash
        &&& n.spec_children().len() == 2
        &&& is_perfect(n.spec_children()[0], (depth - 1) as nat)
        &&& is_perfect(n.spec_children()[1], (depth - 1) as nat)
    }
}

/// A complete subtree that fills all of its `perfect` positions is a
/// perfect binary tree.
pub proof fn lemma_filled_complete_subtree_is_perfect<D: Hasher<L::Input>, L: ExtractData>(
    hasher: D,
    extractor: L,
    n: Node<D::HashOutput, L::LeafData>,
    inputs: Seq<L::Input>,
    perfect: nat,
)
    requires
        is_pow2(perfect),
        inputs.len() == perfect,
        is_complete_subtree(hasher, extractor, n, inputs, perfect),
    ensures
        is_perfect(n, log2(perfect)),
    decreases perfect,
{
    let half = perfect / 2;
    if perfect >= 2 {
        let c = n.spec_children();
        lemma_filled_complete_subtree_is_perfect(
            hasher,
            extractor,
            c[0],
            inputs.subrange(0, half as int),
            half,
        );
        lemma_filled_complete_subtree_is_perfect(
            hasher,
            extractor,
            c[1],
            inputs.subrange(half as int, perfect as int),
            half,
        );
        assert(log2(half) == log2(perfect) - 1);
    }
}

/// `n`, of the given depth, is packed to the left: along its rightmost
/// path, each hash node has either a single child, which continues the
/// path, or two children, the left one a perfect binary tree. So chain
/// nodes stand only at the right end of their level, and every node left
/// of the rightmost path is in a perfect subtree.
pub open spec fn is_left_packed<H, T>(n: Node<H, T>, depth: nat) -> bool
    decreases depth,
{
    if depth == 0 {
        n is Leaf
    } else if n is Leaf {
        false
    } else if n.spec_children().len() == 1 {
        is_left_packed(n.spec_children()[0], (depth - 1) as nat)
    } else {
        &&& n.spec_children().len() == 2
        &&& is_perfect(n.spec_children()[0], (depth - 1) as nat)
        &&& is_left_packed(n.spec_children()[1], (depth - 1) as nat)
    }
}

/// A complete subtree over `perfect` leaf positions is packed to the left.
pub proof fn lemma_complete_subtree_left_packed<D: Hasher<L::Input>, L: ExtractData>(
    hasher: D,
    extractor: L,
    n: Node<D::HashOutput, L::LeafData>,
    inputs: Seq<L::Input>,
    perfect: nat,
)
    requires
        is_pow2(perfect),
        is_complete_subtree(hasher, extractor, n, inputs, perfect),
    ensures
        is_left_packed(n, log2(perfect)),
    decreases perfect,
{
    let len = inputs.len();
    let half = perfect / 2;
    if perfect >= 2 {
        assert(log2(half) == log2(perfect) - 1);
        let c = n.spec_children();
        if len <= half {
            lemma_complete_subtree_left_packed(hasher, extractor, c[0], inputs, half);
        } else {
            lemma_filled_complete_subtree_is_perfect(
                hasher,
                extractor,
                c[0],
                inputs.subrange(0, half as int),
                half,
            );
            lemma_complete_subtree_left_packed(
                hasher,
                extractor,
                c[1],
                inputs.subrange(half as int, len as int),
                half,
            );
        }
    }
}

/// The complete tree over `inputs` is packed to the left, at the depth
/// shared by all of its leaves.
pub proof fn lemma_complete_tree_left_packed<D: Hasher<L::Input>, L: ExtractData>(
    hasher: D,
    extractor: L,
    n: Node<D::HashOutput, L::LeafData>,
    inputs: Seq<L::Input>,
)
    requires
        is_complete_tree(hasher, extractor, n, inputs),
    ensures
        is_left_packed(n, ceil_log2(inputs.len())),
{
    lemma_next_pow2_bounds(inputs.len());
    lemma_log2_next_pow2(inputs.len());
    lemma_complete_subtree_left_packed(hasher, extractor, n, inputs, next_pow2(inputs.len()));
}

/// For two or more inputs, the root of the complete tree has two children,
/// and its left subtree is a perfect binary tree, one level less deep than
/// the whole tree, over the first half of the leaf positions.
pub proof fn lemma_complete_tree_left_is_perfect<D: Hasher<L::Input>, L: ExtractData>(
    hasher: D,
    extractor: L,
    n: Node<D::HashOutput, L::LeafData>,
    inputs: Seq<L::Input>,
)
    requires
        inputs.len() >= 2,
        is_complete_tree(hasher, extractor, n, inputs),
    ensures
        n.spec_children().len() == 2,
        is_perfect(n.spec_children()[0], (ceil_log2(inputs.len()) - 1) as nat),
        leaves(n.spec_children()[0]).len() == next_pow2(inputs.len()) / 2,
{
    let len = inputs.len();
    let perfect = next_pow2(len);
    let half = perfect / 2;
    lemma_next_pow2_bounds(len);
    lemma_log2_next_pow2(len);
    assert(half < len);
    let left = inputs.subrange(0, half as int);
    lemma_filled_complete_subtree_is_perfect(hasher, extractor, n.spec_children()[0], left, half);
    lemma_complete_leaves_in_order(hasher, extractor, n.spec_children()[0], left, half);
    assert(log2(half) == log2(perfect) - 1);
}

/// Equality of trees goes by the root's kind and hash alone: replacing a
/// tree by one whose root has the same kind and hash, whatever the leaf
/// data under it, does not change what it compares equal to.
pub proof fn lemma_equality_ignores_leaf_data<H: PartialEq, T>(
    a: MerkleTree<H, T>,
    a2: MerkleTree<H, T>,
    b: MerkleTree<H, T>,
)
    requires
        a.spec_root() is Leaf <==> a2.spec_root() is Leaf,
        a.spec_root().spec_hash() == a2.spec_root().spec_hash(),
    ensures
        <MerkleTree<H, T> as PartialEqSpec>::eq_spec(&a, &b) == <MerkleTree<
            H,
            T,
        > as PartialEqSpec>::eq_spec(&a2, &b),
        <Node<H, T> as PartialEqSpec>::eq_spec(&a.spec_root(), &b.spec_root()) == <Node<
            H,
            T,
        > as PartialEqSpec>::eq_spec(&a2.spec_root(), &b.spec_root()),
{
}

} // verus!
