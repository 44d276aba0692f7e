use std::collections::hash_map::DefaultHasher;
use std::hash::{Hash, Hasher};

use mrkl::leaf;
use mrkl::parallel;
use mrkl::tree::parallel::Builder as ParallelBuilder;
use mrkl::tree::testmocks::MockHasher;
use mrkl::tree::{Builder, EmptyTree, MerkleTree, Node};

const PANDA: [&'static str; 3] = ["Panda eats,", "shoots,", "and leaves."];

fn inputs(n: usize) -> Vec<Vec<u8>> {
    (0..n).map(|i| format!("item{}", i).into_bytes()).collect()
}

fn leaf_data<'a>(node: &'a Node<Vec<u8>, Vec<u8>>, out: &mut Vec<&'a Vec<u8>>) {
    match node {
        Node::Leaf(ln) => out.push(ln.data()),
        Node::Hash(hn) => {
            for i in 0..hn.child_count() {
                leaf_data(hn.child_at(i), out);
            }
        }
    }
}

fn leaf_depths(node: &Node<Vec<u8>, Vec<u8>>, depth: usize, out: &mut Vec<usize>) {
    match node {
        Node::Leaf(_) => out.push(depth),
        Node::Hash(hn) => {
            for i in 0..hn.child_count() {
                leaf_depths(hn.child_at(i), depth + 1, out);
            }
        }
    }
}

fn assert_alike(a: &Node<Vec<u8>, Vec<u8>>, b: &Node<Vec<u8>, Vec<u8>>) {
    assert_eq!(a.hash_bytes(), b.hash_bytes());
    match (a, b) {
        (Node::Leaf(la), Node::Leaf(lb)) => assert_eq!(la.data(), lb.data()),
        (Node::Hash(ha), Node::Hash(hb)) => {
            assert_eq!(ha.child_count(), hb.child_count());
            for i in 0..ha.child_count() {
                assert_alike(ha.child_at(i), hb.child_at(i));
            }
        }
        _ => panic!("nodes of different kinds"),
    }
}

fn owned_builder() -> Builder<MockHasher, leaf::Owned<Vec<u8>>> {
    Builder::from_hasher_leaf_data(MockHasher, leaf::owned())
}

fn owned_parallel_builder() -> ParallelBuilder<MockHasher, leaf::Owned<Vec<u8>>> {
    ParallelBuilder::from_hasher_leaf_data(MockHasher, leaf::owned())
}

fn std_hash<V: Hash>(value: &V) -> u64 {
    let mut state = DefaultHasher::new();
    value.hash(&mut state);
    state.finish()
}

#[test]
fn every_empty_build_is_an_error() {
    let empty = || Vec::<Vec<u8>>::new();
    assert_eq!(owned_builder().complete_tree_from(empty()).unwrap_err(), EmptyTree);
    assert_eq!(owned_builder().balanced_tree_from(empty()).unwrap_err(), EmptyTree);
    assert_eq!(owned_builder().full_tree_from(empty()).unwrap_err(), EmptyTree);
    assert_eq!(owned_builder().collect_children_from(Vec::new()).unwrap_err(), EmptyTree);
    assert_eq!(owned_builder().finish().unwrap_err(), EmptyTree);
    assert_eq!(owned_parallel_builder().complete_tree_from(empty()).unwrap_err(), EmptyTree);
    assert_eq!(owned_parallel_builder().balanced_tree_from(empty()).unwrap_err(), EmptyTree);
    assert_eq!(owned_parallel_builder().full_tree_from(empty()).unwrap_err(), EmptyTree);
}

#[test]
fn empty_tree_messages() {
    assert_eq!(EmptyTree.description(), "empty Merkle tree");
    assert_eq!(EmptyTree.to_string(), "attempted to create an empty Merkle tree");
}

#[test]
fn a_single_input_is_a_leaf_in_every_shape() {
    let one = || vec![b"alone".to_vec()];
    let trees = vec![
        owned_builder().complete_tree_from(one()).unwrap(),
        owned_builder().balanced_tree_from(one()).unwrap(),
        owned_builder().full_tree_from(one()).unwrap(),
        owned_parallel_builder().complete_tree_from(one()).unwrap(),
        owned_parallel_builder().balanced_tree_from(one()).unwrap(),
        owned_parallel_builder().full_tree_from(one()).unwrap(),
    ];
    for tree in &trees {
        match tree.root() {
            Node::Leaf(ln) => {
                assert_eq!(ln.hash_bytes(), b"alone");
                assert_eq!(ln.data(), b"alone");
            }
            Node::Hash(_) => panic!("a single input was wrapped"),
        }
    }
    let mut builder = owned_builder();
    builder.push_leaf(b"alone".to_vec());
    let tree = builder.finish().unwrap();
    assert!(matches!(tree.root(), Node::Leaf(_)));
    assert_eq!(tree.root().hash_bytes(), b"alone");
}

#[test]
fn leaf_data_keep_the_input_order() {
    for n in 1..40 {
        let all = inputs(n);
        let trees = vec![
            owned_builder().complete_tree_from(all.clone()).unwrap(),
            owned_builder().balanced_tree_from(all.clone()).unwrap(),
            owned_builder().full_tree_from(all.clone()).unwrap(),
            owned_parallel_builder().complete_tree_from(all.clone()).unwrap(),
            owned_parallel_builder().balanced_tree_from(all.clone()).unwrap(),
            owned_parallel_builder().full_tree_from(all.clone()).unwrap(),
        ];
        for tree in &trees {
            let mut data = Vec::new();
            leaf_data(tree.root(), &mut data);
            let expected: Vec<&Vec<u8>> = all.iter().collect();
            assert_eq!(data, expected);
        }
    }
}

#[test]
fn parallel_and_sequential_trees_are_alike() {
    for n in 1..40 {
        let all = inputs(n);
        let pairs = vec![
            (
                owned_builder().complete_tree_from(all.clone()).unwrap(),
                owned_parallel_builder().complete_tree_from(all.clone()).unwrap(),
            ),
            (
                owned_builder().balanced_tree_from(all.clone()).unwrap(),
                owned_parallel_builder().balanced_tree_from(all.clone()).unwrap(),
            ),
            (
                owned_builder().full_tree_from(all.clone()).unwrap(),
                owned_parallel_builder().full_tree_from(all.clone()).unwrap(),
            ),
        ];
        for (sequential, parallel) in &pairs {
            assert_alike(sequential.root(), parallel.root());
            assert!(sequential == parallel);
        }
        let balanced = parallel::Builder::<MockHasher, _>::new()
            .build_balanced_from(all.clone())
            .unwrap();
        let sequential = Builder::<MockHasher, _>::new().balanced_tree_from(all.clone()).unwrap();
        assert_eq!(balanced.root().hash_bytes(), sequential.root().hash_bytes());
    }
}

#[test]
fn complete_tree_leaves_share_one_depth() {
    for n in 1..40usize {
        let tree = owned_builder().complete_tree_from(inputs(n)).unwrap();
        let mut depths = Vec::new();
        leaf_depths(tree.root(), 0, &mut depths);
        assert_eq!(depths.len(), n);
        let expected = n.next_power_of_two().trailing_zeros() as usize;
        assert!(depths.iter().all(|d| *d == expected));
    }
}

#[test]
fn complete_tree_of_three_chains_the_last_leaf() {
    let builder = Builder::<MockHasher, _>::new();
    let tree = builder.complete_tree_from(vec![&b"a"[..], b"b", b"c"]).unwrap();
    assert_eq!(tree.root().hash_bytes(), b"#(>a>b)#(>c)");
    if let Node::Hash(ref hn) = *tree.root() {
        assert_eq!(hn.child_count(), 2);
        if let Node::Hash(ref chain) = *hn.child_at(1) {
            assert_eq!(chain.child_count(), 1);
            assert_eq!(chain.hash_bytes(), b">c");
        } else {
            unreachable!()
        }
    } else {
        unreachable!()
    }
}

#[test]
fn balanced_and_full_shapes_of_five() {
    let five = || vec![&b"a"[..], b"b", b"c", b"d", b"e"];
    let balanced = Builder::<MockHasher, _>::new().balanced_tree_from(five()).unwrap();
    assert_eq!(balanced.root().hash_bytes(), b"#(#(>a>b)>c)#(>d>e)");
    let full = Builder::<MockHasher, _>::new().full_tree_from(five()).unwrap();
    assert_eq!(full.root().hash_bytes(), b"#(#(>a>b)#(>c>d))>e");
}

#[test]
fn equality_and_hashing_ignore_leaf_data() {
    let left = Builder::from_hasher_leaf_data(MockHasher, leaf::extract_with(|_: &str| 1u8));
    let right = Builder::from_hasher_leaf_data(MockHasher, leaf::extract_with(|_: &str| 2u8));
    let a = left.complete_tree_from(PANDA.to_vec()).unwrap();
    let b = right.complete_tree_from(PANDA.to_vec()).unwrap();
    assert!(a == b);
    assert!(a.root() == b.root());
    assert_eq!(std_hash(&a), std_hash(&b));
    assert_eq!(std_hash(a.root()), std_hash(b.root()));
    let leaf_a = left.make_leaf("x");
    let leaf_b = right.make_leaf("x");
    match (leaf_a.root(), leaf_b.root()) {
        (Node::Leaf(la), Node::Leaf(lb)) => {
            assert!(la == lb);
            assert_ne!(la.data(), lb.data());
            assert_eq!(std_hash(la), std_hash(lb));
        }
        _ => unreachable!(),
    }
    let c = left.complete_tree_from(vec!["other"]).unwrap();
    assert!(a != c);
    assert_ne!(std_hash(&a), std_hash(&c));
}

#[test]
fn a_leaf_never_equals_a_hash_node_with_the_same_hash() {
    let builder = Builder::<MockHasher, _>::new();
    let leaf = builder.make_leaf(&b">x"[..]);
    let node = builder.chain_lone_child(builder.make_leaf(&b"x"[..]));
    assert_eq!(leaf.root().hash_bytes(), node.root().hash_bytes());
    assert!(leaf != node);
}

#[test]
fn panda_root_hash_is_reproducible() {
    let expected: &[u8] = b"#(>Panda eats,>shoots,)#(>and leaves.)";
    for _ in 0..3 {
        let sequential = Builder::<MockHasher, _>::new().complete_tree_from(PANDA.to_vec()).unwrap();
        let parallel = ParallelBuilder::<MockHasher, _>::new()
            .complete_tree_from(PANDA.to_vec())
            .unwrap();
        assert_eq!(sequential.root().hash_bytes(), expected);
        assert_eq!(parallel.root().hash_bytes(), expected);
    }
}

#[test]
fn incremental_building() {
    let mut builder = owned_builder();
    builder.push_leaf(b"a".to_vec());
    builder.extend_leaves(vec![b"b".to_vec(), b"c".to_vec()]);
    let tree = builder.finish().unwrap();
    assert_eq!(tree.root().hash_bytes(), b">a>b>c");
    let mut data = Vec::new();
    leaf_data(tree.root(), &mut data);
    assert_eq!(data, vec![&b"a".to_vec(), &b"b".to_vec(), &b"c".to_vec()]);

    let mut builder = owned_builder();
    let sub = owned_builder().complete_tree_from(vec![b"x".to_vec(), b"y".to_vec()]).unwrap();
    builder.push_leaf(b"w".to_vec());
    builder.push_tree(sub);
    let tree = builder.finish().unwrap();
    assert_eq!(tree.root().hash_bytes(), b">w#(>x>y)");

    let mut builder = owned_builder();
    let sub: MerkleTree<Vec<u8>, Vec<u8>> =
        owned_builder().complete_tree_from(vec![b"x".to_vec(), b"y".to_vec()]).unwrap();
    builder.push_tree(sub);
    let tree = builder.finish().unwrap();
    assert_eq!(tree.root().hash_bytes(), b">x>y");
}

#[test]
fn collecting_one_child_makes_a_chain() {
    let builder = Builder::<MockHasher, _>::new();
    let tree = builder.collect_children_from(vec![builder.make_leaf(&b"z"[..])]).unwrap();
    assert_eq!(tree.root().hash_bytes(), b">z");
    assert!(matches!(tree.root(), Node::Hash(_)));
}

#[test]
fn children_walk_from_both_ends() {
    let builder = Builder::<MockHasher, _>::new();
    let leaves = vec![
        builder.make_leaf(&b"1"[..]),
        builder.make_leaf(&b"2"[..]),
        builder.make_leaf(&b"3"[..]),
    ];
    let tree = builder.collect_children_from(leaves).unwrap();
    if let Node::Hash(ref hn) = *tree.root() {
        let mut iter = hn.children();
        assert_eq!(iter.len(), 3);
        let mut again = iter.clone();
        assert_eq!(again.next().unwrap().hash_bytes(), b"1");
        assert_eq!(again.len(), 2);
        assert_eq!(iter.next_back().unwrap().hash_bytes(), b"3");
        assert_eq!(iter.next().unwrap().hash_bytes(), b"1");
        assert_eq!(iter.len(), 1);
        assert_eq!(iter.next().unwrap().hash_bytes(), b"2");
        assert!(iter.next().is_none());
        assert!(iter.next_back().is_none());
        assert_eq!(hn.child_count(), 3);
    } else {
        unreachable!()
    }
}

#[test]
fn new_builders_hash_with_the_default_hasher_and_keep_no_data() {
    let sequential = Builder::<MockHasher, _>::new().complete_tree_from(vec![&b"q"[..]]).unwrap();
    let parallel = ParallelBuilder::<MockHasher, _>::new().complete_tree_from(vec![&b"q"[..]]).unwrap();
    let balanced = parallel::Builder::<MockHasher, _>::new()
        .build_balanced_from(vec![&b"q"[..]])
        .unwrap();
    for tree in [&sequential, &parallel, &balanced] {
        match tree.root() {
            Node::Leaf(ln) => {
                assert_eq!(ln.hash_bytes(), b"q");
                assert_eq!(ln.data(), &());
            }
            Node::Hash(_) => unreachable!(),
        }
    }
}

fn is_perfect(node: &Node<Vec<u8>, Vec<u8>>, depth: usize) -> bool {
    match node {
        Node::Leaf(_) => depth == 0,
        Node::Hash(hn) => {
            depth > 0
                && hn.child_count() == 2
                && is_perfect(hn.child_at(0), depth - 1)
                && is_perfect(hn.child_at(1), depth - 1)
        }
    }
}

fn is_left_packed(node: &Node<Vec<u8>, Vec<u8>>, depth: usize) -> bool {
    match node {
        Node::Leaf(_) => depth == 0,
        Node::Hash(hn) => {
            depth > 0
                && match hn.child_count() {
                    1 => is_left_packed(hn.child_at(0), depth - 1),
                    2 => is_perfect(hn.child_at(0), depth - 1) && is_left_packed(hn.child_at(1), depth - 1),
                    _ => false,
                }
        }
    }
}

#[test]
fn complete_trees_are_packed_to_the_left() {
    for n in 1..40usize {
        let depth = n.next_power_of_two().trailing_zeros() as usize;
        let sequential = owned_builder().complete_tree_from(inputs(n)).unwrap();
        let parallel = owned_parallel_builder().complete_tree_from(inputs(n)).unwrap();
        assert!(is_left_packed(sequential.root(), depth));
        assert!(is_left_packed(parallel.root(), depth));
    }
}
