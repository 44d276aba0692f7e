use mrkl::leaf;
use mrkl::tree::testmocks::MockHasher;
use mrkl::tree::{Builder, Node};

const TEST_DATA: &'static [u8] = b"The quick brown fox jumps over the lazy dog";

const TEST_STRS: [&'static str; 3] = ["Panda eats,", "shoots,", "and leaves."];

fn chunks(size: usize) -> Vec<&'static [u8]> {
    TEST_DATA.chunks(size).collect()
}

#[test]
fn builder_no_data_fixed_size_array() {
    let builder = Builder::<MockHasher, _>::new();
    let tree = builder.make_leaf([1u8, 2u8, 3u8, 4u8]);
    assert_eq!(tree.root().hash_bytes(), &[1, 2, 3, 4]);
}

#[test]
fn builder_with_owned_leaves() {
    let hasher = MockHasher::default();
    let builder = Builder::from_hasher_leaf_data(hasher, leaf::owned());
    let tree = builder.make_leaf([1u8, 2u8, 3u8, 4u8]);
    if let Node::Leaf(ref ln) = *tree.root() {
        assert_eq!(ln.hash_bytes(), &[1, 2, 3, 4]);
        assert_eq!(ln.data(), &[1, 2, 3, 4]);
    } else {
        unreachable!()
    }
}

#[test]
fn builder_leaf_extract_with_plain_fn() {
    let hasher = MockHasher::default();
    let builder =
        Builder::from_hasher_leaf_data(hasher, leaf::extract_with(|s: [u8; 4]| s.len()));
    let tree = builder.make_leaf([0u8, 1u8, 2u8, 3u8]);
    if let Node::Leaf(ref ln) = *tree.root() {
        assert_eq!(ln.hash_bytes(), &[0, 1, 2, 3]);
        assert_eq!(*ln.data(), 4);
    } else {
        unreachable!()
    }
}

#[test]
fn builder_leaf_extract_with_closure() {
    let hasher = MockHasher::default();
    let off = 42;
    let builder = Builder::from_hasher_leaf_data(
        hasher,
        leaf::ExtractFn::with(|s: [u8; 4]| s.len() + off),
    );
    let tree = builder.make_leaf([0u8, 1u8, 2u8, 3u8]);
    if let Node::Leaf(ref ln) = *tree.root() {
        assert_eq!(ln.hash_bytes(), &[0, 1, 2, 3]);
        assert_eq!(*ln.data(), 46);
    } else {
        unreachable!()
    }
}

#[test]
fn builder_over_nonstatic_slice() {
    let v = Vec::from(TEST_DATA);
    let builder = Builder::<MockHasher, leaf::NoData<&[u8]>>::new();
    let tree = builder.make_leaf(&v[..]);
    assert_eq!(tree.root().hash_bytes(), TEST_DATA);
}

#[test]
fn two_leaves_make_a_tree() {
    let hasher = MockHasher::default();
    let builder =
        Builder::from_hasher_leaf_data(hasher, leaf::extract_with(|s: &str| s.to_string()));
    let left_leaf = builder.make_leaf("eats shoots");
    let right_leaf = builder.make_leaf("and leaves");
    let tree = builder.join(left_leaf, right_leaf);
    if let Node::Hash(ref hn) = *tree.root() {
        assert_eq!(hn.hash_bytes(), b">eats shoots>and leaves");
        let child = hn.child_at(0);
        if let Node::Leaf(ref ln) = *child {
            assert_eq!(ln.hash_bytes(), b"eats shoots");
            assert_eq!(ln.data(), "eats shoots");
        } else {
            unreachable!()
        }
        let child = hn.child_at(1);
        if let Node::Leaf(ref ln) = *child {
            assert_eq!(ln.hash_bytes(), b"and leaves");
            assert_eq!(ln.data(), "and leaves");
        } else {
            unreachable!()
        }
    } else {
        unreachable!()
    }
}

#[test]
#[should_panic]
fn child_out_of_range() {
    let hasher = MockHasher::default();
    let builder = Builder::from_hasher_leaf_data(hasher, leaf::no_data());
    let child = builder.make_leaf("eats shoots");
    let tree = builder.chain_lone_child(child);
    if let Node::Hash(ref hn) = *tree.root() {
        let _child = hn.child_at(1);
    } else {
        unreachable!()
    }
}

#[test]
fn collect_children_for_arbitrary_arity_tree() {
    let hasher = MockHasher::default();
    let builder =
        Builder::from_hasher_leaf_data(hasher, leaf::extract_with(|s: &str| s.to_string()));
    let leaves: Vec<_> = TEST_STRS.iter().map(|s| builder.make_leaf(s)).collect();
    let tree = builder.collect_children_from(leaves).unwrap();
    if let Node::Hash(ref hn) = *tree.root() {
        assert_eq!(hn.hash_bytes(), b">Panda eats,>shoots,>and leaves.");
        let mut iter = hn.children();
        assert!(iter.len() > 0);
        let mut i = 0;
        while let Some(child) = iter.next() {
            if let Node::Leaf(ref ln) = *child {
                assert_eq!(ln.hash_bytes(), TEST_STRS[i].as_bytes());
                assert_eq!(ln.data(), TEST_STRS[i]);
            } else {
                unreachable!()
            }
            i += 1;
        }
        assert_eq!(i, 3);
    } else {
        unreachable!()
    }
}

#[test]
fn stack_trees() {
    fn leaf_extractor(s: &str) -> String {
        s.to_string()
    }

    let builder =
        Builder::from_hasher_leaf_data(MockHasher::default(), leaf::extract_with(leaf_extractor));
    let left = builder.make_leaf("shoots,");
    let right = builder.make_leaf("and leaves.");
    let subtree = builder.join(left, right);
    let left = builder.make_leaf("Panda eats,");
    let tree = builder.join(left, subtree);
    if let Node::Hash(ref hn) = *tree.root() {
        let expected: &[u8] = b">Panda eats,#(>shoots,>and leaves.)";
        assert_eq!(hn.hash_bytes(), expected);
        let child = hn.child_at(0);
        if let Node::Leaf(ref ln) = *child {
            assert_eq!(ln.hash_bytes(), b"Panda eats,");
            assert_eq!(ln.data(), "Panda eats,");
        } else {
            unreachable!()
        }
        let child = hn.child_at(1);
        if let Node::Hash(ref hn) = *child {
            assert_eq!(hn.hash_bytes(), b">shoots,>and leaves.");
            let child = hn.child_at(0);
            if let Node::Leaf(ref ln) = *child {
                assert_eq!(ln.hash_bytes(), b"shoots,");
                assert_eq!(ln.data(), "shoots,");
            } else {
                unreachable!()
            }
            let child = hn.child_at(1);
            if let Node::Leaf(ref ln) = *child {
                assert_eq!(ln.hash_bytes(), b"and leaves.");
                assert_eq!(ln.data(), "and leaves.");
            } else {
                unreachable!()
            }
        } else {
            unreachable!()
        }
    } else {
        unreachable!()
    }
}

#[test]
fn builder_complete_tree_from_empty() {
    let builder = Builder::<MockHasher, _>::new();
    builder.complete_tree_from(Vec::<[u8; 1]>::new()).unwrap_err();
}

#[test]
fn complete_tree_with_no_leaf_data() {
    let builder = Builder::<MockHasher, _>::new();
    let tree = builder.complete_tree_from(chunks(15)).unwrap();
    if let Node::Hash(ref hn) = *tree.root() {
        let expected: &[u8] = b"#(>The quick brown> fox jumps over)\
                                #(> the lazy dog)";
        assert_eq!(hn.hash_bytes(), expected);
    } else {
        unreachable!()
    }
}

#[test]
fn complete_tree_with_owned_leaf_data() {
    let builder = Builder::from_hasher_leaf_data(MockHasher::default(), leaf::owned::<Vec<u8>>());
    let input: Vec<Vec<u8>> = TEST_DATA.chunks(15).map(|s| s.to_vec()).collect();
    let tree = builder.complete_tree_from(input).unwrap();
    if let Node::Hash(ref hn) = *tree.root() {
        let expected: &[u8] = b"#(>The quick brown> fox jumps over)\
                                #(> the lazy dog)";
        assert_eq!(hn.hash_bytes(), expected);
        assert_eq!(hn.children().len(), 2);
        if let Node::Hash(ref hn) = *hn.child_at(1) {
            assert_eq!(hn.children().len(), 1);
            if let Node::Leaf(ref ln) = *hn.child_at(0) {
                assert_eq!(ln.hash_bytes(), b" the lazy dog");
                assert_eq!(ln.data(), b" the lazy dog");
            } else {
                unreachable!()
            }
        } else {
            unreachable!()
        }
    } else {
        unreachable!()
    }
}

#[test]
fn complete_tree_using_leaf_extract_with() {
    let builder = Builder::from_hasher_leaf_data(
        MockHasher::default(),
        leaf::extract_with(|s: &[u8]| s[1]),
    );
    let tree = builder.complete_tree_from(chunks(15)).unwrap();
    if let Node::Hash(ref hn) = *tree.root() {
        let expected: &[u8] = b"#(>The quick brown> fox jumps over)\
                                #(> the lazy dog)";
        assert_eq!(hn.hash_bytes(), expected);
        if let Node::Hash(ref hn) = *hn.child_at(0) {
            if let Node::Leaf(ref ln) = *hn.child_at(1) {
                assert_eq!(ln.hash_bytes(), b" fox jumps over");
                assert_eq!(*ln.data(), b'f');
            } else {
                unreachable!()
            }
        } else {
            unreachable!()
        }
    } else {
        unreachable!()
    }
}

#[test]
fn complete_tree_using_leaf_extract_closure() {
    let off = 1;
    let builder = Builder::from_hasher_leaf_data(
        MockHasher::default(),
        leaf::ExtractFn::with(|s: &[u8]| s[1] + off),
    );
    let tree = builder.complete_tree_from(chunks(15)).unwrap();
    if let Node::Hash(ref hn) = *tree.root() {
        let expected: &[u8] = b"#(>The quick brown> fox jumps over)\
                                #(> the lazy dog)";
        assert_eq!(hn.hash_bytes(), expected);
        if let Node::Hash(ref hn) = *hn.child_at(0) {
            if let Node::Leaf(ref ln) = *hn.child_at(1) {
                assert_eq!(ln.hash_bytes(), b" fox jumps over");
                assert_eq!(*ln.data(), b'g');
            } else {
                unreachable!()
            }
        } else {
            unreachable!()
        }
    } else {
        unreachable!()
    }
}

#[test]
fn builder_complete_tree_is_subgraph_of_its_math_definition() {
    let builder = Builder::<MockHasher, _>::new();
    let tree = builder.complete_tree_from(chunks(10)).unwrap();
    if let Node::Hash(ref hn) = *tree.root() {
        let expected: &[u8] = b"#(#(>The quick >brown fox )#(>jumps over> the lazy ))\
                                #(#(>dog))";
        assert_eq!(hn.hash_bytes(), expected);
        assert_eq!(hn.children().len(), 2);
        if let Node::Hash(ref hn) = *hn.child_at(1) {
            assert_eq!(hn.hash_bytes(), b"#(>dog)");
            assert_eq!(hn.children().len(), 1);
            if let Node::Hash(ref hn) = *hn.child_at(0) {
                assert_eq!(hn.hash_bytes(), b">dog");
                assert_eq!(hn.children().len(), 1);
                if let Node::Leaf(ref ln) = *hn.child_at(0) {
                    assert_eq!(ln.hash_bytes(), b"dog");
                } else {
                    unreachable!()
                }
            } else {
                unreachable!()
            }
        } else {
            unreachable!()
        }
    } else {
        unreachable!()
    }
}
