//! A transparent hasher for tests and examples.
use vstd::prelude::*;

use crate::hash::{child_keys, Hasher, NodeHasher};
use crate::tree::Node;
use vstd::string::StringSliceAdditionalSpecFns;

verus! {

/// A hasher whose output shows how it was computed.
///
/// The hash of a leaf is the input bytes themselves. The hash of a hash
/// node concatenates, for each child in order, `>` followed by the hash of
/// a leaf child, or `#(`, the hash of a hash node child, and `)`.
#[derive(Clone, Copy, Debug, Default)]
pub struct MockHasher;

/// `>`, which precedes the hash of a leaf child.
pub const LEAF_MARK: u8 = 0x3e;

/// `#`, which opens the hash of a hash node child together with `(`.
pub const NODE_MARK: u8 = 0x23;

/// `(`.
pub const OPEN_PAREN: u8 = 0x28;

/// `)`, which closes the hash of a hash node child.
pub const CLOSE_PAREN: u8 = 0x29;

/// The part that one child contributes to the hash of its parent.
pub open spec fn mock_child_part(key: (bool, Seq<u8>)) -> Seq<u8> {
    if key.0 {
        seq![LEAF_MARK] + key.1
    } else {
        seq![NODE_MARK, OPEN_PAREN] + key.1 + seq![CLOSE_PAREN]
    }
}

/// The hash of a parent node under [`MockHasher`].
pub open spec fn mock_node_hash(children: Seq<(bool, Seq<u8>)>) -> Seq<u8>
    decreases children.len(),
{
    if children.len() == 0 {
        Seq::empty()
    } else {
        mock_node_hash(children.drop_last()) + mock_child_part(children.last())
    }
}

fn append_bytes(dump: &mut Vec<u8>, bytes: &[u8])
    ensures
        final(dump)@ == old(dump)@ + bytes@,
{
    let mut i: usize = 0;
    while i < bytes.len()
        invariant
            i <= bytes@.len(),
            dump@ == old(dump)@ + bytes@.subrange(0, i as int),
        decreases bytes@.len() - i,
    {
        dump.push(bytes[i]);
        i = i + 1;
        assert(bytes@.subrange(0, i as int) == bytes@.subrange(0, i - 1) + seq![bytes@[i - 1]]);
    }
    assert(bytes@.subrange(0, bytes@.len() as int) == bytes@);
}

fn copy_bytes(bytes: &[u8]) -> (r: Vec<u8>)
    ensures
        r@ == bytes@,
{
    let mut v: Vec<u8> = Vec::new();
    append_bytes(&mut v, bytes);
    v
}

impl NodeHasher for MockHasher {
    type HashOutput = Vec<u8>;

    open spec fn spec_hash_nodes(&self, children: Seq<(bool, Seq<u8>)>) -> Seq<u8> {
        mock_node_hash(children)
    }

    fn hash_nodes<T>(&self, children: &[Node<Vec<u8>, T>]) -> (r: Vec<u8>) {
        let ghost keys = child_keys(children@);
        let mut dump: Vec<u8> = Vec::new();
        let mut i: usize = 0;
        while i < children.len()
            invariant
                i <= children@.len(),
                keys == child_keys(children@),
                dump@ == mock_node_hash(keys.subrange(0, i as int)),
            decreases children@.len() - i,
        {
            let node = &children[i];
            assert(keys.subrange(0, i + 1).drop_last() == keys.subrange(0, i as int));
            match node {
                Node::Leaf(ln) => {
                    dump.push(LEAF_MARK);
                    append_bytes(&mut dump, ln.hash_bytes());
                },
                Node::Hash(hn) => {
                    dump.push(NODE_MARK);
                    dump.push(OPEN_PAREN);
                    append_bytes(&mut dump, hn.hash_bytes());
                    dump.push(CLOSE_PAREN);
                },
            }
            i = i + 1;
        }
        assert(keys.subrange(0, children@.len() as int) == keys);
        dump
    }
}

impl<'a> Hasher<&'a [u8]> for MockHasher {
    open spec fn spec_hash_input(&self, input: &'a [u8]) -> Seq<u8> {
        input@
    }

    fn hash_input(&self, input: &&'a [u8]) -> (r: Vec<u8>) {
        copy_bytes(*input)
    }
}

impl<'a> Hasher<&'a str> for MockHasher {
    open spec fn spec_hash_input(&self, input: &'a str) -> Seq<u8> {
        input.spec_bytes()
    }

    fn hash_input(&self, input: &&'a str) -> (r: Vec<u8>) {
        copy_bytes(input.as_bytes())
    }
}

impl Hasher<Vec<u8>> for MockHasher {
    open spec fn spec_hash_input(&self, input: Vec<u8>) -> Seq<u8> {
        input@
    }

    fn hash_input(&self, input: &Vec<u8>) -> (r: Vec<u8>) {
        copy_bytes(input.as_slice())
    }
}

impl<const N: usize> Hasher<[u8; N]> for MockHasher {
    open spec fn spec_hash_input(&self, input: [u8; N]) -> Seq<u8> {
        input@
    }

    fn hash_input(&self, input: &[u8; N]) -> (r: Vec<u8>) {
        copy_bytes(input.as_slice())
    }
}

} // verus!
