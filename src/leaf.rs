//! Facilities for extracting leaf data.
//!
//! Merkle trees are not generally used to own the data they provide
//! hashing for, but information derived from input may need to be
//! associated with leaf nodes. The trait `ExtractData` and its
//! implementations provide versatile ways of retrieving leaf node data.
use vstd::prelude::*;

use std::marker::PhantomData;

verus! {

/// A way to extract data for leaf nodes of a Merkle tree.
pub trait ExtractData {
    /// The type of input data.
    type Input;

    /// The type of data stored in the leaf nodes.
    type LeafData;

    /// Whether `data` is a possible result of extracting leaf data from `input`.
    spec fn extracts(&self, input: Self::Input, data: Self::LeafData) -> bool;

    /// The extraction method for leaf data.
    fn extract_data(&self, input: Self::Input) -> (r: Self::LeafData)
        ensures
            self.extracts(input, r),
    ;
}

/// Used to build a no-data Merkle tree.
///
/// Trees built with this extractor contain only hashes in their leaf
/// nodes; the `data()` method of their `LeafNode` values returns the
/// empty unit value.
#[derive(Debug)]
pub struct NoData<In> {
    marker: PhantomData<In>,
}

impl<In> NoData<In> {
    /// The one value of the type.
    pub closed spec fn spec_value() -> Self {
        NoData { marker: PhantomData }
    }
}

impl<In> Default for NoData<In> {
    fn default() -> (r: Self)
        ensures
            r == Self::spec_value(),
    {
        NoData { marker: PhantomData }
    }
}

impl<In> Clone for NoData<In> {
    fn clone(&self) -> (r: Self)
        ensures
            r == Self::spec_value(),
    {
        NoData { marker: PhantomData }
    }
}

impl<In> ExtractData for NoData<In> {
    type Input = In;

    type LeafData = ();

    open spec fn extracts(&self, input: In, data: ()) -> bool {
        true
    }

    fn extract_data(&self, input: In) -> (r: ()) {
    }
}

/// Used to build a Merkle tree owning its input data.
///
/// Trees built with this extractor own the values passed as leaf
/// input. The `data()` method of their `LeafNode` values returns
/// a reference to the owned value.
#[derive(Debug)]
pub struct Owned<T> {
    marker: PhantomData<T>,
}

impl<T> Owned<T> {
    /// The one value of the type.
    pub closed spec fn spec_value() -> Self {
        Owned { marker: PhantomData }
    }
}

impl<T> Default for Owned<T> {
    fn default() -> (r: Self)
        ensures
            r == Self::spec_value(),
    {
        Owned { marker: PhantomData }
    }
}

impl<T> Clone for Owned<T> {
    fn clone(&self) -> (r: Self)
        ensures
            r == Self::spec_value(),
    {
        Owned { marker: PhantomData }
    }
}

impl<T> ExtractData for Owned<T> {
    type Input = T;

    type LeafData = T;

    open spec fn extracts(&self, input: T, data: T) -> bool {
        data == input
    }

    fn extract_data(&self, input: T) -> (r: T) {
        input
    }
}

/// An adapter structure used to fit closures to extract leaf node data.
///
/// The closure must accept every input value: this is the invariant of
/// the type, established by [`ExtractFn::with`].
#[derive(Debug)]
#[verifier::reject_recursive_types(In)]
#[verifier::reject_recursive_types(Out)]
pub struct ExtractFn<In, Out, F: Fn(In) -> Out> {
    extractor: F,
    phantom: PhantomData<(In, Out)>,
}

impl<In, Out, F: Fn(In) -> Out> ExtractFn<In, Out, F> {
    #[verifier::type_invariant]
    spec fn accepts_all(self) -> bool {
        forall|x: In| #[trigger] self.extractor.requires((x,))
    }

    /// The wrapped closure.
    pub closed spec fn spec_extractor(self) -> F {
        self.extractor
    }

    /// Create an instance of the extractor wrapping the closure
    /// passed as the parameter.
    pub fn with(extractor: F) -> (r: Self)
        requires
            forall|x: In| #[trigger] extractor.requires((x,)),
        ensures
            r.spec_extractor() == extractor,
    {
        ExtractFn { extractor, phantom: PhantomData }
    }
}

impl<In, Out, F: Fn(In) -> Out + Copy> Clone for ExtractFn<In, Out, F> {
    fn clone(&self) -> (r: Self)
        ensures
            r.spec_extractor() == self.spec_extractor(),
    {
        proof {
            use_type_invariant(self);
        }
        ExtractFn { extractor: self.extractor, phantom: PhantomData }
    }
}

impl<In, Out, F: Fn(In) -> Out> ExtractData for ExtractFn<In, Out, F> {
    type Input = In;

    type LeafData = Out;

    open spec fn extracts(&self, input: In, data: Out) -> bool {
        self.spec_extractor().ensures((input,), data)
    }

    fn extract_data(&self, input: In) -> (r: Out) {
        proof {
            use_type_invariant(self);
        }
        (self.extractor)(input)
    }
}

/// A helper function to create instances of `NoData`
/// with a more concise syntax.
pub fn no_data<In>() -> (r: NoData<In>)
    ensures
        r == NoData::<In>::spec_value(),
{
    NoData { marker: PhantomData }
}

/// A helper function to create instances of `Owned`
/// with a more concise syntax.
pub fn owned<In>() -> (r: Owned<In>)
    ensures
        r == Owned::<In>::spec_value(),
{
    Owned { marker: PhantomData }
}

/// A helper function to create function-based leaf data extractors.
///
/// A closure expression passed as the parameter that captures nothing
/// is `Copy`, so the returned extractor can be cloned.
pub fn extract_with<In, Out, F: Fn(In) -> Out>(extractor: F) -> (r: ExtractFn<In, Out, F>)
    requires
        forall|x: In| #[trigger] extractor.requires((x,)),
    ensures
        r.spec_extractor() == extractor,
{
    ExtractFn::with(extractor)
}

} // verus!
