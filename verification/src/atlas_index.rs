//! Strongly-typed indices into a font's texture atlas.
use vstd::prelude::*;

verus! {

/// An index into the texture atlas of a font: a slot in the atlas layout's region list.
#[derive(Clone, Copy, Debug, Default, PartialEq, Eq, PartialOrd, Ord, Hash, Structural)]
pub struct AtlasIndex(pub(crate) usize);

impl AtlasIndex {
    /// The atlas slot as a number.
    pub closed spec fn spec_index(self) -> nat {
        self.0 as nat
    }

    /// The index of atlas slot `i`.
    pub(crate) fn new(i: usize) -> (r: AtlasIndex)
        ensures
            r.spec_index() == i,
    {
        AtlasIndex(i)
    }

    /// The atlas slot as a number.
    pub fn index(&self) -> (r: usize)
        ensures
            r == self.spec_index(),
    {
        self.0
    }
}

} // verus!
