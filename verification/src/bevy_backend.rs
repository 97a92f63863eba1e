//! The glyph data of the Bevy backend, as plain values.
//!
//! The Bevy backend stores glyph regions in a texture atlas layout and the glyph offsets beside
//! it, both indexed by atlas slot. [`split_glyphs`] turns the builder's glyph list into those
//! two lists, and [`BevyAtlas`] reads a glyph back from them.
use vstd::prelude::*;

use crate::atlas_index::AtlasIndex;
use crate::backend::SpriteSheet;
use crate::builder::UTokenProps;
use crate::geometry::{IVec2, URect};

verus! {

/// The regions and offsets of the glyphs of a font, borrowed from where they are stored.
pub struct BevyAtlas<'f, 'r> {
    regions: &'r [URect],
    offsets: &'f [IVec2],
}

impl<'f, 'r> BevyAtlas<'f, 'r> {
    /// The glyph regions, by atlas slot.
    pub closed spec fn regions(&self) -> Seq<URect> {
        self.regions@
    }

    /// The glyph offsets, by atlas slot.
    pub closed spec fn offsets(&self) -> Seq<IVec2> {
        self.offsets@
    }

    /// A view of the given regions and offsets.
    pub fn new(regions: &'r [URect], offsets: &'f [IVec2]) -> (r: Self)
        ensures
            r.regions() == regions@,
            r.offsets() == offsets@,
    {
        BevyAtlas { regions, offsets }
    }
}

impl<'f, 'r> SpriteSheet for BevyAtlas<'f, 'r> {
    /// The glyph of a slot held by both lists; `None` when either list is too short, which
    /// means that the font and the resources do not belong together.
    open spec fn spec_props(&self, index: AtlasIndex) -> Option<UTokenProps> {
        if index.spec_index() < self.regions().len() && index.spec_index() < self.offsets().len() {
            Some(
                UTokenProps {
                    region: self.regions()[index.spec_index() as int],
                    offset: self.offsets()[index.spec_index() as int],
                },
            )
        } else {
            None
        }
    }

    fn props(&self, index: &AtlasIndex) -> (r: Option<UTokenProps>) {
        let i = index.index();
        if i < self.regions.len() && i < self.offsets.len() {
            Some(UTokenProps { region: self.regions[i], offset: self.offsets[i] })
        } else {
            None
        }
    }
}

/// The regions and the offsets of a glyph list, in the same order.
pub fn split_glyphs(glyphs: Vec<UTokenProps>) -> (r: (Vec<URect>, Vec<IVec2>))
    ensures
        r.0@.len() == glyphs@.len(),
        r.1@.len() == glyphs@.len(),
        forall|i: int|
            0 <= i < glyphs@.len() ==> r.0@[i] == (#[trigger] glyphs@[i]).region && r.1@[i]
                == glyphs@[i].offset,
{
    let mut regions: Vec<URect> = Vec::new();
    let mut offsets: Vec<IVec2> = Vec::new();
    let mut i: usize = 0;
    while i < glyphs.len()
        invariant
            i <= glyphs@.len(),
            regions@.len() == i,
            offsets@.len() == i,
            forall|k: int|
                0 <= k < i ==> regions@[k] == (#[trigger] glyphs@[k]).region && offsets@[k]
                    == glyphs@[k].offset,
        decreases glyphs.len() - i,
    {
        regions.push(glyphs[i].region);
        offsets.push(glyphs[i].offset);
        i = i + 1;
    }
    (regions, offsets)
}

/// An atlas made of the regions and offsets of a glyph list, slot by slot (as `split_glyphs`
/// makes them), gives back each slot's glyph whole, region and offset, and nothing for a slot
/// past the list.
pub proof fn lemma_split_atlas_gives_glyphs(atlas: BevyAtlas, glyphs: Seq<UTokenProps>)
    requires
        atlas.regions().len() == glyphs.len(),
        atlas.offsets().len() == glyphs.len(),
        forall|i: int|
            0 <= i < glyphs.len() ==> atlas.regions()[i] == (#[trigger] glyphs[i]).region
                && atlas.offsets()[i] == glyphs[i].offset,
    ensures
        forall|index: AtlasIndex|
            #[trigger] atlas.spec_props(index) == if index.spec_index() < glyphs.len() {
                Some(glyphs[index.spec_index() as int])
            } else {
                None
            },
{
    assert forall|index: AtlasIndex| #[trigger] atlas.spec_props(index) == if index.spec_index()
        < glyphs.len() {
        Some(glyphs[index.spec_index() as int])
    } else {
        None
    } by {
        if index.spec_index() < glyphs.len() {
            let g = glyphs[index.spec_index() as int];
            assert(atlas.regions()[index.spec_index() as int] == g.region);
        }
    }
}

} // verus!
