//! Backend-agnostic font data.
//!
//! A [`RasterFont`] holds glyph bindings and the resources of a rendering backend, but draws
//! nothing by itself. A backend implements:
//!
//! - [`Backend`]: a tag type that names the backend's atlas, image and resource types;
//! - [`BackendBuilder`]: turns a [`RawFont`] from the builder into [`Backend::Resources`];
//! - [`SpriteSheet`]: resolves an [`AtlasIndex`] to the [`UTokenProps`] of a glyph.
//!
//! A font whose resources are a [`SpriteSheet`] resolves input through
//! [`InputResolver`](crate::tree::InputResolver). When the resources live elsewhere, a
//! [`FontResourceProvider`] upgrades the font to a [`RasterFontCtx`] that borrows them.
use vstd::prelude::*;

use std::marker::PhantomData;

use crate::atlas_index::AtlasIndex;
use crate::builder::{RawFont, UTokenProps};
use crate::token::Sequence;
use crate::tree::{
    automaton_builds, binding_patterns, binding_values, AsLigatureTree, LigatureBindingError,
    LigatureTree, MapLigature,
};

verus! {

/// The type family of a rendering backend, named by a tag type.
pub trait Backend {
    type Atlas;
    type Image;
    /// The backend's render resources, stored in every [`RasterFont`] of the backend.
    type Resources;
}

/// Turns the raw output of the font builder into a backend's resources.
pub trait BackendBuilder {
    /// The backend this builder targets.
    type Backend: Backend;
    /// Why building the resources failed.
    type Error;
    /// The raw image type of the glyph sheet.
    type Sheet;

    /// Whether `res` is what this builder makes of `raw_font`.
    ///
    /// What a backend makes of the raw font is its own affair. Unless an implementation states
    /// it, the relation is left unstated to callers.
    closed spec fn built(&self, raw_font: RawFont<Self::Sheet>, res: <Self::Backend as Backend>::Resources) -> bool {
        true
    }

    /// Whether this builder fails with `e` on `raw_font`.
    ///
    /// Unless an implementation states it, the relation is left unstated to callers.
    closed spec fn refused(&self, raw_font: RawFont<Self::Sheet>, e: Self::Error) -> bool {
        true
    }

    /// Converts the packed glyph sheet and glyph list into the backend's resources.
    fn build_resources(self, raw_font: RawFont<Self::Sheet>) -> (r: Result<
        <Self::Backend as Backend>::Resources,
        Self::Error,
    >)
        ensures
            r matches Ok(res) ==> self.built(raw_font, res),
            r matches Err(e) ==> self.refused(raw_font, e),
    ;
}

/// Glyph data (region and offset) by atlas slot.
pub trait SpriteSheet {
    /// The glyph of atlas slot `index`, or `None` when the slot is outside the sheet.
    spec fn spec_props(&self, index: AtlasIndex) -> Option<UTokenProps>;

    fn props(&self, index: &AtlasIndex) -> (r: Option<UTokenProps>)
        ensures
            r == self.spec_props(*index),
    ;
}

/// A glyph list indexed by atlas slot is a sprite sheet.
impl SpriteSheet for Vec<UTokenProps> {
    open spec fn spec_props(&self, index: AtlasIndex) -> Option<UTokenProps> {
        if index.spec_index() < self@.len() {
            Some(self@[index.spec_index() as int])
        } else {
            None
        }
    }

    fn props(&self, index: &AtlasIndex) -> (r: Option<UTokenProps>) {
        let i = index.index();
        if i < self.len() {
            Some(self[i])
        } else {
            None
        }
    }
}

/// Lends a [`RasterFont`] the resources it does not hold itself.
pub trait FontResourceProvider {
    type Backend: Backend;
    type Error;
    type Output<'f, 'r>: SpriteSheet where Self: 'r;

    /// Whether `out` is a view this provider lends for the held resources `res_in`.
    ///
    /// Where the lent resources come from is the provider's affair. Unless an implementation
    /// states it, the relation is left unstated to callers.
    closed spec fn lends<'f, 'r>(
        &'r self,
        res_in: <Self::Backend as Backend>::Resources,
        out: Self::Output<'f, 'r>,
    ) -> bool {
        true
    }

    /// Whether the provider fails with `e` for the held resources `res_in`.
    ///
    /// Unless an implementation states it, the relation is left unstated to callers.
    closed spec fn refuses(&self, res_in: <Self::Backend as Backend>::Resources, e: Self::Error) -> bool {
        true
    }

    /// A borrowed view of the resources for a font's held resources, or why none can be made.
    fn upgrade_font<'f, 'r>(&'r self, res_in: &'f <Self::Backend as Backend>::Resources) -> (r:
        Result<Self::Output<'f, 'r>, Self::Error>)
        ensures
            r matches Ok(out) ==> self.lends(*res_in, out),
            r matches Err(e) ==> self.refuses(*res_in, e),
    ;
}

// ----------------------------------------------------------------------------------------------
// Bindings
// ----------------------------------------------------------------------------------------------

/// Bindings as `(sequence, atlas slot)` values.
pub open spec fn bindings_view(v: Seq<(Sequence, AtlasIndex)>) -> Seq<(Seq<char>, nat)> {
    v.map_values(|e: (Sequence, AtlasIndex)| (e.0@, e.1.spec_index()))
}

/// The slot of the first binding of `q`.
pub open spec fn first_binding(b: Seq<(Seq<char>, nat)>, q: Seq<char>) -> Option<nat>
    decreases b.len(),
{
    if b.len() == 0 {
        None
    } else if b[0].0 == q {
        Some(b[0].1)
    } else {
        first_binding(b.drop_first(), q)
    }
}

/// Whether pattern `p` with value `v` is the binding of some sequence of `map`.
pub open spec fn binds_as(map: Map<Seq<char>, nat>, p: Seq<u8>, v: AtlasIndex) -> bool {
    exists|q: Seq<char>|
        #[trigger] map.contains_key(q) && p == vstd::utf8::encode_utf8(q) && v.spec_index() == map[q]
}

/// Whether patterns and values list the bindings of `map` once each: every pattern is the UTF-8
/// encoding of a bound sequence and its value that sequence's slot, and every bound sequence has
/// a pattern.
pub open spec fn lists_bindings(
    ps: Seq<Seq<u8>>,
    vs: Seq<AtlasIndex>,
    map: Map<Seq<char>, nat>,
) -> bool {
    &&& ps.len() == vs.len()
    &&& ps.no_duplicates()
    &&& forall|j: int| 0 <= j < ps.len() ==> #[trigger] binds_as(map, ps[j], vs[j])
    &&& forall|q: Seq<char>| #[trigger]
        map.contains_key(q) ==> exists|j: int|
            0 <= j < ps.len() && ps[j] == vstd::utf8::encode_utf8(q)
}

/// Equal encodings come from equal character sequences.
pub proof fn lemma_encode_injective(a: Seq<char>, b: Seq<char>)
    requires
        vstd::utf8::encode_utf8(a) == vstd::utf8::encode_utf8(b),
    ensures
        a == b,
{
    vstd::utf8::encode_utf8_decode_utf8(a);
    vstd::utf8::encode_utf8_decode_utf8(b);
}

/// Distinct-key bindings, turned into patterns and values, list their map's bindings.
pub proof fn lemma_entries_list_bindings(v: Seq<(Sequence, AtlasIndex)>)
    requires
        crate::builder::scratch::distinct_entries(v),
    ensures
        lists_bindings(binding_patterns(v), binding_values(v), crate::builder::scratch::entries_map(v)),
{
    let ps = binding_patterns(v);
    let vs = binding_values(v);
    let map = crate::builder::scratch::entries_map(v);
    assert forall|a: int, b: int| 0 <= a < ps.len() && 0 <= b < ps.len() && a != b implies ps[a]
        != ps[b] by {
        if ps[a] == ps[b] {
            lemma_encode_injective(v[a].0@, v[b].0@);
            if a < b {
                assert(v[a].0@ != v[b].0@);
            } else {
                assert(v[b].0@ != v[a].0@);
            }
        }
    }
    assert forall|j: int| 0 <= j < ps.len() implies #[trigger] binds_as(map, ps[j], vs[j]) by {
        crate::builder::scratch::lemma_entries_lookup(v, j);
        let q = v[j].0@;
        assert(map.contains_key(q));
        assert(ps[j] == vstd::utf8::encode_utf8(q));
        assert(vs[j].spec_index() == map[q]);
    }
    assert forall|q: Seq<char>| #[trigger] map.contains_key(q) implies exists|j: int|
        0 <= j < ps.len() && ps[j] == vstd::utf8::encode_utf8(q) by {
        let a = choose|a: int| 0 <= a < v.len() && (#[trigger] v[a]).0@ == q;
        assert(ps[a] == vstd::utf8::encode_utf8(q));
    }
}

/// A bound sequence given on its own as input resolves to its own slot: the longest match at
/// the start of the input is the whole input.
pub proof fn lemma_bound_sequence_resolves(
    ps: Seq<Seq<u8>>,
    vs: Seq<AtlasIndex>,
    map: Map<Seq<char>, nat>,
    q: Seq<char>,
)
    requires
        lists_bindings(ps, vs, map),
        map.contains_key(q),
    ensures
        crate::tree::leftmost_longest(ps, vstd::utf8::encode_utf8(q), 0) matches Some((k, s, e))
            && s == 0 && e == vstd::utf8::encode_utf8(q).len() && vs[k].spec_index() == map[q],
{
    let h = vstd::utf8::encode_utf8(q);
    let j = choose|j: int| 0 <= j < ps.len() && ps[j] == h;
    crate::tree::lemma_whole_pattern_resolves(ps, j);
    assert(binds_as(map, ps[j], vs[j]));
    let q2 = choose|q2: Seq<char>| #[trigger]
        map.contains_key(q2) && ps[j] == vstd::utf8::encode_utf8(q2) && vs[j].spec_index()
            == map[q2];
    lemma_encode_injective(q, q2);
}

/// A copy of a list of bindings.
fn duplicate_bindings(v: &Vec<(Sequence, AtlasIndex)>) -> (r: Vec<(Sequence, AtlasIndex)>)
    ensures
        r@.len() == v@.len(),
        forall|i: int|
            0 <= i < v@.len() ==> (#[trigger] r@[i]).0@ == v@[i].0@ && r@[i].1 == v@[i].1,
{
    let mut r: Vec<(Sequence, AtlasIndex)> = Vec::new();
    let mut i: usize = 0;
    while i < v.len()
        invariant
            i <= v@.len(),
            r@.len() == i,
            forall|k: int| 0 <= k < i ==> (#[trigger] r@[k]).0@ == v@[k].0@ && r@[k].1 == v@[k].1,
        decreases v.len() - i,
    {
        r.push((v[i].0.duplicate(), v[i].1));
        i = i + 1;
    }
    r
}

// ----------------------------------------------------------------------------------------------
// RasterFont
// ----------------------------------------------------------------------------------------------

/// A built raster font, ready for glyph resolution and rendering.
///
/// It resolves input through its ligature tree; the backend resources turn the resolved atlas
/// slots into glyphs.
#[derive(Debug)]
pub struct RasterFont<B: Backend> {
    /// A human-readable name for the font.
    pub name: Option<String>,
    _backend: PhantomData<B>,
    /// The backend resources needed to render this font.
    pub resources: B::Resources,
    /// The line height of the font, derived from the tallest glyph.
    pub(crate) height: u32,
    /// The leftmost-longest matcher from sequences to atlas slots.
    pub(crate) tree: LigatureTree<AtlasIndex>,
    /// The bindings the tree was built from, for direct lookup by sequence.
    pub(crate) sequence_map: Vec<(Sequence, AtlasIndex)>,
}

impl<B: Backend> RasterFont<B> {
    /// The font's name.
    pub closed spec fn spec_name(&self) -> Option<String> {
        self.name
    }

    /// The backend resources.
    pub closed spec fn spec_resources(&self) -> B::Resources {
        self.resources
    }

    /// The line height.
    pub closed spec fn spec_height(&self) -> u32 {
        self.height
    }

    /// The ligature tree's patterns.
    pub closed spec fn patterns(&self) -> Seq<Seq<u8>> {
        self.tree.patterns()
    }

    /// The ligature tree's values.
    pub closed spec fn values(&self) -> Seq<AtlasIndex> {
        self.tree.values()
    }

    /// The bindings, in order, as `(sequence, atlas slot)`.
    pub closed spec fn bindings(&self) -> Seq<(Seq<char>, nat)> {
        bindings_view(self.sequence_map@)
    }

    /// Builds a font from its parts; the ligature tree is compiled from `sequence_map`, and
    /// fails when the automaton builder refuses its patterns.
    pub fn new(
        name: Option<String>,
        height: u32,
        resources: B::Resources,
        sequence_map: Vec<(Sequence, AtlasIndex)>,
    ) -> (r: Result<Self, LigatureBindingError>)
        ensures
            (r is Ok) == automaton_builds(binding_patterns(sequence_map@)),
            r matches Ok(f) ==> {
                &&& f.spec_name() == name
                &&& f.spec_resources() == resources
                &&& f.spec_height() == height
                &&& f.patterns() == binding_patterns(sequence_map@)
                &&& f.values() == binding_values(sequence_map@)
                &&& f.bindings() == bindings_view(sequence_map@)
            },
    {
        let copy = duplicate_bindings(&sequence_map);
        assert(binding_patterns(copy@) =~= binding_patterns(sequence_map@));
        assert(binding_values(copy@) =~= binding_values(sequence_map@));
        assert(bindings_view(copy@) =~= bindings_view(sequence_map@));
        match LigatureTree::try_from_bindings(copy) {
            Ok(tree) => Ok(
                RasterFont { name, _backend: PhantomData, resources, height, tree, sequence_map },
            ),
            Err(e) => Err(e),
        }
    }

    /// The ligature tree.
    pub fn tree(&self) -> (r: &LigatureTree<AtlasIndex>)
        ensures
            r.patterns() == self.patterns(),
            r.values() == self.values(),
    {
        &self.tree
    }

    /// The atlas slot bound to `sequence`, or `None` when it is not bound.
    pub fn get(&self, sequence: &Sequence) -> (r: Option<&AtlasIndex>)
        ensures
            match first_binding(self.bindings(), sequence@) {
                Some(i) => r matches Some(x) && x.spec_index() == i,
                None => r is None,
            },
    {
        let v = &self.sequence_map;
        let mut i: usize = 0;
        assert(bindings_view(v@).skip(0) =~= bindings_view(v@));
        while i < v.len()
            invariant
                i <= v@.len(),
                v == &self.sequence_map,
                first_binding(bindings_view(v@), sequence@) == first_binding(
                    bindings_view(v@).skip(i as int),
                    sequence@,
                ),
            decreases v.len() - i,
        {
            let ghost rest = bindings_view(v@).skip(i as int);
            assert(rest[0] == bindings_view(v@)[i as int]);
            if v[i].0.same_as(sequence) {
                return Some(&v[i].1);
            }
            assert(rest.drop_first() =~= bindings_view(v@).skip(i + 1));
            i = i + 1;
        }
        None
    }

    /// Pairs the font with resources lent by `ctx`, or fails as `ctx` does.
    pub fn upgrade<'f, 'r, Ctx: FontResourceProvider<Backend = B>>(&'f self, ctx: &'r Ctx) -> (r:
        Result<RasterFontCtx<'f, 'r, Ctx>, Ctx::Error>)
        ensures
            r matches Ok(c) ==> {
                &&& c.font() == self
                &&& c.spec_tree() == self.spec_tree()
                &&& ctx.lends(self.spec_resources(), c.lent())
            },
            r matches Err(e) ==> ctx.refuses(self.spec_resources(), e),
    {
        match ctx.upgrade_font(&self.resources) {
            Ok(resources) => Ok(RasterFontCtx { font: self, resources }),
            Err(e) => Err(e),
        }
    }
}

impl<B: Backend> AsLigatureTree<AtlasIndex> for RasterFont<B> {
    closed spec fn spec_tree(&self) -> &LigatureTree<AtlasIndex> {
        &self.tree
    }

    fn as_ligature_tree(&self) -> (r: &LigatureTree<AtlasIndex>) {
        &self.tree
    }
}

impl<B: Backend> MapLigature<AtlasIndex> for RasterFont<B> where B::Resources: SpriteSheet {
    type Output = Option<UTokenProps>;

    open spec fn spec_map_ligature(&self, value: AtlasIndex) -> Option<UTokenProps> {
        self.spec_resources().spec_props(value)
    }

    fn map_ligature(&self, value: &AtlasIndex) -> (r: Option<UTokenProps>) {
        self.resources.props(value)
    }
}

/// A [`RasterFont`] paired with render resources borrowed from elsewhere.
pub struct RasterFontCtx<'f, 'r, Ctx: FontResourceProvider + 'r> {
    font: &'f RasterFont<Ctx::Backend>,
    resources: Ctx::Output<'f, 'r>,
}

impl<'f, 'r, Ctx: FontResourceProvider + 'r> RasterFontCtx<'f, 'r, Ctx> {
    /// The font.
    pub closed spec fn font(&self) -> &'f RasterFont<Ctx::Backend> {
        self.font
    }

    /// The resources lent by the provider.
    pub closed spec fn lent(&self) -> Ctx::Output<'f, 'r> {
        self.resources
    }
}

impl<'f, 'r, Ctx: FontResourceProvider + 'r> AsLigatureTree<AtlasIndex> for RasterFontCtx<
    'f,
    'r,
    Ctx,
> {
    closed spec fn spec_tree(&self) -> &LigatureTree<AtlasIndex> {
        &self.font.tree
    }

    fn as_ligature_tree(&self) -> (r: &LigatureTree<AtlasIndex>) {
        &self.font.tree
    }
}

impl<'f, 'r, Ctx: FontResourceProvider + 'r> MapLigature<AtlasIndex> for RasterFontCtx<
    'f,
    'r,
    Ctx,
> {
    type Output = Option<UTokenProps>;

    open spec fn spec_map_ligature(&self, value: AtlasIndex) -> Option<UTokenProps> {
        self.lent().spec_props(value)
    }

    fn map_ligature(&self, value: &AtlasIndex) -> (r: Option<UTokenProps>) {
        self.resources.props(value)
    }
}

} // verus!
