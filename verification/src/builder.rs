//! Staged construction of a [`RasterFont`](crate::backend::RasterFont).
//!
//! [`FontAtlasBuilder`] uses type parameters to enforce that the build steps happen in order:
//! attach an image, populate the layout, optionally add custom glyphs and a name, then build.
//! Steps that are not yet available are absent from the builder's API.
use vstd::prelude::*;

use std::marker::PhantomData;

pub mod fits;
pub mod laws;
pub mod placement;
pub mod scratch;

pub use self::fits::font_fits_exec;

use self::placement::{
    custom_fits, custom_fits_one, custom_props, custom_run, dyn_cursor, dyn_fits, dyn_placed, dyn_track,
    extract_region, font_fits, font_glyphs, insert_tokens, layout_fits, layout_placed,
    lemma_custom_run_err_sticks, lemma_insert_tokens_step, override_of, placed_glyphs,
    placed_tokens, region_fits, token_override, uniform_cell_exec, uniform_fits, uniform_glyphs,
    uniform_placed, PackingCursor,
};
use self::scratch::{distinct_entries, effective_height, entries_map, insert_all, Scratch};

use crate::atlas_index::AtlasIndex;
use crate::backend::{lemma_entries_list_bindings, lists_bindings, Backend, BackendBuilder, RasterFont};
use crate::tree::{automaton_builds, binding_patterns, binding_values, LigatureBindingError};
use crate::geometry::{IRect, IVec2, URect, UVec2};
use crate::token::{Sequence, Token, Unique};
use crate::meta::{CustomGlyph, FontLayout, FontTrack, GlyphOverride, PackingMode};

verus! {

/// Glyph rendering properties in unsigned pixel coordinates.
#[derive(Clone, Copy, Debug, PartialEq, Eq, Structural)]
pub struct UTokenProps {
    /// The bounding rectangle of the glyph within the texture atlas.
    pub region: URect,
    /// A pixel offset applied to the glyph's draw position.
    pub offset: IVec2,
}

/// Glyph rendering properties in signed pixel coordinates, relative to a tile.
#[derive(Clone, Copy, Debug, PartialEq, Eq, Structural)]
pub struct ITokenProps {
    pub region: IRect,
    pub offset: IVec2,
}

impl FontTrack {
    pub open spec fn spec_props(&self, overrides: Option<GlyphOverride>) -> ITokenProps {
        match overrides {
            Some(o) => ITokenProps {
                offset: match o.offset {
                    Some(v) => v,
                    None => self.offset,
                },
                region: match o.region {
                    Some(r) => r,
                    None => self.glyph_region,
                },
            },
            None => ITokenProps { region: self.glyph_region, offset: self.offset },
        }
    }

    /// The track's default region and offset, ignoring overrides.
    pub fn as_token_props(&self) -> (r: ITokenProps)
        ensures
            r == (ITokenProps { region: self.glyph_region, offset: self.offset }),
    {
        ITokenProps { region: self.glyph_region, offset: self.offset }
    }

    /// The region and offset of a glyph of this track: each field of the override replaces the
    /// track's default when present.
    pub fn props(&self, overrides: Option<&GlyphOverride>) -> (r: ITokenProps)
        ensures
            r == self.spec_props(
                match overrides {
                    Some(o) => Some(*o),
                    None => None,
                },
            ),
    {
        match overrides {
            Some(o) => {
                let offset = match o.offset {
                    Some(v) => v,
                    None => self.offset,
                };
                let region = match o.region {
                    Some(r) => r,
                    None => self.glyph_region,
                };
                ITokenProps { offset, region }
            },
            None => self.as_token_props(),
        }
    }
}

/// Marker: a build phase has not been completed.
pub struct Unpopulated;

/// Marker: a build phase has been completed.
pub struct Populated;

/// Phase markers of [`FontAtlasBuilder`].
pub trait Marker {

}

impl Marker for Unpopulated {

}

impl Marker for Populated {

}

/// Image-state markers of [`FontAtlasBuilder`]: no image yet, or a [`GlyphSheet`].
pub trait ImageMarker {

}

impl ImageMarker for PhantomData<Unpopulated> {

}

impl<T> ImageMarker for GlyphSheet<T> {

}

/// A raw image paired with its pixel dimensions, used as the glyph sprite sheet.
#[derive(Clone, Debug)]
pub struct GlyphSheet<Image> {
    /// The image data or handle.
    pub image: Image,
    /// The dimensions of the image in pixels.
    pub size: UVec2,
}

// ----------------------------------------------------------------------------------------------
// The builder
// ----------------------------------------------------------------------------------------------

/// A staged builder for a [`RasterFont`](crate::backend::RasterFont).
///
/// | Parameter | Default                    | Meaning                                                |
/// | :-------: | :------------------------- | :----------------------------------------------------- |
/// | `L`       | [`Unpopulated`]            | Whether glyph regions have been computed from a layout |
/// | `C`       | [`Unpopulated`]            | Whether hand-specified glyphs have been added          |
/// | `S`       | `PhantomData<Unpopulated>` | The attached sprite sheet, or none yet                 |
/// | `N`       | [`Unpopulated`]            | Whether the font has been named                        |
///
/// The builder holds a list of glyphs (indexed by atlas slot) and a map from sequences to slots.
#[derive(Debug)]
pub struct FontAtlasBuilder<
    L: Marker = Unpopulated,
    C: Marker = Unpopulated,
    S: ImageMarker = PhantomData<Unpopulated>,
    N: Marker = Unpopulated,
> {
    name: Option<String>,
    image: S,
    scratch: Scratch,
    _state: PhantomData<(L, C, N)>,
}

impl<L: Marker, C: Marker, S: ImageMarker, N: Marker> FontAtlasBuilder<L, C, S, N> {
    #[verifier::type_invariant]
    spec fn well_formed(self) -> bool {
        self.scratch.wf()
    }

    /// The registered glyphs, indexed by atlas slot.
    pub closed spec fn glyphs(&self) -> Seq<UTokenProps> {
        self.scratch.glyphs()
    }

    /// The atlas slot each registered sequence is bound to.
    pub closed spec fn sequence_map(&self) -> Map<Seq<char>, nat> {
        self.scratch.map()
    }

    /// The font's name, if one was given.
    pub closed spec fn font_name(&self) -> Option<String> {
        self.name
    }

    /// The attached sprite sheet (or the marker standing for none).
    pub closed spec fn sheet(&self) -> S {
        self.image
    }

    /// Moves the builder to other layout and custom-glyph states.
    fn rebrand<X: Marker, Y: Marker>(self) -> (r: FontAtlasBuilder<X, Y, S, N>)
        ensures
            r.glyphs() == self.glyphs(),
            r.sequence_map() == self.sequence_map(),
            r.font_name() == self.font_name(),
            r.sheet() == self.sheet(),
    {
        proof {
            use_type_invariant(&self);
        }
        FontAtlasBuilder { name: self.name, image: self.image, scratch: self.scratch, _state: PhantomData }
    }

    /// Registers a glyph in the next atlas slot and binds every sequence of `token` to it,
    /// replacing earlier bindings of those sequences.
    pub fn add_token(&mut self, token: &Token, props: UTokenProps)
        ensures
            final(self).glyphs() == old(self).glyphs().push(props),
            final(self).sequence_map() == insert_all(
                old(self).sequence_map(),
                token@,
                old(self).glyphs().len(),
            ),
            final(self).font_name() == old(self).font_name(),
            final(self).sheet() == old(self).sheet(),
            forall|k: Seq<char>| #[trigger]
                old(self).sequence_map().contains_key(k) ==> old(self).sequence_map()[k]
                    < old(self).glyphs().len(),
            forall|k: Seq<char>| #[trigger]
                final(self).sequence_map().contains_key(k) ==> final(self).sequence_map()[k]
                    < final(self).glyphs().len(),
    {
        proof {
            use_type_invariant(&*self);
            self.scratch.lemma_map_in_bounds();
        }
        let mut scratch = Scratch::empty(0, 0);
        std::mem::swap(&mut scratch, &mut self.scratch);
        scratch.add_token(token, props);
        proof {
            scratch.lemma_map_in_bounds();
        }
        self.scratch = scratch;
    }

    /// The glyph bound to `q`, or `None` when `q` is not registered.
    pub fn get_glyph_by_sequence(&self, q: &Sequence) -> (r: Option<&UTokenProps>)
        ensures
            self.sequence_map().contains_key(q@) ==> (r matches Some(g) && *g == self.glyphs()[self.sequence_map()[q@] as int]),
            !self.sequence_map().contains_key(q@) ==> r is None,
            forall|k: Seq<char>| #[trigger]
                self.sequence_map().contains_key(k) ==> self.sequence_map()[k] < self.glyphs().len(),
    {
        proof {
            use_type_invariant(self);
            self.scratch.lemma_map_in_bounds();
        }
        self.scratch.get(q)
    }
}

impl<L: Marker, C: Marker, S: ImageMarker> FontAtlasBuilder<L, C, S, Unpopulated> {
    /// Names the font being built.
    pub fn with_name(self, name: Option<String>) -> (r: FontAtlasBuilder<L, C, S, Populated>)
        ensures
            r.glyphs() == self.glyphs(),
            r.sequence_map() == self.sequence_map(),
            r.font_name() == name,
            r.sheet() == self.sheet(),
    {
        proof {
            use_type_invariant(&self);
        }
        FontAtlasBuilder { name, image: self.image, scratch: self.scratch, _state: PhantomData }
    }
}

impl FontAtlasBuilder {
    /// An empty builder with room reserved for the given numbers of glyphs and sequences.
    pub fn with_capacity(num_unique_glyphs: usize, num_unique_sequences: usize) -> (r: Self)
        ensures
            r.glyphs() == Seq::<UTokenProps>::empty(),
            r.sequence_map() == Map::<Seq<char>, nat>::empty(),
            r.font_name() is None,
    {
        FontAtlasBuilder {
            name: None,
            image: PhantomData,
            scratch: Scratch::empty(num_unique_glyphs, num_unique_sequences),
            _state: PhantomData,
        }
    }

    /// An empty builder sized for the unique sequences and glyph regions of a layout.
    pub fn from_unique(unique: Unique<'_>) -> (r: Self)
        ensures
            r.glyphs() == Seq::<UTokenProps>::empty(),
            r.sequence_map() == Map::<Seq<char>, nat>::empty(),
            r.font_name() is None,
    {
        Self::with_capacity(unique.num_regions, unique.sequences.len())
    }
}

impl Default for FontAtlasBuilder {
    fn default() -> (r: Self)
        ensures
            r.glyphs() == Seq::<UTokenProps>::empty(),
            r.sequence_map() == Map::<Seq<char>, nat>::empty(),
            r.font_name() is None,
    {
        Self::with_capacity(0, 0)
    }
}

impl<'a> From<Unique<'a>> for FontAtlasBuilder {
    fn from(unique: Unique<'a>) -> Self {
        Self::from_unique(unique)
    }
}

impl<'a> vstd::std_specs::convert::FromSpecImpl<Unique<'a>> for FontAtlasBuilder {
    open spec fn obeys_from_spec() -> bool {
        false
    }

    open spec fn from_spec(unique: Unique<'a>) -> FontAtlasBuilder {
        choose|b: FontAtlasBuilder| b.glyphs().len() == 0
    }
}

impl<N: Marker> FontAtlasBuilder<Unpopulated, Unpopulated, PhantomData<Unpopulated>, N> {
    /// Attaches the glyph sprite sheet.
    pub fn with_image<Image>(self, image: GlyphSheet<Image>) -> (r: FontAtlasBuilder<
        Unpopulated,
        Unpopulated,
        GlyphSheet<Image>,
        N,
    >)
        ensures
            r.glyphs() == self.glyphs(),
            r.sequence_map() == self.sequence_map(),
            r.font_name() == self.font_name(),
            r.sheet() == image,
    {
        proof {
            use_type_invariant(&self);
        }
        FontAtlasBuilder { name: self.name, image, scratch: self.scratch, _state: PhantomData }
    }
}

impl<Image, N: Marker> FontAtlasBuilder<Unpopulated, Unpopulated, GlyphSheet<Image>, N> {
    /// Places the glyphs of the ordered layout on a uniform grid of `track`'s tiles, left to
    /// right and wrapping to the next row after the last whole tile that fits in the sheet's
    /// width; the `i`-th token takes the `i`-th tile.
    pub fn uniform_layout(self, layout: &FontLayout, track: &FontTrack) -> (r: FontAtlasBuilder<
        Populated,
        Unpopulated,
        GlyphSheet<Image>,
        N,
    >)
        requires
            forall|i: int|
                0 <= i < layout.layout_tokens@.len() ==> uniform_fits(
                    layout.layout_tokens@,
                    layout.sequence_overrides@,
                    *track,
                    self.sheet().size,
                    i,
                ),
        ensures
            r.glyphs() == self.glyphs() + uniform_glyphs(
                layout.layout_tokens@,
                layout.sequence_overrides@,
                *track,
                self.sheet().size,
            ),
            r.sequence_map() == insert_tokens(
                self.sequence_map(),
                layout.layout_tokens@,
                self.glyphs().len(),
            ),
            r.font_name() == self.font_name(),
            r.sheet() == self.sheet(),
    {
        let ghost ts = layout.layout_tokens@;
        let ghost ovs = layout.sequence_overrides@;
        let ghost size = self.sheet().size;
        let ghost g0 = self.glyphs();
        let ghost m0 = self.sequence_map();
        let ghost all = uniform_glyphs(ts, ovs, *track, size);
        let tokens = layout.ord_layout();
        let mut b = self;
        let mut i: usize = 0;
        assert(all.take(0) =~= seq![]);
        assert(ts.take(0) =~= seq![]);
        while i < tokens.len()
            invariant
                crate::layout::tokens_view(tokens@) == ts,
                ts == layout.layout_tokens@,
                ovs == layout.sequence_overrides@,
                all == uniform_glyphs(ts, ovs, *track, size),
                i <= tokens.len(),
                forall|k: int| 0 <= k < ts.len() ==> uniform_fits(ts, ovs, *track, size, k),
                b.sheet() == self.sheet(),
                size == self.sheet().size,
                b.font_name() == self.font_name(),
                b.glyphs() == g0 + all.take(i as int),
                b.sequence_map() == insert_tokens(m0, ts.take(i as int), g0.len()),
            decreases tokens.len() - i,
        {
            let token = &tokens[i];
            assert(token@ == ts[i as int]);
            assert(uniform_fits(ts, ovs, *track, size, i as int));
            let p = track.props(override_of(layout, token));
            let (col, row) = uniform_cell_exec(i, track, b.image.size);
            let x: u64 = col * (track.grid_tile_size.x as u64);
            let y: u64 = row * (track.grid_tile_size.y as u64);
            let tile_start = UVec2::new(x as u32, y as u32).as_ivec2();
            let props = UTokenProps { offset: p.offset, region: extract_region(tile_start, p.region) };
            assert(props == all[i as int]);
            proof {
                lemma_insert_tokens_step(m0, ts, i as int, g0.len());
            }
            b.add_token(token, props);
            assert(all.take(i + 1) =~= all.take(i as int).push(all[i as int]));
            assert(g0 + all.take(i + 1) =~= (g0 + all.take(i as int)).push(props));
            i = i + 1;
        }
        assert(all.take(i as int) =~= all);
        assert(ts.take(i as int) =~= ts);
        b.rebrand()
    }
}

impl<Image, N: Marker> FontAtlasBuilder<Unpopulated, Unpopulated, GlyphSheet<Image>, N> {
    /// Places the glyphs of the ordered layout with tracks of different tile sizes.
    ///
    /// A track takes over at its head token; each placed token takes the next tile of the
    /// track in force, left to right. A tile that would pass the right edge of the sheet starts
    /// a new row, below the tallest tile of the current one. Tokens before the first head token
    /// are skipped.
    pub fn dynamic_layout(
        self,
        layout: &FontLayout,
        tracks: &Vec<(Token, FontTrack)>,
    ) -> (r: FontAtlasBuilder<Populated, Unpopulated, GlyphSheet<Image>, N>)
        requires
            dyn_fits(tracks@, layout.layout_tokens@, layout.sequence_overrides@, self.sheet().size),
        ensures
            r.glyphs() == self.glyphs() + placed_glyphs(
                dyn_placed(
                    tracks@,
                    layout.layout_tokens@,
                    layout.sequence_overrides@,
                    self.sheet().size,
                    layout.layout_tokens@.len() as int,
                ),
            ),
            r.sequence_map() == insert_tokens(
                self.sequence_map(),
                placed_tokens(
                    dyn_placed(
                        tracks@,
                        layout.layout_tokens@,
                        layout.sequence_overrides@,
                        self.sheet().size,
                        layout.layout_tokens@.len() as int,
                    ),
                ),
                self.glyphs().len(),
            ),
            r.font_name() == self.font_name(),
            r.sheet() == self.sheet(),
    {
        let ghost ts = layout.layout_tokens@;
        let ghost ovs = layout.sequence_overrides@;
        let ghost trs = tracks@;
        let ghost size = self.sheet().size;
        let ghost g0 = self.glyphs();
        let ghost m0 = self.sequence_map();
        let tokens = layout.ord_layout();
        let mut current_track: Option<&FontTrack> = None;
        let mut cursor = PackingCursor::new(self.image.size);
        let mut b = self;
        let mut i: usize = 0;
        assert(placed_glyphs(dyn_placed(trs, ts, ovs, size, 0)) =~= seq![]);
        assert(placed_tokens(dyn_placed(trs, ts, ovs, size, 0)) =~= seq![]);
        while i < tokens.len()
            invariant
                crate::layout::tokens_view(tokens@) == ts,
                ts == layout.layout_tokens@,
                ovs == layout.sequence_overrides@,
                trs == tracks@,
                i <= tokens.len(),
                dyn_fits(trs, ts, ovs, size),
                b.sheet() == self.sheet(),
                size == self.sheet().size,
                b.font_name() == self.font_name(),
                cursor == dyn_cursor(trs, ts, size, i as int),
                match current_track {
                    Some(t) => dyn_track(trs, ts, i - 1) == Some(*t),
                    None => dyn_track(trs, ts, i - 1) is None,
                },
                b.glyphs() == g0 + placed_glyphs(dyn_placed(trs, ts, ovs, size, i as int)),
                b.sequence_map() == insert_tokens(
                    m0,
                    placed_tokens(dyn_placed(trs, ts, ovs, size, i as int)),
                    g0.len(),
                ),
            decreases tokens.len() - i,
        {
            let token = &tokens[i];
            assert(token@ == ts[i as int]);
            match crate::meta::find_track(tracks, token) {
                Some(t) => {
                    current_track = Some(t);
                },
                None => {},
            }
            let ghost prev = dyn_placed(trs, ts, ovs, size, i as int);
            assert(dyn_track(trs, ts, i as int) == match current_track {
                Some(t) => Some(*t),
                None => None::<FontTrack>,
            });
            match current_track {
                Some(track) => {
                    assert(dyn_fits(trs, ts, ovs, size));
                    assert(match dyn_track(trs, ts, i as int) {
                        Some(t) => {
                            &&& dyn_cursor(trs, ts, size, i as int).advance_fits(t)
                            &&& region_fits(
                                dyn_cursor(trs, ts, size, i as int).spec_row(t).pos,
                                t.spec_props(token_override(ovs, ts[i as int])).region,
                            )
                        },
                        None => true,
                    });
                    let p = track.props(override_of(layout, token));
                    let tile_start = cursor.advance(track);
                    let props = UTokenProps {
                        offset: p.offset,
                        region: extract_region(tile_start, p.region),
                    };
                    let ghost next = prev.push((ts[i as int], props));
                    assert(dyn_placed(trs, ts, ovs, size, i + 1) == next);
                    assert(placed_glyphs(next) =~= placed_glyphs(prev).push(props));
                    assert(placed_tokens(next) =~= placed_tokens(prev).push(ts[i as int]));
                    proof {
                        lemma_insert_tokens_step(
                            m0,
                            placed_tokens(next),
                            placed_tokens(prev).len() as int,
                            g0.len(),
                        );
                        assert(placed_tokens(next).take(placed_tokens(prev).len() as int)
                            =~= placed_tokens(prev));
                        assert(placed_tokens(next).take(placed_tokens(prev).len() as int + 1)
                            =~= placed_tokens(next));
                    }
                    b.add_token(token, props);
                    assert(g0 + placed_glyphs(next) =~= (g0 + placed_glyphs(prev)).push(props));
                },
                None => {
                    assert(dyn_placed(trs, ts, ovs, size, i + 1) == prev);
                },
            }
            i = i + 1;
        }
        b.rebrand()
    }
}

impl<Image, N: Marker> FontAtlasBuilder<Unpopulated, Unpopulated, GlyphSheet<Image>, N> {
    /// Places the glyphs of a layout by its packing mode: a uniform grid or dynamic tracks.
    pub fn populate_layout(self, layout: &FontLayout) -> (r: FontAtlasBuilder<
        Populated,
        Unpopulated,
        GlyphSheet<Image>,
        N,
    >)
        requires
            layout_fits(*layout, self.sheet().size),
        ensures
            r.glyphs() == self.glyphs() + placed_glyphs(layout_placed(*layout, self.sheet().size)),
            r.sequence_map() == insert_tokens(
                self.sequence_map(),
                placed_tokens(layout_placed(*layout, self.sheet().size)),
                self.glyphs().len(),
            ),
            r.font_name() == self.font_name(),
            r.sheet() == self.sheet(),
    {
        match layout.packing_mode() {
            PackingMode::Uniform { track } => {
                let ghost pl = uniform_placed(
                    layout.layout_tokens@,
                    layout.sequence_overrides@,
                    *track,
                    self.sheet().size,
                );
                assert(placed_glyphs(pl) =~= uniform_glyphs(
                    layout.layout_tokens@,
                    layout.sequence_overrides@,
                    *track,
                    self.sheet().size,
                ));
                assert(placed_tokens(pl) =~= layout.layout_tokens@);
                self.uniform_layout(layout, track)
            },
            PackingMode::Dynamic { tracks } => self.dynamic_layout(layout, tracks),
        }
    }
}

// ----------------------------------------------------------------------------------------------
// Hand-specified glyphs
// ----------------------------------------------------------------------------------------------

/// A custom glyph referenced a sequence that was not registered.
#[derive(Debug)]
pub struct UnknownSequence(pub(crate) Sequence);

impl View for UnknownSequence {
    type V = Seq<char>;

    /// The sequence that could not be resolved.
    closed spec fn view(&self) -> Seq<char> {
        self.0@
    }
}

impl UnknownSequence {
    /// The sequence that could not be resolved.
    pub fn sequence(&self) -> (r: &Sequence)
        ensures
            r@ == self@,
    {
        &self.0
    }

    /// A description of the error.
    pub fn to_string(&self) -> (r: String)
        ensures
            r@ == "A custom glyph references a sequence that does not exist in the layout: "@
                + self@,
    {
        crate::text::concat_chars(
            "A custom glyph references a sequence that does not exist in the layout: ",
            &self.0.to_chars(),
        )
    }
}

impl<S: ImageMarker, N: Marker> FontAtlasBuilder<Populated, Unpopulated, S, N> {
    /// Registers hand-specified glyphs, in order.
    ///
    /// An absolute glyph gives its region in atlas coordinates; a relative one gives it relative
    /// to the top-left corner of the region of a reference sequence registered before this
    /// call (by the layout step or by `add_token`), not by an earlier entry of `glyphs`.
    ///
    /// Fails with [`UnknownSequence`] at the first relative glyph whose reference is not
    /// registered.
    pub fn custom_glyphs(self, glyphs: &Vec<(Token, CustomGlyph)>) -> (r: Result<
        FontAtlasBuilder<Populated, Populated, S, N>,
        UnknownSequence,
    >)
        requires
            custom_fits(self.glyphs(), self.sequence_map(), glyphs@),
        ensures
            match custom_run(self.glyphs(), self.sequence_map(), glyphs@, glyphs@.len() as int) {
                Ok((g, m)) => r matches Ok(b) && b.glyphs() == g && b.sequence_map() == m
                    && b.font_name() == self.font_name() && b.sheet() == self.sheet(),
                Err(q) => r matches Err(e) && e@ == q,
            },
    {
        let ghost g0 = self.glyphs();
        let ghost m0 = self.sequence_map();
        let ghost es = glyphs@;
        let mut resolved: Vec<UTokenProps> = Vec::new();
        let mut i: usize = 0;
        while i < glyphs.len()
            invariant
                es == glyphs@,
                g0 == self.glyphs(),
                m0 == self.sequence_map(),
                i <= glyphs.len(),
                custom_fits(g0, m0, es),
                resolved@.len() == i,
                forall|k: int|
                    0 <= k < i ==> custom_props(g0, m0, (#[trigger] es[k]).1) == Some(resolved@[k]),
                custom_run(g0, m0, es, i as int) is Ok,
            decreases glyphs.len() - i,
        {
            let sub_glyph = &glyphs[i].1;
            assert(custom_fits_one(g0, m0, es[i as int].1));
            let props = match sub_glyph {
                CustomGlyph::Absolute { region, offset } => UTokenProps { region: *region, offset: *offset },
                CustomGlyph::Relative { reference, region, offset } => {
                    match self.get_glyph_by_sequence(reference) {
                        Some(g) => {
                            let reference_props = *g;
                            UTokenProps {
                                offset: *offset,
                                region: extract_region(reference_props.region.min.as_ivec2(), *region),
                            }
                        },
                        None => {
                            assert(custom_run(g0, m0, es, i + 1) == Err::<
                                (Seq<UTokenProps>, Map<Seq<char>, nat>),
                                Seq<char>,
                            >(reference@));
                            proof {
                                lemma_custom_run_err_sticks(g0, m0, es, i + 1, es.len() as int);
                            }
                            return Err(UnknownSequence(reference.duplicate()));
                        },
                    }
                },
            };
            assert(custom_props(g0, m0, es[i as int].1) == Some(props));
            resolved.push(props);
            i = i + 1;
        }
        let mut b = self;
        let mut j: usize = 0;
        while j < glyphs.len()
            invariant
                es == glyphs@,
                g0 == self.glyphs(),
                m0 == self.sequence_map(),
                j <= glyphs.len(),
                resolved@.len() == glyphs.len(),
                forall|k: int|
                    0 <= k < es.len() ==> custom_props(g0, m0, (#[trigger] es[k]).1) == Some(resolved@[k]),
                b.sheet() == self.sheet(),
                b.font_name() == self.font_name(),
                custom_run(g0, m0, es, j as int) == Ok::<
                    (Seq<UTokenProps>, Map<Seq<char>, nat>),
                    Seq<char>,
                >((b.glyphs(), b.sequence_map())),
            decreases glyphs.len() - j,
        {
            assert(custom_props(g0, m0, es[j as int].1) == Some(resolved@[j as int]));
            b.add_token(&glyphs[j].0, resolved[j]);
            j = j + 1;
        }
        Ok(b.rebrand())
    }
}

// ----------------------------------------------------------------------------------------------
// Finishing
// ----------------------------------------------------------------------------------------------

/// What the builder hands a [`BackendBuilder`](crate::backend::BackendBuilder).
pub struct RawFont<Sheet> {
    /// The glyph sprite sheet.
    pub sheet: GlyphSheet<Sheet>,
    /// The glyphs, indexed by atlas slot.
    pub glyphs: Vec<UTokenProps>,
    /// The font's line height: the largest effective height of the registered glyphs.
    pub computed_height: u32,
}

/// `build` was called with no glyph registered.
#[derive(Debug)]
pub struct EmptyFont(pub(crate) PhantomData<()>);

/// Why [`FontAtlasBuilder::build`] failed.
#[derive(Debug)]
pub enum FontBuilderError<E> {
    /// No glyph was registered.
    EmptyFont,
    /// A custom glyph's reference could not be resolved.
    UnknownSequence(UnknownSequence),
    /// The ligature automaton could not be built.
    LigatureBindingError(LigatureBindingError),
    /// The backend failed to build its resources.
    BackendBuilderError(E),
}

impl EmptyFont {
    /// A description of the error.
    pub fn to_string(&self) -> (r: String)
        ensures
            r@ == "Will not build empty font (0 glyphs)."@,
    {
        String::from_str("Will not build empty font (0 glyphs).")
    }
}

impl<E> FontBuilderError<E> {
    /// A description of the error; `backend_error` describes the backend's error, which is used
    /// only for `BackendBuilderError`.
    pub fn to_string_with(&self, backend_error: &str) -> (r: String)
        ensures
            r@ == match self {
                FontBuilderError::EmptyFont => "Will not build empty font (0 glyphs)."@,
                FontBuilderError::UnknownSequence(e) => "A custom glyph references a sequence that does not exist in the layout: "@
                    + e@,
                FontBuilderError::LigatureBindingError(e) => e.message@,
                FontBuilderError::BackendBuilderError(_) => "Failed to build backend-specific resources for a raster font: "@
                    + backend_error@,
            },
    {
        match self {
            FontBuilderError::EmptyFont => EmptyFont(PhantomData).to_string(),
            FontBuilderError::UnknownSequence(e) => e.to_string(),
            FontBuilderError::LigatureBindingError(e) => e.message.clone(),
            FontBuilderError::BackendBuilderError(_) => crate::text::concat_chars(
                "Failed to build backend-specific resources for a raster font: ",
                &crate::text::chars_of(backend_error),
            ),
        }
    }
}

impl<E> From<EmptyFont> for FontBuilderError<E> {
    fn from(_e: EmptyFont) -> Self {
        FontBuilderError::EmptyFont
    }
}

impl<E> vstd::std_specs::convert::FromSpecImpl<EmptyFont> for FontBuilderError<E> {
    open spec fn obeys_from_spec() -> bool {
        true
    }

    open spec fn from_spec(e: EmptyFont) -> FontBuilderError<E> {
        FontBuilderError::EmptyFont
    }
}

impl<E> From<UnknownSequence> for FontBuilderError<E> {
    fn from(e: UnknownSequence) -> Self {
        FontBuilderError::UnknownSequence(e)
    }
}

impl<E> vstd::std_specs::convert::FromSpecImpl<UnknownSequence> for FontBuilderError<E> {
    open spec fn obeys_from_spec() -> bool {
        true
    }

    open spec fn from_spec(e: UnknownSequence) -> FontBuilderError<E> {
        FontBuilderError::UnknownSequence(e)
    }
}

/// Whether `raw` is what a build hands the backend for a sheet and its registered glyphs: the
/// sheet, the glyphs, and their largest effective height.
pub open spec fn hands_over<Image>(
    raw: RawFont<Image>,
    sheet: GlyphSheet<Image>,
    glyphs: Seq<UTokenProps>,
) -> bool {
    &&& raw.sheet == sheet
    &&& raw.glyphs@ == glyphs
    &&& is_max_height(glyphs, raw.computed_height)
}

/// Whether `h` is the largest effective height of `glyphs`.
pub open spec fn is_max_height(glyphs: Seq<UTokenProps>, h: u32) -> bool {
    &&& exists|i: int| 0 <= i < glyphs.len() && effective_height(#[trigger] glyphs[i]) == h
    &&& forall|i: int| 0 <= i < glyphs.len() ==> effective_height(#[trigger] glyphs[i]) <= h
}

impl<L: Marker, C: Marker, S: ImageMarker, N: Marker> FontAtlasBuilder<L, C, S, N> {
    /// Whether the height of every registered glyph's region is defined (`max.y >= min.y`).
    pub open spec fn heights_defined(&self) -> bool {
        forall|i: int| 0 <= i < self.glyphs().len() ==> (#[trigger] self.glyphs()[i]).region.height_defined()
    }
}

impl<C: Marker, Image, N: Marker> FontAtlasBuilder<Populated, C, GlyphSheet<Image>, N> {
    /// Splits a populated builder into what the backend receives (sheet, glyphs and line
    /// height), the name, and the bindings; fails with [`EmptyFont`] when no glyph is registered.
    pub fn into_raw_font(self) -> (r: Result<
        (RawFont<Image>, Option<String>, Vec<(Sequence, AtlasIndex)>),
        EmptyFont,
    >)
        requires
            self.heights_defined(),
        ensures
            r is Err <==> self.glyphs().len() == 0,
            r matches Ok((raw, name, bindings)) ==> {
                &&& raw.sheet == self.sheet()
                &&& raw.glyphs@ == self.glyphs()
                &&& is_max_height(self.glyphs(), raw.computed_height)
                &&& name == self.font_name()
                &&& distinct_entries(bindings@)
                &&& entries_map(bindings@) == self.sequence_map()
                &&& forall|i: int| 0 <= i < bindings@.len() ==> (#[trigger] bindings@[i]).1.spec_index() < self.glyphs().len()
            },
    {
        proof {
            use_type_invariant(&self);
            self.lemma_heights_defined();
        }
        match self.scratch.max_glyph_height() {
            None => Err(EmptyFont(PhantomData)),
            Some(computed_height) => {
                let (glyphs, bindings) = self.scratch.into_parts();
                Ok((RawFont { sheet: self.image, glyphs, computed_height }, self.name, bindings))
            },
        }
    }

    /// Finishes the font: computes its line height, has `resource_builder` build the backend
    /// resources, and compiles the ligature tree.
    ///
    /// Fails with `EmptyFont` when no glyph is registered, with `BackendBuilderError` when the
    /// backend fails, and with `LigatureBindingError` when, after the backend succeeded, the
    /// automaton cannot be built. The backend receives the sheet, the registered glyphs and the
    /// line height.
    pub fn build<B: Backend, Ctx: BackendBuilder<Backend = B, Sheet = Image>>(
        self,
        resource_builder: Ctx,
    ) -> (r: Result<RasterFont<B>, FontBuilderError<Ctx::Error>>)
        requires
            self.heights_defined(),
        ensures
            (r matches Err(FontBuilderError::EmptyFont)) <==> self.glyphs().len() == 0,
            r matches Err(e) ==> !(e is UnknownSequence),
            r matches Ok(f) ==> {
                &&& f.spec_name() == self.font_name()
                &&& is_max_height(self.glyphs(), f.spec_height())
                &&& lists_bindings(f.patterns(), f.values(), self.sequence_map())
                &&& exists|raw: RawFont<Image>| {
                    &&& hands_over(raw, self.sheet(), self.glyphs())
                    &&& raw.computed_height == f.spec_height()
                    &&& #[trigger] resource_builder.built(raw, f.spec_resources())
                }
            },
            r matches Err(FontBuilderError::BackendBuilderError(e)) ==> exists|raw: RawFont<Image>|
                {
                    &&& hands_over(raw, self.sheet(), self.glyphs())
                    &&& #[trigger] resource_builder.refused(raw, e)
                },
            r matches Err(FontBuilderError::LigatureBindingError(_)) ==> {
                &&& exists|ps: Seq<Seq<u8>>, vs: Seq<AtlasIndex>|
                    lists_bindings(ps, vs, self.sequence_map()) && !automaton_builds(ps)
                &&& exists|raw: RawFont<Image>, res: B::Resources| {
                    &&& hands_over(raw, self.sheet(), self.glyphs())
                    &&& #[trigger] resource_builder.built(raw, res)
                }
            },
    {
        let ghost map = self.sequence_map();
        let (raw, name, bindings) = match self.into_raw_font() {
            Ok(parts) => parts,
            Err(e) => {
                return Err(FontBuilderError::EmptyFont);
            },
        };
        let computed_height = raw.computed_height;
        let ghost raw_spec = raw;
        proof {
            lemma_entries_list_bindings(bindings@);
        }
        let ghost rb = resource_builder;
        let resources = match resource_builder.build_resources(raw) {
            Ok(res) => res,
            Err(e) => {
                assert(rb.refused(raw_spec, e));
                let r = FontBuilderError::BackendBuilderError(e);
                assert(r matches FontBuilderError::BackendBuilderError(e2) && e2 == e);
                assert(exists|raw: RawFont<Image>| {
                    &&& hands_over(raw, self.sheet(), self.glyphs())
                    &&& #[trigger] resource_builder.refused(raw, e)
                });
                return Err(r);
            },
        };
        let ghost res_spec = resources;
        assert(rb.built(raw_spec, res_spec));
        let ghost ps = binding_patterns(bindings@);
        let ghost vs = binding_values(bindings@);
        match RasterFont::new(name, computed_height, resources, bindings) {
            Ok(f) => {
                assert(rb.built(raw_spec, f.spec_resources()));
                Ok(f)
            },
            Err(e) => {
                assert(lists_bindings(ps, vs, map) && !automaton_builds(ps));
                assert(hands_over(raw_spec, self.sheet(), self.glyphs()));
                Err(FontBuilderError::LigatureBindingError(e))
            },
        }
    }
}

// ----------------------------------------------------------------------------------------------
// The whole pipeline
// ----------------------------------------------------------------------------------------------

/// Builds a font from a layout and its glyph sheet: packs the layout, adds its custom glyphs,
/// names the font, and finishes it with `resource_builder`.
pub fn build_font<Image, B: Backend, Ctx: BackendBuilder<Backend = B, Sheet = Image>>(
    name: Option<String>,
    layout: &FontLayout,
    sheet: GlyphSheet<Image>,
    resource_builder: Ctx,
) -> (r: Result<RasterFont<B>, FontBuilderError<Ctx::Error>>)
    requires
        font_fits(*layout, sheet.size),
    ensures
        match font_glyphs(*layout, sheet.size) {
            Err(q) => r matches Err(FontBuilderError::UnknownSequence(e)) && e@ == q,
            Ok((g, m)) => {
                &&& (r matches Err(FontBuilderError::EmptyFont)) <==> g.len() == 0
                &&& r matches Err(e) ==> !(e is UnknownSequence)
                &&& r matches Ok(f) ==> {
                    &&& f.spec_name() == name
                    &&& is_max_height(g, f.spec_height())
                    &&& lists_bindings(f.patterns(), f.values(), m)
                    &&& exists|raw: RawFont<Image>| {
                        &&& hands_over(raw, sheet, g)
                        &&& raw.computed_height == f.spec_height()
                        &&& #[trigger] resource_builder.built(raw, f.spec_resources())
                    }
                }
                &&& r matches Err(FontBuilderError::BackendBuilderError(e)) ==> exists|
                    raw: RawFont<Image>,
                | hands_over(raw, sheet, g) && #[trigger] resource_builder.refused(raw, e)
                &&& r matches Err(FontBuilderError::LigatureBindingError(_)) ==> {
                    &&& exists|ps: Seq<Seq<u8>>, vs: Seq<AtlasIndex>|
                        lists_bindings(ps, vs, m) && !automaton_builds(ps)
                    &&& exists|raw: RawFont<Image>, res: B::Resources|
                        hands_over(raw, sheet, g) && #[trigger] resource_builder.built(raw, res)
                }
            },
        },
{
    let ghost size = sheet.size;
    let ghost placed = layout_placed(*layout, size);
    let b = FontAtlasBuilder::from_unique(layout.unique()).with_name(name).with_image(sheet);
    assert(Seq::<UTokenProps>::empty() + placed_glyphs(placed) =~= placed_glyphs(placed));
    let b = b.populate_layout(layout);
    match b.custom_glyphs(layout.custom()) {
        Err(e) => Err(FontBuilderError::UnknownSequence(e)),
        Ok(b) => b.build(resource_builder),
    }
}

impl<L: Marker, C: Marker, S: ImageMarker, N: Marker> FontAtlasBuilder<L, C, S, N> {
    /// Whether the height of every registered glyph's region is defined.
    pub(crate) fn heights_defined_exec(&self) -> (r: bool)
        ensures
            r == self.heights_defined(),
    {
        proof {
            use_type_invariant(self);
            self.lemma_heights_defined();
        }
        self.scratch.heights_defined_exec()
    }

    /// The builder's glyph heights are those of its scratch.
    proof fn lemma_heights_defined(&self)
        ensures
            self.heights_defined() == self.scratch.heights_defined(),
    {
        assert(self.glyphs() == self.scratch.glyphs());
    }
}

} // verus!
