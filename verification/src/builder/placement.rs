//! Where the glyphs of a layout are cut from the glyph sheet, stated as specifications, with
//! the arithmetic that computes it.
//!
//! A uniform layout places its `i`-th token on the `i`-th tile of a grid of whole tiles; a
//! dynamic layout moves a [`PackingCursor`] with the track in force; custom glyphs are added after the packed tokens,
//! in order. The `*_fits` functions say when that arithmetic stays within the integer types.
use vstd::prelude::*;

use super::scratch::insert_all;
use super::UTokenProps;
use crate::geometry::{IRect, IVec2, URect, UVec2};
use crate::grammar::TokenModel;
use crate::meta::{CustomGlyph, FontLayout, FontTrack, GlyphOverride, PackingMode};
use crate::token::{Sequence, Token};

verus! {

// ----------------------------------------------------------------------------------------------
// Placement arithmetic
// ----------------------------------------------------------------------------------------------

/// Whether translating both corners of `region` by `start` stays within `i32`.
pub open spec fn region_fits(start: IVec2, region: IRect) -> bool {
    start.add_fits(region.min) && start.add_fits(region.max)
}

/// The atlas rectangle of a tile-relative `region` of a tile starting at `start`.
pub open spec fn spec_extract_region(start: IVec2, region: IRect) -> URect {
    (IRect { min: start.spec_add(region.min), max: start.spec_add(region.max) }).spec_as_urect()
}

/// Translates a tile-relative `region` by the tile's top-left corner and converts it to an
/// unsigned atlas rectangle.
pub(crate) fn extract_region(tile_start: IVec2, region: IRect) -> (r: URect)
    requires
        region_fits(tile_start, region),
    ensures
        r == spec_extract_region(tile_start, region),
{
    let rect = IRect { min: tile_start.add(region.min), max: tile_start.add(region.max) };
    rect.as_urect()
}

/// The override that applies to a token: the one keyed by its first sequence.
pub open spec fn token_override(overrides: Seq<(Sequence, GlyphOverride)>, t: TokenModel) -> Option<
    GlyphOverride,
> {
    if t.len() == 0 {
        None
    } else {
        crate::meta::override_for(overrides, t[0])
    }
}

/// The map after binding the sequences of each token of `ts` to consecutive slots from `base`.
pub open spec fn insert_tokens(m: Map<Seq<char>, nat>, ts: Seq<TokenModel>, base: nat) -> Map<
    Seq<char>,
    nat,
>
    decreases ts.len(),
{
    if ts.len() == 0 {
        m
    } else {
        insert_all(insert_tokens(m, ts.drop_last(), base), ts.last(), (base + ts.len() - 1) as nat)
    }
}


// ----------------------------------------------------------------------------------------------
// Uniform packing
// ----------------------------------------------------------------------------------------------

/// The number of whole tiles of `track` that fit side by side on a sheet of `size`, and at
/// least one: a tile wider than the sheet takes a row of its own.
pub open spec fn uniform_columns(track: FontTrack, size: UVec2) -> int {
    let fit = size.x as int / track.grid_tile_size.x as int;
    if fit == 0 {
        1
    } else {
        fit
    }
}

/// The column and row of the `i`-th tile of a uniform grid on a sheet of `size`: rows of whole
/// tiles, left to right and top to bottom. Tiles of no width all stand at the origin.
pub open spec fn uniform_cell(i: int, track: FontTrack, size: UVec2) -> (int, int) {
    if track.grid_tile_size.x == 0 {
        (0, 0)
    } else {
        (i % uniform_columns(track, size), i / uniform_columns(track, size))
    }
}

/// The top-left corner of the `i`-th tile of a uniform grid on a sheet of `size`.
pub open spec fn uniform_tile_start(i: int, track: FontTrack, size: UVec2) -> IVec2 {
    let c = uniform_cell(i, track, size);
    (UVec2 {
        x: (c.0 * track.grid_tile_size.x) as u32,
        y: (c.1 * track.grid_tile_size.y) as u32,
    }).spec_as_ivec2()
}

/// The column and row of the `i`-th tile of a uniform grid.
pub(crate) fn uniform_cell_exec(i: usize, track: &FontTrack, size: UVec2) -> (r: (u64, u64))
    ensures
        r.0 as int == uniform_cell(i as int, *track, size).0,
        r.1 as int == uniform_cell(i as int, *track, size).1,
{
    let tw = track.grid_tile_size.x;
    if tw == 0 {
        return (0, 0);
    }
    let fit = size.x / tw;
    let cols: u64 = if fit == 0 {
        1
    } else {
        fit as u64
    };
    let n = i as u64;
    (n % cols, n / cols)
}

/// The glyph of the `i`-th token of a uniform layout.
pub open spec fn uniform_props(
    tokens: Seq<TokenModel>,
    overrides: Seq<(Sequence, GlyphOverride)>,
    track: FontTrack,
    size: UVec2,
    i: int,
) -> UTokenProps {
    let p = track.spec_props(token_override(overrides, tokens[i]));
    UTokenProps { offset: p.offset, region: spec_extract_region(uniform_tile_start(i, track, size), p.region) }
}

/// Whether placing the `i`-th token of a uniform layout stays within the integer types.
pub open spec fn uniform_fits(
    tokens: Seq<TokenModel>,
    overrides: Seq<(Sequence, GlyphOverride)>,
    track: FontTrack,
    size: UVec2,
    i: int,
) -> bool {
    let c = uniform_cell(i, track, size);
    let p = track.spec_props(token_override(overrides, tokens[i]));
    &&& c.0 * track.grid_tile_size.x <= u32::MAX
    &&& c.1 * track.grid_tile_size.y <= u32::MAX
    &&& region_fits(uniform_tile_start(i, track, size), p.region)
}

/// The glyphs of a uniform layout, one per token.
pub open spec fn uniform_glyphs(
    tokens: Seq<TokenModel>,
    overrides: Seq<(Sequence, GlyphOverride)>,
    track: FontTrack,
    size: UVec2,
) -> Seq<UTokenProps> {
    Seq::new(tokens.len(), |i: int| uniform_props(tokens, overrides, track, size, i))
}


/// The override that applies to `token` in `layout`: the one keyed by its first sequence.
pub(crate) fn override_of<'a>(layout: &'a FontLayout, token: &Token) -> (r: Option<&'a GlyphOverride>)
    ensures
        (match r {
            Some(o) => Some(*o),
            None => None,
        }) == token_override(layout.sequence_overrides@, token@),
{
    match token.first() {
        Some(q) => layout.get_override(q),
        None => None,
    }
}

/// Unfolds `insert_tokens` over one more token.
pub(crate) proof fn lemma_insert_tokens_step(m: Map<Seq<char>, nat>, ts: Seq<TokenModel>, i: int, base: nat)
    requires
        0 <= i < ts.len(),
    ensures
        insert_tokens(m, ts.take(i + 1), base) == insert_all(
            insert_tokens(m, ts.take(i), base),
            ts[i],
            (base + i) as nat,
        ),
{
    assert(ts.take(i + 1).drop_last() =~= ts.take(i));
}

// ----------------------------------------------------------------------------------------------
// Dynamic packing
// ----------------------------------------------------------------------------------------------

/// The position at which the next glyph of a dynamic layout is cut from the sheet.
///
/// Tiles are laid left to right; when the next tile would pass the right edge of the sheet, the
/// cursor first moves down by the height of the tallest tile of the row and back to the left
/// edge, and the tile is cut there.
#[derive(Clone, Copy, Debug, PartialEq, Eq, Structural)]
pub struct PackingCursor {
    /// The top-left corner of the next tile.
    pub pos: IVec2,
    /// The height of the tallest tile placed in the current row.
    pub tallest_in_row: i32,
    /// The width of the sheet.
    pub max_x: i32,
}

impl PackingCursor {
    /// The cursor at the top-left corner of a sheet of `size`.
    pub open spec fn start(size: UVec2) -> PackingCursor {
        PackingCursor {
            pos: IVec2 { x: 0, y: 0 },
            tallest_in_row: 0,
            max_x: crate::geometry::u32_as_i32(size.x),
        }
    }

    /// Whether a tile of `track` no longer fits in the current row.
    pub open spec fn wraps(self, track: FontTrack) -> bool {
        self.pos.x + track.grid_tile_size.spec_as_ivec2().x > self.max_x
    }

    /// Whether moving past a tile of `track` stays within `i32`.
    pub open spec fn advance_fits(self, track: FontTrack) -> bool {
        let tile = track.grid_tile_size.spec_as_ivec2();
        &&& i32::MIN <= self.pos.x + tile.x <= i32::MAX
        &&& self.wraps(track) ==> i32::MIN <= self.pos.y + self.tallest_in_row <= i32::MAX
    }

    /// The cursor moved to the start of the next row when a tile of `track` no longer fits in
    /// the current one; its position is where that tile is cut.
    pub open spec fn spec_row(self, track: FontTrack) -> PackingCursor {
        if self.wraps(track) {
            PackingCursor {
                pos: IVec2 { x: 0, y: (self.pos.y + self.tallest_in_row) as i32 },
                tallest_in_row: 0,
                max_x: self.max_x,
            }
        } else {
            self
        }
    }

    /// The cursor after a tile of `track`.
    pub open spec fn spec_advance(self, track: FontTrack) -> PackingCursor {
        let tile = track.grid_tile_size.spec_as_ivec2();
        let row = self.spec_row(track);
        PackingCursor {
            pos: IVec2 { x: (row.pos.x + tile.x) as i32, y: row.pos.y },
            tallest_in_row: if row.tallest_in_row > tile.y {
                row.tallest_in_row
            } else {
                tile.y
            },
            max_x: self.max_x,
        }
    }

    pub(crate) fn new(size: UVec2) -> (r: PackingCursor)
        ensures
            r == Self::start(size),
    {
        PackingCursor { pos: IVec2::zero(), tallest_in_row: 0, max_x: size.x as i32 }
    }

    /// Places a tile of `track`: wraps to a new row when the tile does not fit in the current
    /// one, returns where the tile starts, and moves past it.
    pub(crate) fn advance(&mut self, track: &FontTrack) -> (r: IVec2)
        requires
            old(self).advance_fits(*track),
        ensures
            r == old(self).spec_row(*track).pos,
            *final(self) == old(self).spec_advance(*track),
    {
        let tile = track.grid_tile_size.as_ivec2();
        if self.pos.x + tile.x > self.max_x {
            self.pos.x = 0;
            self.pos.y = self.pos.y + self.tallest_in_row;
            self.tallest_in_row = 0;
        }
        let start = self.pos;
        if tile.y > self.tallest_in_row {
            self.tallest_in_row = tile.y;
        }
        self.pos.x = self.pos.x + tile.x;
        start
    }
}

/// The track in force at the `i`-th token of a dynamic layout: that of the last head token at or
/// before it.
pub open spec fn dyn_track(tracks: Seq<(Token, FontTrack)>, ts: Seq<TokenModel>, i: int) -> Option<
    FontTrack,
>
    decreases i + 1,
{
    if i < 0 {
        None
    } else {
        match crate::meta::track_for(tracks, ts[i]) {
            Some(t) => Some(t),
            None => dyn_track(tracks, ts, i - 1),
        }
    }
}

/// The cursor before the `i`-th token of a dynamic layout is placed.
pub open spec fn dyn_cursor(
    tracks: Seq<(Token, FontTrack)>,
    ts: Seq<TokenModel>,
    size: UVec2,
    i: int,
) -> PackingCursor
    decreases i,
{
    if i <= 0 {
        PackingCursor::start(size)
    } else {
        match dyn_track(tracks, ts, i - 1) {
            Some(t) => dyn_cursor(tracks, ts, size, i - 1).spec_advance(t),
            None => dyn_cursor(tracks, ts, size, i - 1),
        }
    }
}

/// The glyph of the `i`-th token of a dynamic layout, placed with track `t`.
pub open spec fn dyn_props(
    tracks: Seq<(Token, FontTrack)>,
    ts: Seq<TokenModel>,
    overrides: Seq<(Sequence, GlyphOverride)>,
    size: UVec2,
    i: int,
    t: FontTrack,
) -> UTokenProps {
    let p = t.spec_props(token_override(overrides, ts[i]));
    UTokenProps {
        offset: p.offset,
        region: spec_extract_region(dyn_cursor(tracks, ts, size, i).spec_row(t).pos, p.region),
    }
}

/// The tokens placed among the first `n` of a dynamic layout, with their glyphs; tokens before
/// the first head token are skipped.
pub open spec fn dyn_placed(
    tracks: Seq<(Token, FontTrack)>,
    ts: Seq<TokenModel>,
    overrides: Seq<(Sequence, GlyphOverride)>,
    size: UVec2,
    n: int,
) -> Seq<(TokenModel, UTokenProps)>
    decreases n,
{
    if n <= 0 {
        seq![]
    } else {
        let prev = dyn_placed(tracks, ts, overrides, size, n - 1);
        match dyn_track(tracks, ts, n - 1) {
            Some(t) => prev.push((ts[n - 1], dyn_props(tracks, ts, overrides, size, n - 1, t))),
            None => prev,
        }
    }
}

/// Whether placing the tokens of a dynamic layout stays within the integer types.
pub open spec fn dyn_fits(
    tracks: Seq<(Token, FontTrack)>,
    ts: Seq<TokenModel>,
    overrides: Seq<(Sequence, GlyphOverride)>,
    size: UVec2,
) -> bool {
    forall|i: int|
        0 <= i < ts.len() ==> match #[trigger] dyn_track(tracks, ts, i) {
            Some(t) => {
                &&& dyn_cursor(tracks, ts, size, i).advance_fits(t)
                &&& region_fits(
                    dyn_cursor(tracks, ts, size, i).spec_row(t).pos,
                    t.spec_props(token_override(overrides, ts[i])).region,
                )
            },
            None => true,
        }
}

/// The tokens of a list of placements.
pub open spec fn placed_tokens(p: Seq<(TokenModel, UTokenProps)>) -> Seq<TokenModel> {
    p.map_values(|e: (TokenModel, UTokenProps)| e.0)
}

/// The glyphs of a list of placements.
pub open spec fn placed_glyphs(p: Seq<(TokenModel, UTokenProps)>) -> Seq<UTokenProps> {
    p.map_values(|e: (TokenModel, UTokenProps)| e.1)
}

// ----------------------------------------------------------------------------------------------
// Layouts
// ----------------------------------------------------------------------------------------------

/// The tokens of a uniform layout with their glyphs.
pub open spec fn uniform_placed(
    tokens: Seq<TokenModel>,
    overrides: Seq<(Sequence, GlyphOverride)>,
    track: FontTrack,
    size: UVec2,
) -> Seq<(TokenModel, UTokenProps)> {
    Seq::new(tokens.len(), |i: int| (tokens[i], uniform_props(tokens, overrides, track, size, i)))
}

/// The tokens a layout places on a sheet of `size`, with their glyphs, by its packing mode.
pub open spec fn layout_placed(layout: FontLayout, size: UVec2) -> Seq<(TokenModel, UTokenProps)> {
    match layout.packing_mode {
        PackingMode::Uniform { track } => uniform_placed(
            layout.layout_tokens@,
            layout.sequence_overrides@,
            track,
            size,
        ),
        PackingMode::Dynamic { tracks } => dyn_placed(
            tracks@,
            layout.layout_tokens@,
            layout.sequence_overrides@,
            size,
            layout.layout_tokens@.len() as int,
        ),
    }
}

/// Whether placing a layout on a sheet of `size` stays within the integer types.
pub open spec fn layout_fits(layout: FontLayout, size: UVec2) -> bool {
    match layout.packing_mode {
        PackingMode::Uniform { track } => forall|i: int|
            0 <= i < layout.layout_tokens@.len() ==> uniform_fits(
                layout.layout_tokens@,
                layout.sequence_overrides@,
                track,
                size,
                i,
            ),
        PackingMode::Dynamic { tracks } => dyn_fits(
            tracks@,
            layout.layout_tokens@,
            layout.sequence_overrides@,
            size,
        ),
    }
}

// ----------------------------------------------------------------------------------------------
// Custom glyphs
// ----------------------------------------------------------------------------------------------

/// The glyph of a custom entry given the glyphs and bindings registered before the custom
/// entries; `None` when a relative entry's reference is not bound there.
pub open spec fn custom_props(
    glyphs: Seq<UTokenProps>,
    map: Map<Seq<char>, nat>,
    g: CustomGlyph,
) -> Option<UTokenProps> {
    match g {
        CustomGlyph::Absolute { region, offset } => Some(UTokenProps { region, offset }),
        CustomGlyph::Relative { reference, region, offset } => if map.contains_key(reference@) {
            Some(
                UTokenProps {
                    offset,
                    region: spec_extract_region(
                        glyphs[map[reference@] as int].region.min.spec_as_ivec2(),
                        region,
                    ),
                },
            )
        } else {
            None
        },
    }
}

/// Whether resolving a custom entry stays within `i32`.
pub open spec fn custom_fits_one(
    glyphs: Seq<UTokenProps>,
    map: Map<Seq<char>, nat>,
    g: CustomGlyph,
) -> bool {
    match g {
        CustomGlyph::Absolute { .. } => true,
        CustomGlyph::Relative { reference, region, .. } => map.contains_key(reference@)
            ==> region_fits(glyphs[map[reference@] as int].region.min.spec_as_ivec2(), region),
    }
}

/// The glyphs and bindings after registering the first `n` custom entries in order, each
/// resolved against the glyphs and bindings from before the custom entries; or the first
/// unresolved reference.
pub open spec fn custom_run(
    glyphs: Seq<UTokenProps>,
    map: Map<Seq<char>, nat>,
    entries: Seq<(Token, CustomGlyph)>,
    n: int,
) -> Result<(Seq<UTokenProps>, Map<Seq<char>, nat>), Seq<char>>
    decreases n,
{
    if n <= 0 {
        Ok((glyphs, map))
    } else {
        match custom_run(glyphs, map, entries, n - 1) {
            Err(q) => Err(q),
            Ok((g, m)) => match custom_props(glyphs, map, entries[n - 1].1) {
                Some(p) => Ok((g.push(p), insert_all(m, entries[n - 1].0@, g.len()))),
                None => match entries[n - 1].1 {
                    CustomGlyph::Relative { reference, .. } => Err(reference@),
                    CustomGlyph::Absolute { .. } => Err(Seq::empty()),
                },
            },
        }
    }
}

/// Whether resolving every custom entry against the given glyphs and bindings stays within
/// `i32`.
pub open spec fn custom_fits(
    glyphs: Seq<UTokenProps>,
    map: Map<Seq<char>, nat>,
    entries: Seq<(Token, CustomGlyph)>,
) -> bool {
    forall|i: int| 0 <= i < entries.len() ==> custom_fits_one(glyphs, map, #[trigger] entries[i].1)
}

/// Once a custom entry fails to resolve, registering more entries reports the same failure.
pub(crate) proof fn lemma_custom_run_err_sticks(
    glyphs: Seq<UTokenProps>,
    map: Map<Seq<char>, nat>,
    entries: Seq<(Token, CustomGlyph)>,
    i: int,
    n: int,
)
    requires
        0 <= i <= n,
        custom_run(glyphs, map, entries, i) is Err,
    ensures
        custom_run(glyphs, map, entries, n) == custom_run(glyphs, map, entries, i),
    decreases n - i,
{
    if i < n {
        lemma_custom_run_err_sticks(glyphs, map, entries, i, n - 1);
    }
}

// ----------------------------------------------------------------------------------------------
// The whole build
// ----------------------------------------------------------------------------------------------

/// The glyphs and bindings of a layout on a sheet of `size`: its packed tokens, then its custom
/// glyphs; or the first unresolved reference of a custom glyph.
pub open spec fn font_glyphs(layout: FontLayout, size: UVec2) -> Result<
    (Seq<UTokenProps>, Map<Seq<char>, nat>),
    Seq<char>,
> {
    let placed = layout_placed(layout, size);
    custom_run(
        placed_glyphs(placed),
        insert_tokens(Map::empty(), placed_tokens(placed), 0),
        layout.manual_tokens@,
        layout.manual_tokens@.len() as int,
    )
}

/// Whether building a font of a layout on a sheet of `size` stays within the integer types:
/// packing and custom glyphs fit, and every registered glyph has a defined height.
pub open spec fn font_fits(layout: FontLayout, size: UVec2) -> bool {
    let placed = layout_placed(layout, size);
    &&& layout_fits(layout, size)
    &&& custom_fits(
        placed_glyphs(placed),
        insert_tokens(Map::empty(), placed_tokens(placed), 0),
        layout.manual_tokens@,
    )
    &&& font_glyphs(layout, size) matches Ok((g, m)) ==> forall|i: int|
        0 <= i < g.len() ==> (#[trigger] g[i]).region.height_defined()
}

} // verus!
