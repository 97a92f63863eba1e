//! Deciding, before a build, whether its arithmetic stays within the integer types.
//!
//! Each check computes exactly the corresponding `*_fits` specification, so that a caller can
//! test the precondition of [`build_font`](super::build_font) instead of assuming it.
use vstd::prelude::*;

use super::placement::{
    custom_fits, custom_fits_one, dyn_cursor, dyn_track, font_fits, insert_tokens, layout_fits, layout_placed,
    override_of, placed_glyphs, placed_tokens, region_fits, token_override, uniform_cell_exec,
    uniform_fits, PackingCursor,
};
use super::{FontAtlasBuilder, GlyphSheet, UTokenProps};
use crate::geometry::{IRect, IVec2, UVec2};
use crate::meta::{CustomGlyph, FontLayout, FontTrack, PackingMode};
use crate::token::Token;

verus! {

/// Whether translating `region` by `start` stays within `i32`.
fn region_fits_exec(start: IVec2, region: IRect) -> (r: bool)
    ensures
        r == region_fits(start, region),
{
    let a = start.x as i64 + region.min.x as i64;
    let b = start.y as i64 + region.min.y as i64;
    let c = start.x as i64 + region.max.x as i64;
    let d = start.y as i64 + region.max.y as i64;
    let lo = i32::MIN as i64;
    let hi = i32::MAX as i64;
    lo <= a && a <= hi && lo <= b && b <= hi && lo <= c && c <= hi && lo <= d && d <= hi
}

impl PackingCursor {
    /// Whether moving past a tile of `track` stays within `i32`.
    fn advance_fits_exec(&self, track: &FontTrack) -> (r: bool)
        ensures
            r == self.advance_fits(*track),
    {
        let tile = track.grid_tile_size.as_ivec2();
        let x = self.pos.x as i64 + tile.x as i64;
        let y = self.pos.y as i64 + self.tallest_in_row as i64;
        let lo = i32::MIN as i64;
        let hi = i32::MAX as i64;
        if !(lo <= x && x <= hi) {
            false
        } else if x > self.max_x as i64 {
            lo <= y && y <= hi
        } else {
            true
        }
    }
}

/// Whether placing the `i`-th token of a uniform layout stays within the integer types.
fn uniform_fits_exec(
    layout: &FontLayout,
    token: &Token,
    track: &FontTrack,
    size: UVec2,
    i: usize,
) -> (r: bool)
    requires
        i < layout.layout_tokens@.len(),
        token@ == layout.layout_tokens@[i as int],
    ensures
        r == uniform_fits(layout.layout_tokens@, layout.sequence_overrides@, *track, size, i as int),
{
    let (col, row) = uniform_cell_exec(i, track, size);
    let x = match col.checked_mul(track.grid_tile_size.x as u64) {
        Some(x) => x,
        None => return false,
    };
    let y = match row.checked_mul(track.grid_tile_size.y as u64) {
        Some(y) => y,
        None => return false,
    };
    if x > u32::MAX as u64 || y > u32::MAX as u64 {
        return false;
    }
    let start = UVec2::new(x as u32, y as u32).as_ivec2();
    let p = track.props(override_of(layout, token));
    region_fits_exec(start, p.region)
}

/// Whether placing a layout on a sheet of `size` stays within the integer types.
fn layout_fits_exec(layout: &FontLayout, size: UVec2) -> (r: bool)
    ensures
        r == layout_fits(*layout, size),
{
    let tokens = layout.ord_layout();
    let ghost ts = layout.layout_tokens@;
    let ghost ovs = layout.sequence_overrides@;
    match layout.packing_mode() {
        PackingMode::Uniform { track } => {
            let mut i: usize = 0;
            while i < tokens.len()
                invariant
                    crate::layout::tokens_view(tokens@) == ts,
                    ts == layout.layout_tokens@,
                    ovs == layout.sequence_overrides@,
                    layout.packing_mode == (PackingMode::Uniform { track: *track }),
                    i <= tokens@.len(),
                    forall|k: int| 0 <= k < i ==> uniform_fits(ts, ovs, *track, size, k),
                decreases tokens.len() - i,
            {
                assert(tokens@[i as int]@ == ts[i as int]);
                assert(ts.len() == tokens@.len());
                if !uniform_fits_exec(layout, &tokens[i], track, size, i) {
                    proof {
                        if layout_fits(*layout, size) {
                            assert(layout.packing_mode->track == *track);
                            assert(uniform_fits(layout.layout_tokens@, layout.sequence_overrides@, *track, size, i as int));
                        }
                    }
                    return false;
                }
                i = i + 1;
            }
            true
        },
        PackingMode::Dynamic { tracks } => {
            let ghost trs = tracks@;
            let mut current_track: Option<&FontTrack> = None;
            let mut cursor = PackingCursor::new(size);
            let mut i: usize = 0;
            while i < tokens.len()
                invariant
                    crate::layout::tokens_view(tokens@) == ts,
                    ts == layout.layout_tokens@,
                    ovs == layout.sequence_overrides@,
                    trs == tracks@,
                    layout.packing_mode == (PackingMode::Dynamic { tracks: *tracks }),
                    i <= tokens@.len(),
                    cursor == dyn_cursor(trs, ts, size, i as int),
                    match current_track {
                        Some(t) => dyn_track(trs, ts, i - 1) == Some(*t),
                        None => dyn_track(trs, ts, i - 1) is None,
                    },
                    forall|k: int|
                        0 <= k < i ==> match #[trigger] dyn_track(trs, ts, k) {
                            Some(t) => {
                                &&& dyn_cursor(trs, ts, size, k).advance_fits(t)
                                &&& region_fits(
                                    dyn_cursor(trs, ts, size, k).spec_row(t).pos,
                                    t.spec_props(token_override(ovs, ts[k])).region,
                                )
                            },
                            None => true,
                        },
                decreases tokens.len() - i,
            {
                let token = &tokens[i];
                assert(token@ == ts[i as int]);
                match crate::meta::find_track(tracks, token) {
                    Some(t) => {
                        current_track = Some(t);
                    },
                    None => {},
                }
                match current_track {
                    Some(track) => {
                        let p = track.props(override_of(layout, token));
                        if !cursor.advance_fits_exec(track) {
                            assert(!match dyn_track(trs, ts, i as int) {
                                Some(t) => {
                                    &&& dyn_cursor(trs, ts, size, i as int).advance_fits(t)
                                    &&& region_fits(
                                        dyn_cursor(trs, ts, size, i as int).spec_row(t).pos,
                                        t.spec_props(token_override(ovs, ts[i as int])).region,
                                    )
                                },
                                None => true,
                            });
                            return false;
                        }
                        let start = cursor.advance(track);
                        if !region_fits_exec(start, p.region) {
                            assert(!match dyn_track(trs, ts, i as int) {
                                Some(t) => {
                                    &&& dyn_cursor(trs, ts, size, i as int).advance_fits(t)
                                    &&& region_fits(
                                        dyn_cursor(trs, ts, size, i as int).spec_row(t).pos,
                                        t.spec_props(token_override(ovs, ts[i as int])).region,
                                    )
                                },
                                None => true,
                            });
                            return false;
                        }
                    },
                    None => {},
                }
                i = i + 1;
            }
            true
        },
    }
}

/// Whether building a font of `layout` on a sheet of `size` stays within the integer types;
/// `build_font` may be called exactly when this holds.
pub fn font_fits_exec(layout: &FontLayout, size: UVec2) -> (r: bool)
    ensures
        r == font_fits(*layout, size),
{
    if !layout_fits_exec(layout, size) {
        return false;
    }
    let ghost placed = layout_placed(*layout, size);
    let ghost g0 = placed_glyphs(placed);
    let ghost m0 = insert_tokens(Map::empty(), placed_tokens(placed), 0);
    let b = FontAtlasBuilder::with_capacity(0, 0).with_image(GlyphSheet { image: (), size });
    assert(Seq::<UTokenProps>::empty() + g0 =~= g0);
    let b = b.populate_layout(layout);
    let entries = layout.custom();
    let ghost es = entries@;
    let mut i: usize = 0;
    while i < entries.len()
        invariant
            es == entries@,
            es == layout.manual_tokens@,
            i <= es.len(),
            g0 == b.glyphs(),
            m0 == b.sequence_map(),
            layout_fits(*layout, size),
            g0 == placed_glyphs(layout_placed(*layout, size)),
            m0 == insert_tokens(Map::empty(), placed_tokens(layout_placed(*layout, size)), 0),
            forall|k: int| 0 <= k < i ==> custom_fits_one(g0, m0, #[trigger] es[k].1),
        decreases entries.len() - i,
    {
        match &entries[i].1 {
            CustomGlyph::Absolute { .. } => {},
            CustomGlyph::Relative { reference, region, .. } => {
                match b.get_glyph_by_sequence(reference) {
                    Some(g) => {
                        if !region_fits_exec(g.region.min.as_ivec2(), *region) {
                            assert(!custom_fits_one(g0, m0, es[i as int].1));
                            assert(!custom_fits(g0, m0, es));
                            return false;
                        }
                    },
                    None => {},
                }
            },
        }
        i = i + 1;
    }
    match b.custom_glyphs(entries) {
        Ok(c) => c.heights_defined_exec(),
        Err(_) => true,
    }
}

} // verus!
