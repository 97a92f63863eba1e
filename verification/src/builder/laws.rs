//! Properties of the builder that relate several of its operations.
use vstd::prelude::*;

use super::placement::{
    custom_run,
    dyn_cursor, dyn_fits, dyn_placed, dyn_props, dyn_track, insert_tokens, layout_placed, placed_glyphs,
    placed_tokens, spec_extract_region, token_override, uniform_cell, uniform_columns,
    uniform_glyphs, uniform_placed, uniform_props, uniform_tile_start,
};
use super::scratch::{effective_height, insert_all};
use super::UTokenProps;
use crate::geometry::UVec2;
use crate::grammar::TokenModel;
use crate::meta::{CustomGlyph, FontLayout, FontTrack, GlyphOverride, PackingMode};
use crate::token::{Sequence, Token};

verus! {

/// Binding the sequences of `t` to `idx` binds each of them to `idx` and leaves every other
/// sequence as it was.
pub proof fn lemma_insert_all(m: Map<Seq<char>, nat>, t: TokenModel, idx: nat)
    ensures
        forall|q: Seq<char>|
            #![trigger insert_all(m, t, idx).contains_key(q)]
            t.contains(q) ==> insert_all(m, t, idx).contains_key(q) && insert_all(m, t, idx)[q]
                == idx,
        forall|q: Seq<char>|
            #![trigger insert_all(m, t, idx).contains_key(q)]
            !t.contains(q) ==> (insert_all(m, t, idx).contains_key(q) == m.contains_key(q) && (
            m.contains_key(q) ==> insert_all(m, t, idx)[q] == m[q])),
    decreases t.len(),
{
    if t.len() > 0 {
        let init = t.drop_last();
        lemma_insert_all(m, init, idx);
        let small = insert_all(m, init, idx);
        let big = insert_all(m, t, idx);
        assert(big == small.insert(t.last(), idx));
        assert forall|q: Seq<char>| t.contains(q) implies #[trigger] insert_all(m, t, idx).contains_key(
            q,
        ) && insert_all(m, t, idx)[q] == idx by {
            if q != t.last() {
                let k = choose|k: int| 0 <= k < t.len() && t[k] == q;
                assert(k != t.len() - 1);
                assert(init[k] == q);
                assert(init.contains(q));
                assert(small.contains_key(q) && small[q] == idx);
            }
        }
        assert forall|q: Seq<char>| !t.contains(q) implies (#[trigger] insert_all(
            m,
            t,
            idx,
        ).contains_key(q) == m.contains_key(q) && (m.contains_key(q) ==> insert_all(m, t, idx)[q]
            == m[q])) by {
            assert(t[t.len() - 1] == t.last());
            assert(q != t.last());
            if init.contains(q) {
                let k = choose|k: int| 0 <= k < init.len() && init[k] == q;
                assert(t[k] == q);
            }
            assert(small.contains_key(q) == m.contains_key(q));
        }
    }
}

/// After a token is added with a glyph, each of its sequences resolves to that glyph, and every
/// other sequence resolves as before.
pub proof fn lemma_add_token_then_get(
    glyphs: Seq<UTokenProps>,
    map: Map<Seq<char>, nat>,
    t: TokenModel,
    p: UTokenProps,
)
    requires
        forall|k: Seq<char>| #[trigger] map.contains_key(k) ==> map[k] < glyphs.len(),
    ensures
        forall|q: Seq<char>|
            t.contains(q) ==> #[trigger] insert_all(map, t, glyphs.len()).contains_key(q)
                && glyphs.push(p)[insert_all(map, t, glyphs.len())[q] as int] == p,
        forall|q: Seq<char>|
            !t.contains(q) ==> (#[trigger] insert_all(map, t, glyphs.len()).contains_key(q)
                == map.contains_key(q) && (map.contains_key(q) ==> glyphs.push(p)[insert_all(
                map,
                t,
                glyphs.len(),
            )[q] as int] == glyphs[map[q] as int])),
{
    lemma_insert_all(map, t, glyphs.len());
    let after = insert_all(map, t, glyphs.len());
    assert forall|q: Seq<char>| t.contains(q) implies #[trigger] insert_all(map, t, glyphs.len()).contains_key(q)
        && glyphs.push(p)[insert_all(map, t, glyphs.len())[q] as int] == p by {
        assert(t.contains(q));
        assert(insert_all(map, t, glyphs.len()).contains_key(q));
        assert(insert_all(map, t, glyphs.len())[q] == glyphs.len());
    }
    assert forall|q: Seq<char>| !t.contains(q) implies (#[trigger] insert_all(
        map,
        t,
        glyphs.len(),
    ).contains_key(q) == map.contains_key(q) && (map.contains_key(q) ==> glyphs.push(p)[insert_all(
        map,
        t,
        glyphs.len(),
    )[q] as int] == glyphs[map[q] as int])) by {
        assert(after.contains_key(q) == map.contains_key(q));
        if map.contains_key(q) {
            assert(map[q] < glyphs.len());
            assert(after[q] == map[q]);
        }
    }
}

/// The track in force before the first head token of a dynamic layout is none.
proof fn lemma_no_track_before_head(tracks: Seq<(Token, FontTrack)>, ts: Seq<TokenModel>, i: int)
    requires
        forall|j: int| 0 <= j <= i ==> #[trigger] crate::meta::track_for(tracks, ts[j]) is None,
    ensures
        dyn_track(tracks, ts, i) is None,
    decreases i + 1,
{
    if i >= 0 {
        lemma_no_track_before_head(tracks, ts, i - 1);
    }
}

/// Tokens of a dynamic layout before its first head token are not placed.
pub proof fn lemma_dyn_skips_before_head(
    tracks: Seq<(Token, FontTrack)>,
    ts: Seq<TokenModel>,
    overrides: Seq<(Sequence, GlyphOverride)>,
    size: UVec2,
    n: int,
)
    requires
        forall|j: int| 0 <= j < n ==> #[trigger] crate::meta::track_for(tracks, ts[j]) is None,
    ensures
        dyn_placed(tracks, ts, overrides, size, n).len() == 0,
    decreases n,
{
    if n > 0 {
        lemma_dyn_skips_before_head(tracks, ts, overrides, size, n - 1);
        lemma_no_track_before_head(tracks, ts, n - 1);
    }
}

/// Whether the `i`-th token of a dynamic layout, where it is placed, has a tile no wider than
/// the sheet (nor than `i32::MAX`) and a glyph region that lies within its tile horizontally.
pub open spec fn dyn_tile_within(
    tracks: Seq<(Token, FontTrack)>,
    ts: Seq<TokenModel>,
    overrides: Seq<(Sequence, GlyphOverride)>,
    size: UVec2,
    i: int,
) -> bool {
    match dyn_track(tracks, ts, i) {
        Some(t) => {
            let r = t.spec_props(token_override(overrides, ts[i])).region;
            &&& 0 < t.grid_tile_size.x <= size.x
            &&& t.grid_tile_size.x <= i32::MAX
            &&& 0 <= r.min.x <= r.max.x <= t.grid_tile_size.x
        },
        None => true,
    }
}

/// A width read as `i32` is either the width itself or negative.
proof fn lemma_width_as_i32(v: u32)
    ensures
        crate::geometry::u32_as_i32(v) >= 0 ==> crate::geometry::u32_as_i32(v) == v,
{
    assert(v <= 0x7fff_ffffu32 || (v as i32) < 0) by (bit_vector);
}

/// The cursor of a dynamic layout never stands left of the sheet, and a tile placed without
/// wrapping ends within the sheet, while every tile so far is no wider than the sheet.
proof fn lemma_dyn_cursor_in_row(
    tracks: Seq<(Token, FontTrack)>,
    ts: Seq<TokenModel>,
    overrides: Seq<(Sequence, GlyphOverride)>,
    size: UVec2,
    i: int,
)
    requires
        forall|j: int| 0 <= j < i ==> #[trigger] dyn_tile_within(tracks, ts, overrides, size, j),
    ensures
        0 <= dyn_cursor(tracks, ts, size, i).pos.x,
        dyn_cursor(tracks, ts, size, i).max_x == crate::geometry::u32_as_i32(size.x),
    decreases i,
{
    lemma_width_as_i32(size.x);
    if i > 0 {
        lemma_dyn_cursor_in_row(tracks, ts, overrides, size, i - 1);
        assert(dyn_tile_within(tracks, ts, overrides, size, i - 1));
    }
}

/// Where every placed token has a tile no wider than the sheet (nor than `i32::MAX`) and a glyph
/// region within its tile horizontally, every glyph that a dynamic layout places ends within the
/// sheet's width.
pub proof fn lemma_dyn_within_sheet(
    tracks: Seq<(Token, FontTrack)>,
    ts: Seq<TokenModel>,
    overrides: Seq<(Sequence, GlyphOverride)>,
    size: UVec2,
    n: int,
)
    requires
        forall|i: int| 0 <= i < n ==> #[trigger] dyn_tile_within(tracks, ts, overrides, size, i),
    ensures
        forall|j: int|
            0 <= j < placed_glyphs(dyn_placed(tracks, ts, overrides, size, n)).len() ==> (
            #[trigger] placed_glyphs(dyn_placed(tracks, ts, overrides, size, n))[j]).region.max.x
                <= size.x,
    decreases n,
{
    if n > 0 {
        lemma_dyn_within_sheet(tracks, ts, overrides, size, n - 1);
        let prev = dyn_placed(tracks, ts, overrides, size, n - 1);
        match dyn_track(tracks, ts, n - 1) {
            Some(t) => {
                let g = dyn_props(tracks, ts, overrides, size, n - 1, t);
                let next = prev.push((ts[n - 1], g));
                assert(placed_glyphs(next) =~= placed_glyphs(prev).push(g));
                lemma_dyn_cursor_in_row(tracks, ts, overrides, size, n - 1);
                assert(dyn_tile_within(tracks, ts, overrides, size, n - 1));
                let c = dyn_cursor(tracks, ts, size, n - 1);
                let row = c.spec_row(t);
                let tile_x = t.grid_tile_size.x;
                assert(crate::geometry::u32_as_i32(tile_x) == tile_x);
                lemma_width_as_i32(size.x);
                assert(0 <= row.pos.x && row.pos.x + tile_x <= size.x);
                assert(row.pos.x + tile_x <= i32::MAX);
                let r = t.spec_props(token_override(overrides, ts[n - 1])).region;
                let lo = row.pos.x + r.min.x;
                let hi = row.pos.x + r.max.x;
                assert(crate::geometry::i32_as_u32(lo as i32) == lo);
                assert(crate::geometry::i32_as_u32(hi as i32) == hi);
                assert(g.region.max.x == hi);
            },
            None => {},
        }
    }
}

/// Where the tiles are no wider than the sheet and every glyph region lies within its tile
/// horizontally, every glyph of a uniform layout ends within the sheet's width.
pub proof fn lemma_uniform_within_sheet(
    tokens: Seq<TokenModel>,
    overrides: Seq<(Sequence, GlyphOverride)>,
    track: FontTrack,
    size: UVec2,
)
    requires
        size.x <= i32::MAX,
        0 < track.grid_tile_size.x <= size.x,
        forall|i: int|
            0 <= i < tokens.len() ==> {
                let r = #[trigger] track.spec_props(token_override(overrides, tokens[i])).region;
                0 <= r.min.x <= r.max.x <= track.grid_tile_size.x
            },
    ensures
        forall|i: int|
            0 <= i < tokens.len() ==> (#[trigger] uniform_glyphs(tokens, overrides, track, size)[i]).region.max.x
                <= size.x,
{
    let tw = track.grid_tile_size.x as int;
    let w = size.x as int;
    let cols = uniform_columns(track, size);
    assert(w / tw >= 1 && (w / tw) * tw <= w) by (nonlinear_arith)
        requires
            0 < tw <= w,
    ;
    assert(cols == w / tw);
    assert forall|i: int| 0 <= i < tokens.len() implies (#[trigger] uniform_glyphs(
        tokens,
        overrides,
        track,
        size,
    )[i]).region.max.x <= size.x by {
        let col = uniform_cell(i, track, size).0;
        assert(col == i % cols);
        assert(0 <= col && col * tw + tw <= w) by (nonlinear_arith)
            requires
                col == i % cols,
                0 <= i,
                cols >= 1,
                cols * tw <= w,
                tw > 0,
                w >= 0,
        ;
        let start = uniform_tile_start(i, track, size);
        assert(start.x == col * tw);
        let r = track.spec_props(token_override(overrides, tokens[i])).region;
        let lo = start.x + r.min.x;
        let hi = start.x + r.max.x;
        assert(crate::geometry::i32_as_u32(lo as i32) == lo);
        assert(crate::geometry::i32_as_u32(hi as i32) == hi);
    }
}

/// Whether no sequence belongs to two tokens of `ts`.
pub open spec fn tokens_disjoint(ts: Seq<TokenModel>) -> bool {
    forall|a: int, b: int, q: Seq<char>|
        0 <= a < ts.len() && 0 <= b < ts.len() && a != b && #[trigger] ts[a].contains(q) ==> !(
        #[trigger] ts[b]).contains(q)
}

/// When no sequence belongs to two tokens, after binding the tokens of `ts` to consecutive
/// slots from `base`, each sequence of the `i`-th token is bound to slot `base + i`.
pub proof fn lemma_insert_tokens_lookup(
    m: Map<Seq<char>, nat>,
    ts: Seq<TokenModel>,
    base: nat,
    i: int,
    q: Seq<char>,
)
    requires
        tokens_disjoint(ts),
        0 <= i < ts.len(),
        ts[i].contains(q),
    ensures
        insert_tokens(m, ts, base).contains_key(q),
        insert_tokens(m, ts, base)[q] == base + i,
    decreases ts.len(),
{
    let last = ts.len() - 1;
    let init = ts.drop_last();
    lemma_insert_all(insert_tokens(m, init, base), ts.last(), (base + last) as nat);
    if i == last {
        assert(insert_all(insert_tokens(m, init, base), ts.last(), (base + last) as nat).contains_key(q));
    } else {
        assert(init[i] == ts[i]);
        assert(!ts[last].contains(q));
        assert(tokens_disjoint(init)) by {
            assert forall|a: int, b: int, x: Seq<char>|
                0 <= a < init.len() && 0 <= b < init.len() && a != b && #[trigger] init[a].contains(x)
                    implies !(#[trigger] init[b]).contains(x) by {
                assert(init[a] == ts[a] && init[b] == ts[b]);
            }
        }
        lemma_insert_tokens_lookup(m, init, base, i, q);
        assert(insert_all(insert_tokens(m, init, base), ts.last(), (base + last) as nat).contains_key(q));
    }
}

/// After a uniform layout whose tokens share no sequence, each sequence of the `i`-th token is
/// bound to the `i`-th new slot, which holds the glyph cut from the `i`-th tile: the track's
/// offset and region, or those of the token's override, placed at the tile's top-left corner.
pub proof fn lemma_uniform_lookup(
    g0: Seq<UTokenProps>,
    m0: Map<Seq<char>, nat>,
    tokens: Seq<TokenModel>,
    overrides: Seq<(Sequence, GlyphOverride)>,
    track: FontTrack,
    size: UVec2,
    i: int,
    q: Seq<char>,
)
    requires
        tokens_disjoint(tokens),
        0 <= i < tokens.len(),
        tokens[i].contains(q),
    ensures
        ({
            let m = insert_tokens(m0, tokens, g0.len());
            let g = g0 + uniform_glyphs(tokens, overrides, track, size);
            let p = track.spec_props(token_override(overrides, tokens[i]));
            &&& m.contains_key(q)
            &&& m[q] == g0.len() + i
            &&& g[m[q] as int] == (UTokenProps {
                offset: p.offset,
                region: spec_extract_region(uniform_tile_start(i, track, size), p.region),
            })
        }),
{
    lemma_insert_tokens_lookup(m0, tokens, g0.len(), i, q);
    let g = g0 + uniform_glyphs(tokens, overrides, track, size);
    assert(g[g0.len() + i] == uniform_glyphs(tokens, overrides, track, size)[i]);
}

/// A layout is placed by its packing mode: a uniform layout as `uniform_layout` places it, a
/// dynamic one as `dynamic_layout` does.
pub proof fn lemma_populate_dispatch(layout: FontLayout, size: UVec2)
    ensures
        match layout.packing_mode {
            PackingMode::Uniform { track } => {
                &&& placed_glyphs(layout_placed(layout, size)) == uniform_glyphs(
                    layout.layout_tokens@,
                    layout.sequence_overrides@,
                    track,
                    size,
                )
                &&& placed_tokens(layout_placed(layout, size)) == layout.layout_tokens@
            },
            PackingMode::Dynamic { tracks } => layout_placed(layout, size) == dyn_placed(
                tracks@,
                layout.layout_tokens@,
                layout.sequence_overrides@,
                size,
                layout.layout_tokens@.len() as int,
            ),
        },
{
    match layout.packing_mode {
        PackingMode::Uniform { track } => {
            let pl = uniform_placed(layout.layout_tokens@, layout.sequence_overrides@, track, size);
            assert(placed_glyphs(pl) =~= uniform_glyphs(
                layout.layout_tokens@,
                layout.sequence_overrides@,
                track,
                size,
            ));
            assert(placed_tokens(pl) =~= layout.layout_tokens@);
        },
        PackingMode::Dynamic { .. } => {},
    }
}

/// An override replaces exactly the fields it gives: a field it leaves out keeps the track's
/// default, a field it gives is used as given, and without an override a glyph takes the
/// track's region and offset. Each field of the result depends on that field of the override
/// alone.
pub proof fn lemma_override_fields(track: FontTrack, o: GlyphOverride, o2: GlyphOverride)
    ensures
        track.spec_props(None).region == track.glyph_region,
        track.spec_props(None).offset == track.offset,
        o.region is None ==> track.spec_props(Some(o)).region == track.glyph_region,
        o.offset is None ==> track.spec_props(Some(o)).offset == track.offset,
        o.region matches Some(r) ==> track.spec_props(Some(o)).region == r,
        o.offset matches Some(v) ==> track.spec_props(Some(o)).offset == v,
        o.region == o2.region ==> track.spec_props(Some(o)).region == track.spec_props(
            Some(o2),
        ).region,
        o.offset == o2.offset ==> track.spec_props(Some(o)).offset == track.spec_props(
            Some(o2),
        ).offset,
{
}

/// After registering custom entries, the `k`-th entry's glyph is the `k`-th new glyph. An
/// absolute entry's glyph is its region and offset as given. A relative entry's glyph has its
/// own offset, and its region is the given region moved by the top-left corner of the reference
/// glyph (registered before the custom entries), in both directions; this is stated for a
/// region given with `min <= max` at non-negative coordinates, moved within `i32`.
pub proof fn lemma_custom_glyph_placement(
    glyphs: Seq<UTokenProps>,
    map: Map<Seq<char>, nat>,
    entries: Seq<(Token, CustomGlyph)>,
    n: int,
    k: int,
)
    requires
        0 <= k < n <= entries.len(),
        custom_run(glyphs, map, entries, n) is Ok,
    ensures
        ({
            let g = custom_run(glyphs, map, entries, n)->Ok_0.0;
            &&& g.len() == glyphs.len() + n
            &&& g.subrange(0, glyphs.len() as int) == glyphs
            &&& match entries[k].1 {
                CustomGlyph::Absolute { region, offset } => g[glyphs.len() + k] == (UTokenProps {
                    region,
                    offset,
                }),
                CustomGlyph::Relative { reference, region, offset } => {
                    let anchor = glyphs[map[reference@] as int].region.min;
                    let placed = g[glyphs.len() + k];
                    &&& map.contains_key(reference@)
                    &&& placed.offset == offset
                    &&& (0 <= region.min.x <= region.max.x && 0 <= region.min.y <= region.max.y
                        && anchor.x + region.max.x <= i32::MAX && anchor.y + region.max.y
                        <= i32::MAX) ==> {
                        &&& placed.region.min.x == anchor.x + region.min.x
                        &&& placed.region.min.y == anchor.y + region.min.y
                        &&& placed.region.max.x == anchor.x + region.max.x
                        &&& placed.region.max.y == anchor.y + region.max.y
                    }
                },
            }
        }),
    decreases n,
{
    let prev = custom_run(glyphs, map, entries, n - 1);
    assert(prev is Ok);
    let g0 = prev->Ok_0.0;
    if k < n - 1 {
        lemma_custom_glyph_placement(glyphs, map, entries, n - 1, k);
        let g = custom_run(glyphs, map, entries, n)->Ok_0.0;
        assert(g == g0.push(g[g.len() - 1]));
        assert(g[glyphs.len() + k] == g0[glyphs.len() + k]);
        assert(g.subrange(0, glyphs.len() as int) =~= g0.subrange(0, glyphs.len() as int));
    } else {
        if n - 1 > 0 {
            lemma_custom_glyph_placement(glyphs, map, entries, n - 1, 0);
        } else {
            assert(g0 == glyphs);
            assert(glyphs.subrange(0, glyphs.len() as int) =~= glyphs);
        }
        let g = custom_run(glyphs, map, entries, n)->Ok_0.0;
        assert(g.subrange(0, glyphs.len() as int) =~= g0.subrange(0, glyphs.len() as int));
        match entries[k].1 {
            CustomGlyph::Absolute { .. } => {},
            CustomGlyph::Relative { reference, region, offset } => {
                let anchor = glyphs[map[reference@] as int].region.min;
                if 0 <= region.min.x <= region.max.x && 0 <= region.min.y <= region.max.y
                    && anchor.x + region.max.x <= i32::MAX && anchor.y + region.max.y <= i32::MAX {
                    let ax = anchor.x;
                    let ay = anchor.y;
                    assert(crate::geometry::u32_as_i32(ax) == ax);
                    assert(crate::geometry::u32_as_i32(ay) == ay);
                    let lo_x = ax + region.min.x;
                    let hi_x = ax + region.max.x;
                    let lo_y = ay + region.min.y;
                    let hi_y = ay + region.max.y;
                    assert(crate::geometry::i32_as_u32(lo_x as i32) == lo_x);
                    assert(crate::geometry::i32_as_u32(hi_x as i32) == hi_x);
                    assert(crate::geometry::i32_as_u32(lo_y as i32) == lo_y);
                    assert(crate::geometry::i32_as_u32(hi_y as i32) == hi_y);
                }
            },
        }
    }
}

/// Whether the tile of the `i`-th token of a dynamic layout, where it is placed, is no wider
/// and no taller than `i32::MAX`.
pub open spec fn dyn_tile_in_range(tracks: Seq<(Token, FontTrack)>, ts: Seq<TokenModel>, i: int) -> bool {
    match dyn_track(tracks, ts, i) {
        Some(t) => t.grid_tile_size.x <= i32::MAX && t.grid_tile_size.y <= i32::MAX,
        None => true,
    }
}

/// The tile of the `k`-th token of a dynamic layout, where it is placed, as
/// `(left, top, width, height)`.
pub open spec fn dyn_tile(
    tracks: Seq<(Token, FontTrack)>,
    ts: Seq<TokenModel>,
    size: UVec2,
    k: int,
) -> Option<(int, int, int, int)> {
    match dyn_track(tracks, ts, k) {
        Some(t) => {
            let p = dyn_cursor(tracks, ts, size, k).spec_row(t).pos;
            Some((p.x as int, p.y as int, t.grid_tile_size.x as int, t.grid_tile_size.y as int))
        },
        None => None,
    }
}

/// The top of the tile of the `k`-th token of a dynamic layout, where it is placed.
pub open spec fn dyn_top(tracks: Seq<(Token, FontTrack)>, ts: Seq<TokenModel>, size: UVec2, k: int) -> Option<int> {
    match dyn_tile(tracks, ts, size, k) {
        Some((x, y, w, h)) => Some(y),
        None => None,
    }
}

/// The bottom of the tile of the `k`-th token of a dynamic layout, where it is placed.
pub open spec fn dyn_bottom(tracks: Seq<(Token, FontTrack)>, ts: Seq<TokenModel>, size: UVec2, k: int) -> Option<int> {
    match dyn_tile(tracks, ts, size, k) {
        Some((x, y, w, h)) => Some(y + h),
        None => None,
    }
}

/// The right end of the tile of the `k`-th token of a dynamic layout, where it is placed.
pub open spec fn dyn_right(tracks: Seq<(Token, FontTrack)>, ts: Seq<TokenModel>, size: UVec2, k: int) -> Option<int> {
    match dyn_tile(tracks, ts, size, k) {
        Some((x, y, w, h)) => Some(x + w),
        None => None,
    }
}

/// What holds of the tiles placed before the `n`-th token of a dynamic layout, against the
/// cursor there: each lies in the current row (at its top, no taller than its tallest tile) or
/// ends at or above it; the row's top is the bottom of some tile (or the sheet's top); the
/// row's tallest height is reached by a tile of the row (or is zero); and the cursor stands at
/// the right end of a tile of the row (or at the sheet's left edge).
pub open spec fn dyn_rows_clear(
    tracks: Seq<(Token, FontTrack)>,
    ts: Seq<TokenModel>,
    size: UVec2,
    n: int,
) -> bool {
    let c = dyn_cursor(tracks, ts, size, n);
    &&& c.tallest_in_row >= 0
    &&& forall|k: int|
        0 <= k < n ==> match #[trigger] dyn_tile(tracks, ts, size, k) {
            Some((x, y, w, h)) => {
                ||| y == c.pos.y && y + h <= c.pos.y + c.tallest_in_row
                ||| y + h <= c.pos.y
            },
            None => true,
        }
    &&& c.pos.y == 0 || exists|k: int|
        0 <= k < n && #[trigger] dyn_bottom(tracks, ts, size, k) == Some(c.pos.y as int)
    &&& c.tallest_in_row == 0 || exists|k: int|
        0 <= k < n && dyn_top(tracks, ts, size, k) == Some(c.pos.y as int) && #[trigger] dyn_bottom(
            tracks,
            ts,
            size,
            k,
        ) == Some(c.pos.y + c.tallest_in_row)
    &&& c.pos.x == 0 || exists|k: int|
        0 <= k < n && dyn_top(tracks, ts, size, k) == Some(c.pos.y as int) && #[trigger] dyn_right(
            tracks,
            ts,
            size,
            k,
        ) == Some(c.pos.x as int)
}

#[verifier::rlimit(40)]
proof fn lemma_dyn_rows_clear(
    tracks: Seq<(Token, FontTrack)>,
    ts: Seq<TokenModel>,
    overrides: Seq<(Sequence, GlyphOverride)>,
    size: UVec2,
    n: int,
)
    requires
        dyn_fits(tracks, ts, overrides, size),
        0 <= n <= ts.len(),
        forall|k: int| 0 <= k < ts.len() ==> #[trigger] dyn_tile_in_range(tracks, ts, k),
    ensures
        dyn_rows_clear(tracks, ts, size, n),
    decreases n,
{
    if n > 0 {
        lemma_dyn_rows_clear(tracks, ts, overrides, size, n - 1);
        let c = dyn_cursor(tracks, ts, size, n - 1);
        let c2 = dyn_cursor(tracks, ts, size, n);
        assert(dyn_tile_in_range(tracks, ts, n - 1));
        match dyn_track(tracks, ts, n - 1) {
            Some(t) => {
                assert(c2 == c.spec_advance(t));
                assert(c.advance_fits(t));
                let w = t.grid_tile_size.x;
                let h = t.grid_tile_size.y;
                assert(crate::geometry::u32_as_i32(w) == w);
                assert(crate::geometry::u32_as_i32(h) == h);
                let tile = dyn_tile(tracks, ts, size, n - 1);
                let row = c.spec_row(t);
                assert(tile == Some((row.pos.x as int, row.pos.y as int, w as int, h as int)));
                assert forall|k: int| 0 <= k < n implies match #[trigger] dyn_tile(
                    tracks,
                    ts,
                    size,
                    k,
                ) {
                    Some((x, y, wk, hk)) => {
                        ||| y == c2.pos.y && y + hk <= c2.pos.y + c2.tallest_in_row
                        ||| y + hk <= c2.pos.y
                    },
                    None => true,
                } by {
                    if k < n - 1 {
                        assert(dyn_rows_clear(tracks, ts, size, n - 1));
                    }
                }
                if c2.pos.y != 0 {
                    if c.wraps(t) && c.tallest_in_row != 0 {
                        let k = choose|k: int|
                            0 <= k < n - 1 && dyn_top(tracks, ts, size, k) == Some(c.pos.y as int)
                                && #[trigger] dyn_bottom(tracks, ts, size, k) == Some(
                                c.pos.y + c.tallest_in_row,
                            );
                        assert(dyn_bottom(tracks, ts, size, k) == Some(c2.pos.y as int));
                    } else {
                        let k = choose|k: int|
                            0 <= k < n - 1 && #[trigger] dyn_bottom(tracks, ts, size, k) == Some(
                                c.pos.y as int,
                            );
                        assert(dyn_bottom(tracks, ts, size, k) == Some(c2.pos.y as int));
                    }
                }
                if c2.tallest_in_row != 0 {
                    if c.wraps(t) || h >= c.tallest_in_row {
                        assert(dyn_top(tracks, ts, size, n - 1) == Some(c2.pos.y as int));
                        assert(dyn_bottom(tracks, ts, size, n - 1) == Some(
                            c2.pos.y + c2.tallest_in_row,
                        ));
                    } else {
                        let k = choose|k: int|
                            0 <= k < n - 1 && dyn_top(tracks, ts, size, k) == Some(c.pos.y as int)
                                && #[trigger] dyn_bottom(tracks, ts, size, k) == Some(
                                c.pos.y + c.tallest_in_row,
                            );
                        assert(dyn_bottom(tracks, ts, size, k) == Some(
                            c2.pos.y + c2.tallest_in_row,
                        ));
                    }
                }
                assert(dyn_top(tracks, ts, size, n - 1) == Some(c2.pos.y as int));
                assert(dyn_right(tracks, ts, size, n - 1) == Some(c2.pos.x as int));
            },
            None => {
                assert(c2 == c);
                assert(dyn_tile(tracks, ts, size, n - 1) is None);
                assert forall|k: int| 0 <= k < n implies match #[trigger] dyn_tile(
                    tracks,
                    ts,
                    size,
                    k,
                ) {
                    Some((x, y, wk, hk)) => {
                        ||| y == c2.pos.y && y + hk <= c2.pos.y + c2.tallest_in_row
                        ||| y + hk <= c2.pos.y
                    },
                    None => true,
                } by {
                    if k < n - 1 {
                        assert(dyn_rows_clear(tracks, ts, size, n - 1));
                    }
                }
            },
        }
    }
}

/// How each tile of a dynamic layout stands against the tiles placed before it.
///
/// - Rows do not overlap: the tile of a later token starts in the same row as the tile of an
///   earlier token, or at or below that tile's bottom; so a new row begins below the tallest
///   tile of the row before, not merely below the last one.
/// - Nothing is left empty: a tile's top is the sheet's top or the bottom of an earlier tile,
///   and its left side is the sheet's left edge or the right end of an earlier tile of its row.
/// - A tile goes to a new row exactly when it would pass the right edge of the sheet after the
///   tile before it.
pub proof fn lemma_dyn_tile_placement(
    tracks: Seq<(Token, FontTrack)>,
    ts: Seq<TokenModel>,
    overrides: Seq<(Sequence, GlyphOverride)>,
    size: UVec2,
    j: int,
)
    requires
        dyn_fits(tracks, ts, overrides, size),
        forall|k: int| 0 <= k < ts.len() ==> #[trigger] dyn_tile_in_range(tracks, ts, k),
        0 <= j < ts.len(),
        dyn_track(tracks, ts, j) is Some,
    ensures
        ({
            let (xj, yj, wj, hj) = dyn_tile(tracks, ts, size, j)->Some_0;
            let c = dyn_cursor(tracks, ts, size, j);
            let right = crate::geometry::u32_as_i32(size.x);
            &&& forall|i: int|
                0 <= i < j && #[trigger] dyn_tile(tracks, ts, size, i) is Some ==> {
                    let (xi, yi, wi, hi) = dyn_tile(tracks, ts, size, i)->Some_0;
                    yj == yi || yj >= yi + hi
                }
            &&& yj == 0 || exists|i: int| 0 <= i < j && #[trigger] dyn_bottom(tracks, ts, size, i) == Some(yj)
            &&& xj == 0 || exists|i: int|
                0 <= i < j && dyn_top(tracks, ts, size, i) == Some(yj) && #[trigger] dyn_right(
                    tracks,
                    ts,
                    size,
                    i,
                ) == Some(xj)
            &&& c.pos.x + wj > right ==> xj == 0
            &&& c.pos.x + wj <= right ==> xj == c.pos.x
            &&& c.pos.x == 0 || exists|i: int|
                0 <= i < j && #[trigger] dyn_right(tracks, ts, size, i) == Some(c.pos.x as int)
        }),
{
    lemma_dyn_rows_clear(tracks, ts, overrides, size, j);
    let tj = dyn_track(tracks, ts, j)->Some_0;
    let c = dyn_cursor(tracks, ts, size, j);
    assert(c.advance_fits(tj));
    assert(dyn_tile_in_range(tracks, ts, j));
    assert(crate::geometry::u32_as_i32(tj.grid_tile_size.x) == tj.grid_tile_size.x);
    lemma_dyn_cursor_max_x(tracks, ts, size, j);
    let (xj, yj, wj, hj) = dyn_tile(tracks, ts, size, j)->Some_0;
    assert forall|i: int| 0 <= i < j && #[trigger] dyn_tile(tracks, ts, size, i) is Some implies {
        let (xi, yi, wi, hi) = dyn_tile(tracks, ts, size, i)->Some_0;
        yj == yi || yj >= yi + hi
    } by {
        assert(match dyn_tile(tracks, ts, size, i) {
            Some((x, y, w, h)) => {
                ||| y == c.pos.y && y + h <= c.pos.y + c.tallest_in_row
                ||| y + h <= c.pos.y
            },
            None => true,
        });
    }
    if yj != 0 {
        if c.wraps(tj) && c.tallest_in_row != 0 {
            let k = choose|k: int|
                0 <= k < j && dyn_top(tracks, ts, size, k) == Some(c.pos.y as int)
                    && #[trigger] dyn_bottom(tracks, ts, size, k) == Some(c.pos.y + c.tallest_in_row);
            assert(dyn_bottom(tracks, ts, size, k) == Some(yj));
        } else {
            let k = choose|k: int|
                0 <= k < j && #[trigger] dyn_bottom(tracks, ts, size, k) == Some(c.pos.y as int);
            assert(dyn_bottom(tracks, ts, size, k) == Some(yj));
        }
    }
    if xj != 0 {
        let k = choose|k: int|
            0 <= k < j && dyn_top(tracks, ts, size, k) == Some(c.pos.y as int)
                && #[trigger] dyn_right(tracks, ts, size, k) == Some(c.pos.x as int);
        assert(dyn_top(tracks, ts, size, k) == Some(yj));
        assert(dyn_right(tracks, ts, size, k) == Some(xj));
    }
    if c.pos.x != 0 {
        let k = choose|k: int|
            0 <= k < j && dyn_top(tracks, ts, size, k) == Some(c.pos.y as int)
                && #[trigger] dyn_right(tracks, ts, size, k) == Some(c.pos.x as int);
        assert(dyn_right(tracks, ts, size, k) == Some(c.pos.x as int));
    }
}

/// The cursor of a dynamic layout keeps the sheet's width, read as `i32`.
proof fn lemma_dyn_cursor_max_x(
    tracks: Seq<(Token, FontTrack)>,
    ts: Seq<TokenModel>,
    size: UVec2,
    i: int,
)
    ensures
        dyn_cursor(tracks, ts, size, i).max_x == crate::geometry::u32_as_i32(size.x),
    decreases i,
{
    if i > 0 {
        lemma_dyn_cursor_max_x(tracks, ts, size, i - 1);
    }
}

/// Uniform tiles are laid in reading order: the first tile at the sheet's top-left corner, and
/// each next tile right after the one before when it still ends within the sheet's width, else
/// at the left edge one tile height lower. Stated where the tile corners fit in `i32`.
pub proof fn lemma_uniform_reading_order(track: FontTrack, size: UVec2, i: int)
    requires
        0 <= i,
        uniform_cell(i, track, size).0 * track.grid_tile_size.x <= i32::MAX,
        uniform_cell(i, track, size).1 * track.grid_tile_size.y <= i32::MAX,
        uniform_cell(i + 1, track, size).0 * track.grid_tile_size.x <= i32::MAX,
        uniform_cell(i + 1, track, size).1 * track.grid_tile_size.y <= i32::MAX,
    ensures
        uniform_tile_start(0, track, size) == (crate::geometry::IVec2 { x: 0, y: 0 }),
        ({
            let a = uniform_tile_start(i, track, size);
            let b = uniform_tile_start(i + 1, track, size);
            let tw = track.grid_tile_size.x;
            let th = track.grid_tile_size.y;
            &&& a.x + 2 * tw <= size.x ==> b.x == a.x + tw && b.y == a.y
            &&& a.x + 2 * tw > size.x ==> b.x == 0 && b.y == a.y + th
        }),
{
    let tw = track.grid_tile_size.x as int;
    let th = track.grid_tile_size.y as int;
    let w = size.x as int;
    let ca = uniform_cell(i, track, size);
    let cb = uniform_cell(i + 1, track, size);
    assert(ca.0 * tw >= 0 && ca.1 * th >= 0 && cb.0 * tw >= 0 && cb.1 * th >= 0) by (nonlinear_arith)
        requires
            ca.0 >= 0,
            ca.1 >= 0,
            cb.0 >= 0,
            cb.1 >= 0,
            tw >= 0,
            th >= 0,
    {
    }
    let ax = ca.0 * tw;
    let ay = ca.1 * th;
    let bx = cb.0 * tw;
    let by = cb.1 * th;
    assert(crate::geometry::u32_as_i32(ax as u32) == ax);
    assert(crate::geometry::u32_as_i32(ay as u32) == ay);
    assert(crate::geometry::u32_as_i32(bx as u32) == bx);
    assert(crate::geometry::u32_as_i32(by as u32) == by);
    assert(uniform_tile_start(i, track, size).x == ax);
    assert(uniform_tile_start(i, track, size).y == ay);
    assert(uniform_tile_start(i + 1, track, size).x == bx);
    assert(uniform_tile_start(i + 1, track, size).y == by);
    if tw == 0 {
        assert(uniform_cell(0, track, size) == (0int, 0int));
    }
    if tw > 0 {
        let cols = uniform_columns(track, size);
        assert(cols >= 1);
        vstd::arithmetic::div_mod::lemma_fundamental_div_mod_converse(0, cols, 0, 0);
        assert(uniform_cell(0, track, size) == (0int, 0int));
        assert(0 * tw == 0 && 0 * th == 0);
        let col = i % cols;
        let row = i / cols;
        vstd::arithmetic::div_mod::lemma_fundamental_div_mod(i, cols);
        assert(0 <= col < cols) by {
            vstd::arithmetic::div_mod::lemma_mod_bound(i, cols);
        }
        if col + 1 < cols {
            vstd::arithmetic::div_mod::lemma_fundamental_div_mod_converse(i + 1, cols, row, col + 1);
            assert((col + 2) <= cols);
            if w / tw == 0 {
                assert(false);
            }
            assert((col + 2) * tw <= w) by (nonlinear_arith)
                requires
                    col + 2 <= w / tw,
                    tw > 0,
                    w >= 0,
            {
                assert((col + 2) * tw <= (w / tw) * tw);
            }
            assert(col * tw + 2 * tw == (col + 2) * tw) by (nonlinear_arith);
            assert((col + 1) * tw == col * tw + tw) by (nonlinear_arith);
        } else {
            assert(col == cols - 1);
            assert(i + 1 == (row + 1) * cols + 0) by (nonlinear_arith)
                requires
                    i == cols * row + col,
                    col == cols - 1,
            ;
            vstd::arithmetic::div_mod::lemma_fundamental_div_mod_converse(i + 1, cols, row + 1, 0);
            assert(w < (cols + 1) * tw) by (nonlinear_arith)
                requires
                    cols == (if w / tw == 0 { 1 } else { w / tw }),
                    tw > 0,
                    w >= 0,
            {
                assert(w < (w / tw + 1) * tw);
            }
            assert(col * tw + 2 * tw == (cols + 1) * tw) by (nonlinear_arith)
                requires
                    col == cols - 1,
            ;
            assert((row + 1) * th == row * th + th) by (nonlinear_arith);
        }
    }
}

/// The effective height of a glyph is its region's height moved by its vertical offset, held
/// within `u32`: the height itself without an offset, no less with a downward offset and no
/// more with an upward one, zero where the offset lifts the glyph past its own height, and a
/// larger offset never gives a smaller height.
pub proof fn lemma_effective_height(g: UTokenProps, g2: UTokenProps)
    requires
        g.region.height_defined(),
        g2.region == g.region,
    ensures
        ({
            let h = g.region.max.y - g.region.min.y;
            &&& g.offset.y == 0 ==> effective_height(g) == h
            &&& g.offset.y >= 0 ==> effective_height(g) >= h
            &&& g.offset.y <= 0 ==> effective_height(g) <= h
            &&& h + g.offset.y <= 0 ==> effective_height(g) == 0
            &&& 0 <= h + g.offset.y <= u32::MAX ==> effective_height(g) == h + g.offset.y
            &&& g.offset.y <= g2.offset.y ==> effective_height(g) <= effective_height(g2)
        }),
{
}

} // verus!
