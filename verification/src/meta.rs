//! The raster font asset format: a layout string, a packing mode, per-sequence overrides and
//! manually extracted glyphs.
//!
//! ```toml
//! layout = "abc$(->|=>)xyz"   # OrdTokenLayout string
//! image  = "font.png"         # relative path to the font texture
//!
//! [pack]                      # PackingMode: uniform grid or dynamic tracks
//! size   = [8, 8]
//! region = { min = [0, 0], max = [8, 8] }
//!
//! [override."a"]              # Optional per-glyph overrides (region, offset)
//! region = [[0, 0], [6, 8]]
//!
//! [extract."$(:))"]           # Manually extracted glyphs (ligatures, icons, etc.)
//! region = [[128, 0], [136, 8]]
//! ```
//!
//! Maps of the format (overrides, extracted glyphs, dynamic tracks) are held as lists of
//! `(key, value)` entries; a well-formed list holds each key once.
use vstd::prelude::*;

use crate::geometry::{IRect, IVec2, URect, UVec2};
use crate::grammar::TokenModel;
use crate::layout::OrdTokenLayout;
use crate::token::{flatten, count_fresh, seq_refs_view, token_refs_view, Sequence, Token, Unique};

verus! {

#[verifier::external_type_specification]
#[verifier::external_body]
pub struct ExPathBuf(std::path::PathBuf);

/// An image-based font: a name, the path of its texture, and its layout.
#[derive(Debug)]
pub struct FontMeta {
    /// A human-readable name for the font.
    pub name: Option<String>,
    /// Relative path to the font texture.
    pub image: std::path::PathBuf,
    /// The mapping of characters to glyphs and their properties.
    pub layout: FontLayout,
}

/// A font track: the template a glyph slot is cut from.
///
/// It gives the default region and offset of the glyphs placed with it, and how far the
/// atlas builder's view moves after each glyph.
#[derive(Clone, Copy, Debug, Default, PartialEq, Eq, Structural)]
pub struct FontTrack {
    /// The size of a tile that contains a single glyph, in pixels.
    pub grid_tile_size: UVec2,
    /// The region of the tile that holds the visible part of the glyph, in pixels.
    pub glyph_region: IRect,
    /// Shift applied to the glyph when rendering.
    pub offset: IVec2,
}

/// Per-sequence replacements for a track's region and offset.
#[derive(Clone, Copy, Debug, Default, PartialEq, Eq, Structural)]
pub struct GlyphOverride {
    /// The visible region of the glyph within its tile.
    pub region: Option<IRect>,
    /// Shift applied to the glyph when rendering.
    pub offset: Option<IVec2>,
}

/// A glyph extracted by hand rather than by the packing mode.
#[derive(Clone, Debug, PartialEq, Eq)]
#[allow(inconsistent_fields)]
pub enum CustomGlyph {
    /// A region relative to the top-left corner of the region of an already placed sequence.
    Relative {
        /// The sequence whose glyph region anchors this one.
        reference: Sequence,
        /// The region, relative to the reference glyph's top-left corner.
        region: IRect,
        /// Shift applied to the glyph when rendering.
        offset: IVec2,
    },
    /// A region given in atlas coordinates.
    Absolute {
        /// The region of the image that holds the glyph.
        region: URect,
        /// Shift applied to the glyph when rendering.
        offset: IVec2,
    },
}

/// How the atlas builder's view moves from one glyph slot to the next.
#[derive(Debug)]
pub enum PackingMode {
    /// Glyphs packed on a uniform grid of one track's tiles, left to right and wrapping to the
    /// next row.
    Uniform { track: FontTrack },
    /// Tracks that take over when their head token is reached in the layout.
    Dynamic { tracks: Vec<(Token, FontTrack)> },
}

impl Default for PackingMode {
    fn default() -> (r: Self)
        ensures
            r == (PackingMode::Uniform { track: FontTrack::spec_default() }),
    {
        PackingMode::Uniform { track: FontTrack::zeroed() }
    }
}

impl FontTrack {
    pub open spec fn spec_default() -> FontTrack {
        FontTrack {
            grid_tile_size: UVec2 { x: 0, y: 0 },
            glyph_region: IRect { min: IVec2 { x: 0, y: 0 }, max: IVec2 { x: 0, y: 0 } },
            offset: IVec2 { x: 0, y: 0 },
        }
    }

    /// The track with all sizes, regions and offsets zero.
    pub fn zeroed() -> (r: FontTrack)
        ensures
            r == Self::spec_default(),
    {
        FontTrack {
            grid_tile_size: UVec2 { x: 0, y: 0 },
            glyph_region: IRect { min: IVec2 { x: 0, y: 0 }, max: IVec2 { x: 0, y: 0 } },
            offset: IVec2 { x: 0, y: 0 },
        }
    }
}

/// The override of the first entry whose sequence is `key`.
pub open spec fn override_for(entries: Seq<(Sequence, GlyphOverride)>, key: Seq<char>) -> Option<
    GlyphOverride,
>
    decreases entries.len(),
{
    if entries.len() == 0 {
        None
    } else if entries[0].0@ == key {
        Some(entries[0].1)
    } else {
        override_for(entries.drop_first(), key)
    }
}

/// The track of the first entry whose token is `key`.
pub open spec fn track_for(entries: Seq<(Token, FontTrack)>, key: TokenModel) -> Option<FontTrack>
    decreases entries.len(),
{
    if entries.len() == 0 {
        None
    } else if entries[0].0@ == key {
        Some(entries[0].1)
    } else {
        track_for(entries.drop_first(), key)
    }
}

/// Whether each key occurs once.
pub open spec fn distinct_keys<K: View, W>(entries: Seq<(K, W)>) -> bool {
    forall|i: int, j: int|
        0 <= i < j < entries.len() ==> (#[trigger] entries[i]).0@ != (#[trigger] entries[j]).0@
}

/// Looks up the track whose head token is `key`.
pub fn find_track<'a>(entries: &'a Vec<(Token, FontTrack)>, key: &Token) -> (r: Option<&'a FontTrack>)
    ensures
        match track_for(entries@, key@) {
            Some(t) => r matches Some(x) && *x == t,
            None => r is None,
        },
{
    let mut i: usize = 0;
    assert(entries@.skip(0) =~= entries@);
    while i < entries.len()
        invariant
            i <= entries.len(),
            track_for(entries@, key@) == track_for(entries@.skip(i as int), key@),
        decreases entries.len() - i,
    {
        let ghost rest = entries@.skip(i as int);
        assert(rest[0] == entries@[i as int]);
        if entries[i].0.same_as(key) {
            return Some(&entries[i].1);
        }
        assert(rest.drop_first() =~= entries@.skip(i + 1));
        i = i + 1;
    }
    None
}

/// The layout of a font: its tokens, packing mode, overrides and extracted glyphs.
#[derive(Debug)]
pub struct FontLayout {
    /// The tokens of the font, in the order their glyphs appear in the texture atlas.
    pub layout_tokens: OrdTokenLayout,
    /// How the atlas is packed.
    pub packing_mode: PackingMode,
    /// Per-sequence overrides of region and offset. An override applies to a token when it is
    /// keyed by the token's first sequence.
    pub sequence_overrides: Vec<(Sequence, GlyphOverride)>,
    /// Glyphs extracted by hand, outside the packing mode.
    pub manual_tokens: Vec<(Token, CustomGlyph)>,
}

impl Default for FontLayout {
    fn default() -> (r: Self)
        ensures
            r.layout_tokens@.len() == 0,
            r.packing_mode == (PackingMode::Uniform { track: FontTrack::spec_default() }),
            r.sequence_overrides@.len() == 0,
            r.manual_tokens@.len() == 0,
    {
        FontLayout {
            layout_tokens: OrdTokenLayout::new(),
            packing_mode: PackingMode::default(),
            sequence_overrides: Vec::new(),
            manual_tokens: Vec::new(),
        }
    }
}

/// The token models of the extracted glyphs.
pub open spec fn manual_token_models(v: Seq<(Token, CustomGlyph)>) -> Seq<TokenModel> {
    v.map_values(|e: (Token, CustomGlyph)| e.0@)
}

impl FontLayout {
    /// All tokens: those of the ordered layout, then those of the extracted glyphs.
    pub open spec fn all_tokens(&self) -> Seq<TokenModel> {
        self.layout_tokens@ + manual_token_models(self.manual_tokens@)
    }

    /// The packing mode.
    pub fn packing_mode(&self) -> (r: &PackingMode)
        ensures
            *r == self.packing_mode,
    {
        &self.packing_mode
    }

    /// The override for `token`, if there is one.
    pub fn get_override(&self, token: &Sequence) -> (r: Option<&GlyphOverride>)
        ensures
            match override_for(self.sequence_overrides@, token@) {
                Some(o) => r matches Some(x) && *x == o,
                None => r is None,
            },
    {
        let entries = &self.sequence_overrides;
        let mut i: usize = 0;
        assert(entries@.skip(0) =~= entries@);
        while i < entries.len()
            invariant
                i <= entries.len(),
                entries == &self.sequence_overrides,
                override_for(entries@, token@) == override_for(entries@.skip(i as int), token@),
            decreases entries.len() - i,
        {
            let ghost rest = entries@.skip(i as int);
            assert(rest[0] == entries@[i as int]);
            if entries[i].0.same_as(token) {
                return Some(&entries[i].1);
            }
            assert(rest.drop_first() =~= entries@.skip(i + 1));
            i = i + 1;
        }
        None
    }

    /// The tokens of the ordered layout (without the extracted glyphs).
    pub fn ord_layout(&self) -> (r: &[Token])
        ensures
            crate::layout::tokens_view(r@) == self.layout_tokens@,
    {
        self.layout_tokens.tokens().as_slice()
    }

    /// The extracted glyphs.
    pub fn custom(&self) -> (r: &Vec<(Token, CustomGlyph)>)
        ensures
            r == &self.manual_tokens,
    {
        &self.manual_tokens
    }

    /// All tokens: those of the ordered layout, then those of the extracted glyphs.
    pub fn iter_tokens(&self) -> (r: Vec<&Token>)
        ensures
            token_refs_view(r@) == self.all_tokens(),
    {
        let mut out: Vec<&Token> = Vec::new();
        let toks = self.layout_tokens.tokens();
        let mut i: usize = 0;
        while i < toks.len()
            invariant
                i <= toks.len(),
                crate::layout::tokens_view(toks@) == self.layout_tokens@,
                token_refs_view(out@) == self.layout_tokens@.take(i as int),
            decreases toks.len() - i,
        {
            let ghost old_out = out@;
            let r: &Token = &toks[i];
            out.push(r);
            assert(token_refs_view(out@) =~= token_refs_view(old_out).push(r@));
            assert(self.layout_tokens@[i as int] == r@);
            assert(self.layout_tokens@.take(i + 1) =~= self.layout_tokens@.take(i as int).push(r@));
            i = i + 1;
        }
        assert(self.layout_tokens@.take(toks.len() as int) =~= self.layout_tokens@);
        let ghost head = self.layout_tokens@;
        let manual = &self.manual_tokens;
        let mut j: usize = 0;
        while j < manual.len()
            invariant
                j <= manual.len(),
                manual == &self.manual_tokens,
                head == self.layout_tokens@,
                token_refs_view(out@) == head + manual_token_models(manual@).take(j as int),
            decreases manual.len() - j,
        {
            let ghost old_out = out@;
            let r: &Token = &manual[j].0;
            out.push(r);
            assert(token_refs_view(out@) =~= token_refs_view(old_out).push(r@));
            assert(manual_token_models(manual@)[j as int] == r@);
            assert(manual_token_models(manual@).take(j + 1) =~= manual_token_models(manual@).take(
                j as int,
            ).push(r@));
            j = j + 1;
        }
        assert(manual_token_models(manual@).take(manual.len() as int) =~= manual_token_models(
            manual@,
        ));
        out
    }

    /// All sequences of all tokens (ordered layout first), one entry per token holding them.
    pub fn iter_sequences(&self) -> (r: Vec<&Sequence>)
        ensures
            seq_refs_view(r@) == flatten(self.all_tokens()),
    {
        let toks = self.iter_tokens();
        let ghost ts = token_refs_view(toks@);
        let mut out: Vec<&Sequence> = Vec::new();
        let mut i: usize = 0;
        assert(seq_refs_view(out@) =~= flatten(ts.take(0)));
        while i < toks.len()
            invariant
                i <= toks.len(),
                ts == token_refs_view(toks@),
                seq_refs_view(out@) == flatten(ts.take(i as int)),
            decreases toks.len() - i,
        {
            let seqs = toks[i].sequences();
            let ghost before = seq_refs_view(out@);
            let mut j: usize = 0;
            while j < seqs.len()
                invariant
                    j <= seqs.len(),
                    seq_refs_view(out@) == before + crate::token::seqs_view(seqs@).take(j as int),
                decreases seqs.len() - j,
            {
                let ghost old_out = out@;
                let r: &Sequence = &seqs[j];
                out.push(r);
                assert(seq_refs_view(out@) =~= seq_refs_view(old_out).push(r@));
                assert(crate::token::seqs_view(seqs@)[j as int] == r@);
                assert(crate::token::seqs_view(seqs@).take(j + 1) =~= crate::token::seqs_view(
                    seqs@,
                ).take(j as int).push(r@));
                j = j + 1;
            }
            assert(crate::token::seqs_view(seqs@).take(seqs.len() as int)
                =~= crate::token::seqs_view(seqs@));
            assert(ts.take(i + 1).drop_last() =~= ts.take(i as int));
            assert(ts[i as int] == crate::token::seqs_view(seqs@));
            i = i + 1;
        }
        assert(ts.take(toks.len() as int) =~= ts);
        out
    }

    /// The unique sequences of all tokens and the number of glyph regions they need.
    pub fn unique(&self) -> (r: Unique<'_>)
        ensures
            seq_refs_view(r.sequences@).no_duplicates(),
            forall|x: Seq<char>| #[trigger]
                seq_refs_view(r.sequences@).contains(x) <==> flatten(self.all_tokens()).contains(
                    x,
                ),
            r.num_regions == count_fresh(self.all_tokens()),
    {
        let toks = self.iter_tokens();
        Unique::from_tokens(&toks)
    }
}

} // verus!
