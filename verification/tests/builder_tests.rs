use raster_font::backend::{Backend, BackendBuilder, RasterFont, SpriteSheet};
use raster_font::builder::{
    FontAtlasBuilder, FontBuilderError, GlyphSheet, ITokenProps, RawFont, UTokenProps,
};
use raster_font::geometry::{IRect, IVec2, URect, UVec2};
use raster_font::layout::OrdTokenLayout;
use raster_font::meta::{CustomGlyph, FontLayout, FontTrack, GlyphOverride, PackingMode};
use raster_font::token::{Sequence, Token};
use raster_font::tree::InputResolver;

struct TestBackend;

impl Backend for TestBackend {
    type Atlas = ();
    type Image = ();
    type Resources = Vec<UTokenProps>;
}

struct TestBuilder;

impl BackendBuilder for TestBuilder {
    type Backend = TestBackend;
    type Error = String;
    type Sheet = &'static str;

    fn build_resources(self, raw_font: RawFont<&'static str>) -> Result<Vec<UTokenProps>, String> {
        assert_eq!(raw_font.sheet.image, "sheet.png");
        Ok(raw_font.glyphs)
    }
}

struct FailingBuilder;

impl BackendBuilder for FailingBuilder {
    type Backend = TestBackend;
    type Error = String;
    type Sheet = &'static str;

    fn build_resources(self, _raw_font: RawFont<&'static str>) -> Result<Vec<UTokenProps>, String> {
        Err("no device".to_string())
    }
}

fn track(w: u32, h: u32) -> FontTrack {
    FontTrack {
        grid_tile_size: UVec2::new(w, h),
        glyph_region: IRect::new(0, 0, w as i32, h as i32),
        offset: IVec2::new(0, 0),
    }
}

fn uniform_layout(text: &str, t: FontTrack) -> FontLayout {
    FontLayout {
        layout_tokens: OrdTokenLayout::parse(text),
        packing_mode: PackingMode::Uniform { track: t },
        sequence_overrides: vec![],
        manual_tokens: vec![],
    }
}

fn sheet(w: u32, h: u32) -> GlyphSheet<&'static str> {
    GlyphSheet { image: "sheet.png", size: UVec2::new(w, h) }
}

fn props(x0: u32, y0: u32, x1: u32, y1: u32, ox: i32, oy: i32) -> UTokenProps {
    UTokenProps { region: URect::new(x0, y0, x1, y1), offset: IVec2::new(ox, oy) }
}

fn build(layout: &FontLayout, size: (u32, u32)) -> RasterFont<TestBackend> {
    FontAtlasBuilder::from(layout.unique())
        .with_image(sheet(size.0, size.1))
        .populate_layout(layout)
        .custom_glyphs(layout.custom())
        .unwrap()
        .with_name(Some("test".to_string()))
        .build(TestBuilder)
        .unwrap()
}

#[test]
fn uniform_layout_wraps_rows() {
    let layout = uniform_layout("abc", track(8, 8));
    let font = build(&layout, (16, 16));
    assert_eq!(font.name.as_deref(), Some("test"));
    assert_eq!(font.find("a"), Some(Some(props(0, 0, 8, 8, 0, 0))));
    assert_eq!(font.find("b"), Some(Some(props(8, 0, 16, 8, 0, 0))));
    assert_eq!(font.find("c"), Some(Some(props(0, 8, 8, 16, 0, 0))));
    assert_eq!(font.find("z"), None);
    assert_eq!(
        font.valid("cxab"),
        vec![
            Some(props(0, 8, 8, 16, 0, 0)),
            Some(props(0, 0, 8, 8, 0, 0)),
            Some(props(8, 0, 16, 8, 0, 0)),
        ]
    );
}

#[test]
fn overrides_replace_track_defaults() {
    let mut layout = uniform_layout("ab", track(8, 8));
    layout.sequence_overrides = vec![(
        Sequence::from('b'),
        GlyphOverride { region: Some(IRect::new(1, 1, 7, 7)), offset: Some(IVec2::new(0, -1)) },
    )];
    let font = build(&layout, (64, 8));
    assert_eq!(font.find("a"), Some(Some(props(0, 0, 8, 8, 0, 0))));
    assert_eq!(font.find("b"), Some(Some(props(9, 1, 15, 7, 0, -1))));
}

#[test]
fn union_tokens_share_a_glyph() {
    let layout = uniform_layout("a$(->|=>)", track(4, 4));
    let font = build(&layout, (64, 4));
    assert_eq!(font.find("->"), Some(Some(props(4, 0, 8, 4, 0, 0))));
    assert_eq!(font.find("=>"), Some(Some(props(4, 0, 8, 4, 0, 0))));
    assert_eq!(font.get(&Sequence::new_unchecked("->")).map(|i| i.index()), Some(1));
    assert_eq!(font.get(&Sequence::new_unchecked("=>")).map(|i| i.index()), Some(1));
    assert_eq!(font.get(&Sequence::from('a')).map(|i| i.index()), Some(0));
    assert_eq!(font.get(&Sequence::from('-')), None);
}

#[test]
fn dynamic_layout_switches_tracks() {
    let layout = FontLayout {
        layout_tokens: OrdTokenLayout::parse("xabcd"),
        packing_mode: PackingMode::Dynamic {
            tracks: vec![(Token::from('a'), track(8, 8)), (Token::from('c'), track(4, 16))],
        },
        sequence_overrides: vec![],
        manual_tokens: vec![],
    };
    let font = build(&layout, (32, 64));
    // Tokens before the first head token are skipped.
    assert_eq!(font.find("x"), None);
    assert_eq!(font.find("a"), Some(Some(props(0, 0, 8, 8, 0, 0))));
    assert_eq!(font.find("b"), Some(Some(props(8, 0, 16, 8, 0, 0))));
    assert_eq!(font.find("c"), Some(Some(props(16, 0, 20, 16, 0, 0))));
    assert_eq!(font.find("d"), Some(Some(props(20, 0, 24, 16, 0, 0))));
}

#[test]
fn dynamic_layout_wraps_below_tallest_tile() {
    let layout = FontLayout {
        layout_tokens: OrdTokenLayout::parse("abc"),
        packing_mode: PackingMode::Dynamic { tracks: vec![(Token::from('a'), track(8, 8))] },
        sequence_overrides: vec![],
        manual_tokens: vec![],
    };
    let font = build(&layout, (8, 64));
    // A tile that would pass the right edge starts a new row below the tallest tile.
    assert_eq!(font.find("a"), Some(Some(props(0, 0, 8, 8, 0, 0))));
    assert_eq!(font.find("b"), Some(Some(props(0, 8, 8, 16, 0, 0))));
    assert_eq!(font.find("c"), Some(Some(props(0, 16, 8, 24, 0, 0))));
}

#[test]
fn dynamic_layout_wraps_before_placing() {
    let layout = FontLayout {
        layout_tokens: OrdTokenLayout::parse("abcd"),
        packing_mode: PackingMode::Dynamic { tracks: vec![(Token::from('a'), track(8, 8))] },
        sequence_overrides: vec![],
        manual_tokens: vec![],
    };
    let font = build(&layout, (16, 16));
    assert_eq!(font.find("a"), Some(Some(props(0, 0, 8, 8, 0, 0))));
    assert_eq!(font.find("b"), Some(Some(props(8, 0, 16, 8, 0, 0))));
    assert_eq!(font.find("c"), Some(Some(props(0, 8, 8, 16, 0, 0))));
    assert_eq!(font.find("d"), Some(Some(props(8, 8, 16, 16, 0, 0))));
}

#[test]
fn dynamic_rows_drop_by_the_tallest_tile() {
    let layout = FontLayout {
        layout_tokens: OrdTokenLayout::parse("abc"),
        packing_mode: PackingMode::Dynamic {
            tracks: vec![(Token::from('a'), track(8, 4)), (Token::from('b'), track(8, 12))],
        },
        sequence_overrides: vec![],
        manual_tokens: vec![],
    };
    let font = build(&layout, (16, 64));
    assert_eq!(font.find("a"), Some(Some(props(0, 0, 8, 4, 0, 0))));
    assert_eq!(font.find("b"), Some(Some(props(8, 0, 16, 12, 0, 0))));
    assert_eq!(font.find("c"), Some(Some(props(0, 12, 8, 24, 0, 0))));
}

#[test]
fn uniform_grid_wraps_by_whole_tiles() {
    // Two whole 8px columns fit in 20px; the image need not be a multiple of the tile.
    let layout = uniform_layout("abcd", track(8, 8));
    let font = build(&layout, (20, 16));
    assert_eq!(font.find("a"), Some(Some(props(0, 0, 8, 8, 0, 0))));
    assert_eq!(font.find("b"), Some(Some(props(8, 0, 16, 8, 0, 0))));
    assert_eq!(font.find("c"), Some(Some(props(0, 8, 8, 16, 0, 0))));
    assert_eq!(font.find("d"), Some(Some(props(8, 8, 16, 16, 0, 0))));
}

#[test]
fn uniform_tile_wider_than_sheet_takes_a_row() {
    let layout = uniform_layout("ab", track(8, 8));
    let font = build(&layout, (4, 16));
    assert_eq!(font.find("a"), Some(Some(props(0, 0, 8, 8, 0, 0))));
    assert_eq!(font.find("b"), Some(Some(props(0, 8, 8, 16, 0, 0))));
}

#[test]
fn custom_glyphs_absolute_and_relative() {
    let mut layout = uniform_layout("ab", track(8, 8));
    layout.manual_tokens = vec![
        (
            Token::parse("$(:))").unwrap(),
            CustomGlyph::Absolute { region: URect::new(32, 0, 40, 8), offset: IVec2::new(1, 2) },
        ),
        (
            Token::from('^'),
            CustomGlyph::Relative {
                reference: Sequence::from('b'),
                region: IRect::new(0, 0, 3, 2),
                offset: IVec2::new(0, -3),
            },
        ),
    ];
    let font = build(&layout, (64, 8));
    assert_eq!(font.find(":)"), Some(Some(props(32, 0, 40, 8, 1, 2))));
    assert_eq!(font.find("^"), Some(Some(props(8, 0, 11, 2, 0, -3))));
    assert_eq!(font.valid("a:)^"), vec![
        Some(props(0, 0, 8, 8, 0, 0)),
        Some(props(32, 0, 40, 8, 1, 2)),
        Some(props(8, 0, 11, 2, 0, -3)),
    ]);
}

#[test]
fn custom_glyph_cannot_refer_to_an_earlier_custom_glyph() {
    let layout = uniform_layout("ab", track(8, 8));
    let customs = vec![
        (
            Token::from('*'),
            CustomGlyph::Absolute { region: URect::new(16, 0, 24, 8), offset: IVec2::new(0, 0) },
        ),
        (
            Token::from('^'),
            CustomGlyph::Relative {
                reference: Sequence::from('*'),
                region: IRect::new(0, 0, 1, 1),
                offset: IVec2::new(0, 0),
            },
        ),
    ];
    let result = FontAtlasBuilder::default()
        .with_image(sheet(64, 8))
        .populate_layout(&layout)
        .custom_glyphs(&customs);
    match result {
        Err(e) => assert_eq!(e.sequence().as_str(), "*"),
        Ok(_) => panic!("the reference is registered by a custom glyph only"),
    }
}

#[test]
fn custom_glyph_refers_to_a_token_added_before() {
    let layout = uniform_layout("a", track(8, 8));
    let mut b = FontAtlasBuilder::default().with_image(sheet(64, 8)).populate_layout(&layout);
    b.add_token(&Token::from('k'), props(32, 0, 40, 8, 0, 0));
    let customs = vec![(
        Token::from('^'),
        CustomGlyph::Relative {
            reference: Sequence::from('k'),
            region: IRect::new(1, 1, 2, 2),
            offset: IVec2::new(0, 0),
        },
    )];
    let b = b.custom_glyphs(&customs).unwrap();
    assert_eq!(b.get_glyph_by_sequence(&Sequence::from('^')), Some(&props(33, 1, 34, 2, 0, 0)));
}

#[test]
fn custom_glyph_with_unknown_reference() {
    let layout = uniform_layout("ab", track(8, 8));
    let customs = vec![(
        Token::from('^'),
        CustomGlyph::Relative {
            reference: Sequence::from('q'),
            region: IRect::new(0, 0, 1, 1),
            offset: IVec2::new(0, 0),
        },
    )];
    let result = FontAtlasBuilder::default()
        .with_image(sheet(64, 8))
        .populate_layout(&layout)
        .custom_glyphs(&customs);
    match result {
        Err(e) => assert_eq!(e.sequence().as_str(), "q"),
        Ok(_) => panic!("the reference is not registered"),
    }
}

#[test]
fn empty_font_is_refused() {
    let layout = uniform_layout("", track(8, 8));
    let result = FontAtlasBuilder::default()
        .with_image(sheet(8, 8))
        .populate_layout(&layout)
        .build(TestBuilder);
    assert!(matches!(result, Err(FontBuilderError::EmptyFont)));
}

#[test]
fn a_glyph_without_sequences_is_not_an_empty_font() {
    let layout = uniform_layout("", track(8, 8));
    let mut b = FontAtlasBuilder::default().with_image(sheet(8, 8)).populate_layout(&layout);
    b.add_token(&Token::from(Vec::new()), props(0, 0, 8, 5, 0, 0));
    let font = b.build(TestBuilder).unwrap();
    assert_eq!(font.resources, vec![props(0, 0, 8, 5, 0, 0)]);
}

#[test]
fn line_height_counts_glyphs_no_longer_bound() {
    let mut b = FontAtlasBuilder::default().with_image(sheet(8, 8));
    b.add_token(&Token::from('a'), props(0, 0, 8, 9, 0, 0));
    b.add_token(&Token::from('a'), props(0, 0, 8, 3, 0, 0));
    let b = b.populate_layout(&uniform_layout("", track(8, 8)));
    match b.into_raw_font() {
        Ok((raw, _, bindings)) => {
            assert_eq!(raw.computed_height, 9);
            assert_eq!(raw.glyphs.len(), 2);
            assert_eq!(bindings.len(), 1);
        }
        Err(_) => panic!("two glyphs are registered"),
    }
}

#[test]
fn line_height_saturates_at_zero() {
    let mut b = FontAtlasBuilder::default().with_image(sheet(8, 8));
    b.add_token(&Token::from('a'), props(0, 0, 8, 8, 0, -10));
    let b = b.populate_layout(&uniform_layout("", track(8, 8)));
    match b.into_raw_font() {
        Ok((raw, _, _)) => assert_eq!(raw.computed_height, 0),
        Err(_) => panic!("one glyph is registered"),
    }
}

#[test]
fn backend_errors_are_reported() {
    let layout = uniform_layout("a", track(8, 8));
    let result = FontAtlasBuilder::default()
        .with_image(sheet(8, 8))
        .populate_layout(&layout)
        .build(FailingBuilder);
    match result {
        Err(FontBuilderError::BackendBuilderError(e)) => assert_eq!(e, "no device"),
        _ => panic!("the backend failed"),
    }
}

#[test]
fn line_height_is_tallest_effective_glyph() {
    let mut layout = uniform_layout("ab", track(8, 8));
    layout.sequence_overrides = vec![(
        Sequence::from('b'),
        GlyphOverride { region: None, offset: Some(IVec2::new(0, 3)) },
    )];
    let parts = FontAtlasBuilder::default()
        .with_image(sheet(64, 8))
        .populate_layout(&layout)
        .into_raw_font();
    match parts {
        Ok((raw, name, bindings)) => {
            assert_eq!(raw.computed_height, 11);
            assert_eq!(raw.glyphs.len(), 2);
            assert_eq!(name, None);
            assert_eq!(bindings.len(), 2);
        }
        Err(_) => panic!("two glyphs are bound"),
    }
}

#[test]
fn add_token_binds_every_sequence() {
    let mut b = FontAtlasBuilder::with_capacity(1, 2);
    let t = Token::parse("$(x|y)").unwrap();
    let p = props(1, 2, 3, 4, 5, 6);
    b.add_token(&t, p);
    assert_eq!(b.get_glyph_by_sequence(&Sequence::from('x')), Some(&p));
    assert_eq!(b.get_glyph_by_sequence(&Sequence::from('y')), Some(&p));
    assert_eq!(b.get_glyph_by_sequence(&Sequence::from('z')), None);
    // A later token takes over a sequence it shares with an earlier one.
    let q = props(0, 0, 1, 1, 0, 0);
    b.add_token(&Token::from('y'), q);
    assert_eq!(b.get_glyph_by_sequence(&Sequence::from('x')), Some(&p));
    assert_eq!(b.get_glyph_by_sequence(&Sequence::from('y')), Some(&q));
}

#[test]
fn track_props_apply_overrides_per_field() {
    let t = FontTrack {
        grid_tile_size: UVec2::new(8, 8),
        glyph_region: IRect::new(0, 0, 8, 8),
        offset: IVec2::new(1, 1),
    };
    assert_eq!(
        t.props(None),
        ITokenProps { region: IRect::new(0, 0, 8, 8), offset: IVec2::new(1, 1) }
    );
    let o = GlyphOverride { region: None, offset: Some(IVec2::new(0, 2)) };
    assert_eq!(
        t.props(Some(&o)),
        ITokenProps { region: IRect::new(0, 0, 8, 8), offset: IVec2::new(0, 2) }
    );
    assert_eq!(t.as_token_props(), t.props(None));
}


struct Provider;

impl raster_font::backend::FontResourceProvider for Provider {
    type Backend = SplitBackend;
    type Error = ();
    type Output<'f, 'r> = raster_font::bevy_backend::BevyAtlas<'f, 'f>;

    fn upgrade_font<'f, 'r>(
        &'r self,
        res_in: &'f (Vec<URect>, Vec<IVec2>),
    ) -> Result<raster_font::bevy_backend::BevyAtlas<'f, 'f>, ()> {
        Ok(raster_font::bevy_backend::BevyAtlas::new(&res_in.0, &res_in.1))
    }
}

struct RefusingProvider;

impl raster_font::backend::FontResourceProvider for RefusingProvider {
    type Backend = SplitBackend;
    type Error = &'static str;
    type Output<'f, 'r> = raster_font::bevy_backend::BevyAtlas<'f, 'f>;

    fn upgrade_font<'f, 'r>(
        &'r self,
        _res_in: &'f (Vec<URect>, Vec<IVec2>),
    ) -> Result<raster_font::bevy_backend::BevyAtlas<'f, 'f>, &'static str> {
        Err("no atlas")
    }
}

#[test]
fn refused_upgrade_is_reported() {
    let layout = uniform_layout("ab", track(8, 8));
    let font = FontAtlasBuilder::from(layout.unique())
        .with_image(sheet(16, 8))
        .populate_layout(&layout)
        .build(SplitBuilder)
        .unwrap();
    match font.upgrade(&RefusingProvider) {
        Err(e) => assert_eq!(e, "no atlas"),
        Ok(_) => panic!("the provider refuses"),
    }
}

struct SplitBackend;

impl Backend for SplitBackend {
    type Atlas = ();
    type Image = ();
    type Resources = (Vec<URect>, Vec<IVec2>);
}

struct SplitBuilder;

impl BackendBuilder for SplitBuilder {
    type Backend = SplitBackend;
    type Error = String;
    type Sheet = &'static str;

    fn build_resources(
        self,
        raw_font: RawFont<&'static str>,
    ) -> Result<(Vec<URect>, Vec<IVec2>), String> {
        Ok(raster_font::bevy_backend::split_glyphs(raw_font.glyphs))
    }
}

#[test]
fn borrowed_resources_resolve_through_upgrade() {
    let layout = uniform_layout("ab", track(8, 8));
    let font = FontAtlasBuilder::from(layout.unique())
        .with_image(sheet(16, 8))
        .populate_layout(&layout)
        .build(SplitBuilder)
        .unwrap();
    assert_eq!(font.resources.0, vec![URect::new(0, 0, 8, 8), URect::new(8, 0, 16, 8)]);
    let ctx = match font.upgrade(&Provider) {
        Ok(c) => c,
        Err(_) => panic!("the provider always lends"),
    };
    assert_eq!(ctx.find("b"), Some(Some(props(8, 0, 16, 8, 0, 0))));
    assert_eq!(ctx.valid("ba"), vec![Some(props(8, 0, 16, 8, 0, 0)), Some(props(0, 0, 8, 8, 0, 0))]);
}

#[test]
fn bevy_atlas_out_of_range_slot() {
    let regions = vec![URect::new(0, 0, 1, 1), URect::new(1, 0, 2, 1)];
    let offsets = vec![IVec2::new(0, 0)];
    let atlas = raster_font::bevy_backend::BevyAtlas::new(&regions, &offsets);
    let font = build(&uniform_layout("ab", track(1, 1)), (2, 1));
    let a = font.get(&Sequence::from('a')).unwrap();
    let b = font.get(&Sequence::from('b')).unwrap();
    assert_eq!(atlas.props(a), Some(props(0, 0, 1, 1, 0, 0)));
    // The offsets list is shorter than the regions list.
    assert_eq!(atlas.props(b), None);
}

#[test]
fn build_font_runs_the_whole_pipeline() {
    let mut layout = uniform_layout("ab", track(8, 8));
    layout.manual_tokens = vec![(
        Token::from('*'),
        CustomGlyph::Absolute { region: URect::new(16, 0, 24, 8), offset: IVec2::new(0, 0) },
    )];
    assert!(raster_font::builder::font_fits_exec(&layout, UVec2::new(64, 8)));
    let font = raster_font::builder::build_font(
        Some("pipeline".to_string()),
        &layout,
        sheet(64, 8),
        TestBuilder,
    )
    .unwrap();
    assert_eq!(font.name.as_deref(), Some("pipeline"));
    assert_eq!(font.find("*"), Some(Some(props(16, 0, 24, 8, 0, 0))));
    assert_eq!(font.find("b"), Some(Some(props(8, 0, 16, 8, 0, 0))));
}

#[test]
fn build_font_reports_unknown_reference() {
    let mut layout = uniform_layout("ab", track(8, 8));
    layout.manual_tokens = vec![(
        Token::from('*'),
        CustomGlyph::Relative {
            reference: Sequence::from('z'),
            region: IRect::new(0, 0, 1, 1),
            offset: IVec2::new(0, 0),
        },
    )];
    assert!(raster_font::builder::font_fits_exec(&layout, UVec2::new(64, 8)));
    match raster_font::builder::build_font(None, &layout, sheet(64, 8), TestBuilder) {
        Err(FontBuilderError::UnknownSequence(e)) => {
            assert_eq!(e.sequence().as_str(), "z");
            assert_eq!(
                e.to_string(),
                "A custom glyph references a sequence that does not exist in the layout: z"
            );
        }
        _ => panic!("the reference is not registered"),
    }
}

#[test]
fn font_fits_detects_overflow() {
    // Tiles so tall that the y coordinate of the third row leaves `u32`.
    let tall = uniform_layout("abc", track(8, u32::MAX));
    assert!(!raster_font::builder::font_fits_exec(&tall, UVec2::new(8, 8)));
    // A sheet narrower than a tile still holds one tile per row.
    let grid = uniform_layout("a", track(8, 8));
    assert!(raster_font::builder::font_fits_exec(&grid, UVec2::new(0, 8)));
    // A custom glyph whose region is not normalised has no height.
    let mut bad = uniform_layout("a", track(8, 8));
    bad.manual_tokens = vec![(
        Token::from('*'),
        CustomGlyph::Absolute {
            region: URect { min: UVec2::new(0, 8), max: UVec2::new(8, 0) },
            offset: IVec2::new(0, 0),
        },
    )];
    assert!(!raster_font::builder::font_fits_exec(&bad, UVec2::new(8, 8)));
    assert!(raster_font::builder::font_fits_exec(&grid, UVec2::new(8, 8)));
}

#[test]
fn builder_error_messages() {
    let e: FontBuilderError<String> = FontBuilderError::EmptyFont;
    assert_eq!(e.to_string_with(""), "Will not build empty font (0 glyphs).");
    let e: FontBuilderError<String> = FontBuilderError::BackendBuilderError("boom".to_string());
    assert_eq!(
        e.to_string_with("boom"),
        "Failed to build backend-specific resources for a raster font: boom"
    );
}
