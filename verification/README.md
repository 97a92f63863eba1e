# raster_font

Raster fonts are authored, image-backed fonts: a glyph sheet, and a TOML file that says which
input sequences each glyph stands for. This crate reads the layout syntax, packs the glyphs of a
layout onto the sheet, and resolves input text to glyphs with leftmost-longest matching.

The library in `src/` is verified with Verus:

- `grammar`, `token`, `layout`: the layout string syntax (`a`, `$(->|=>)`, `\$`), with the
  parser proved against a specification of the grammar, and the written form of every layout
  whose tokens hold sequences, none of them empty, proved to read back;
- `meta`: the font format (layout, packing mode, overrides, hand-extracted glyphs);
- `builder`: the staged font builder; `builder::placement` states where each glyph is cut from
  the sheet, `builder::fits` decides whether a build stays within the integer types, and
  `builder::laws` relates its operations;
- `tree`: the ligature tree, a leftmost-longest matcher over the `aho-corasick` crate;
- `backend`, `bevy_backend`: fonts with backend resources, and glyph lookup by atlas slot;
- `track`: which ECS items to mark changed after asset reloads.

`app/` holds what is not verified: TOML deserialisation, loading fonts from files and as Bevy
assets, the ECS systems around `track`, and the floating-point scaling of text.
