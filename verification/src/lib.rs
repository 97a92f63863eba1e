//! Raster fonts: authored image-backed fonts whose glyphs are resolved from explicit input
//! sequences.
pub mod atlas_index;
pub mod backend;
pub mod bevy_backend;
pub mod builder;
pub mod geometry;
pub mod grammar;
pub mod layout;
pub mod meta;
pub mod text;
pub mod token;
pub mod track;
pub mod tree;
