//! A lyrics presentation engine: songs in a structured lyric format, playlists of songs and
//! free text, and the expansion of playlists into addressable slides.
//!
//! - `types`: the song model (metadata, verses, instrumentals) and its structural equality.
//! - `slides`: the expansion of a song into slides, honouring its verse order.
//! - `state`: the song and playlist catalogs, slide addressing, and merging of imported state.
//! - `content`: the render-ready content of a slide.
//! - `lyrics`: plain-text views of lyrics and authors.
//! - `convert`: building blocks for importing lyrics from other formats.
//! - `text`: character-level helpers.
pub mod content;
pub mod convert;
pub mod lyrics;
pub mod slides;
pub mod state;
pub mod text;
pub mod types;
