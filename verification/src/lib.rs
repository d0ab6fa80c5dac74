//! Fills PDF templates: text and images are laid over the pages of an
//! existing document, with TrueType fonts embedded as subsets.
//!
//! The engine is [`PdfDocument`]. It works on an object graph
//! ([`store::ObjectStore`]) that the caller parses from a file and writes
//! back; lengths and coordinates are fixed-point quantities ([`Fixed`]).
//! Fonts are read through `ttf-parser` and cut down through `subsetter`,
//! images are decoded through `image` and compressed through `flate2`;
//! what these return is named in [`glyphs`] and [`codec`] and taken on
//! trust, everything else is proved against the contracts stated here.

pub mod assoc;
pub mod binding;
pub mod codec;
pub mod document;
pub mod error;
pub mod font;
pub mod glyphs;
pub mod image;
pub mod names;
pub mod object;
pub mod pages;
pub mod position;
pub mod reach;
pub mod registry;
pub mod segment;
pub mod store;
pub mod strings;
pub mod template;
pub mod text;
pub mod thai;
pub mod tree;
pub mod units;

pub use document::PdfDocument;
pub use error::PdfError;
pub use font::FontData;
pub use font::FontFamily;
pub use font::FontFamilyBuilder;
pub use font::FontStyle;
pub use font::FontWeight;
pub use image::ImageScaleMode;
pub use text::generate_text_operators;
pub use text::simple_word_wrap;
pub use text::TextRenderContext;
pub use units::Color;
pub use units::Fixed;

use vstd::prelude::*;

verus! {

/// Horizontal alignment of a run of text relative to its anchor.
#[derive(Debug, Clone, Copy, PartialEq, Eq, Structural)]
pub enum Align {
    Left,
    Center,
    Right,
}

impl Default for Align {
    fn default() -> (a: Align)
        ensures
            a == Align::Left,
    {
        Align::Left
    }
}

} // verus!
