//! The errors that the library reports.

use vstd::prelude::*;
use vstd::string::StringExecFns;
use crate::strings::{decimal_chars, push_decimal};

verus! {

/// What can go wrong while a document is filled.
#[derive(Debug)]
pub enum PdfError {
    /// The template could not be opened.
    OpenError(String),
    /// The document could not be written.
    SaveError(String),
    /// No font or family of this name is registered.
    FontNotFound(String),
    /// A font or family of this name is registered already.
    FontAlreadyExists(String),
    /// The bytes are not a font that can be used.
    FontParseError(String),
    /// A font could not be subsetted.
    FontSubsetError(String),
    /// The page number given, and the number of pages there are.
    InvalidPage(usize, usize),
    /// The bytes are not an image that can be used.
    ImageError(String),
    /// The document's objects are not shaped as a PDF's must be.
    ParseError(String),
    /// Reading or writing failed.
    IoError(String),
    /// The underlying PDF reader or writer failed.
    LopdfError(String),
}


impl PdfError {
    /// What the error says, as text.
    pub open spec fn text(&self) -> Seq<char> {
        match self {
            PdfError::OpenError(m) => "Failed to open PDF: "@ + m@,
            PdfError::SaveError(m) => "Failed to save PDF: "@ + m@,
            PdfError::FontNotFound(m) => "Font not found: "@ + m@,
            PdfError::FontAlreadyExists(m) => "Font already exists: "@ + m@,
            PdfError::FontParseError(m) => "Failed to parse font: "@ + m@,
            PdfError::FontSubsetError(m) => "Font subset error: "@ + m@,
            PdfError::InvalidPage(page, count) => "Invalid page number: "@ + decimal_chars(
                *page as nat,
            ) + " (document has "@ + decimal_chars(*count as nat) + " pages)"@,
            PdfError::ImageError(m) => "Image error: "@ + m@,
            PdfError::ParseError(m) => "PDF parsing error: "@ + m@,
            PdfError::IoError(m) => "IO error: "@ + m@,
            PdfError::LopdfError(m) => "Lopdf error: "@ + m@,
        }
    }

    /// What the error says, as text.
    pub fn message(&self) -> (r: String)
        ensures
            r@ == self.text(),
    {
        match self {
            PdfError::OpenError(m) => String::from_str("Failed to open PDF: ").concat(m.as_str()),
            PdfError::SaveError(m) => String::from_str("Failed to save PDF: ").concat(m.as_str()),
            PdfError::FontNotFound(m) => String::from_str("Font not found: ").concat(m.as_str()),
            PdfError::FontAlreadyExists(m) => String::from_str("Font already exists: ").concat(
                m.as_str(),
            ),
            PdfError::FontParseError(m) => String::from_str("Failed to parse font: ").concat(
                m.as_str(),
            ),
            PdfError::FontSubsetError(m) => String::from_str("Font subset error: ").concat(
                m.as_str(),
            ),
            PdfError::InvalidPage(page, count) => {
                let mut out = String::from_str("Invalid page number: ");
                push_decimal(&mut out, *page);
                out.append(" (document has ");
                push_decimal(&mut out, *count);
                out.append(" pages)");
                out
            },
            PdfError::ImageError(m) => String::from_str("Image error: ").concat(m.as_str()),
            PdfError::ParseError(m) => String::from_str("PDF parsing error: ").concat(m.as_str()),
            PdfError::IoError(m) => String::from_str("IO error: ").concat(m.as_str()),
            PdfError::LopdfError(m) => String::from_str("Lopdf error: ").concat(m.as_str()),
        }
    }
}

} // verus!
