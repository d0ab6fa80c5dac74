use pdf_core::document::no_font_selected;
use pdf_core::pages::missing_object;
use pdf_core::position;
use pdf_core::thai::Dictionary;
use pdf_core::thai::ThaiWordcut;
use pdf_core::units::Color;
use pdf_core::Align;
use pdf_core::PdfError;

#[test]
fn test_document_creation() {
    let _align = Align::Left;
}

#[test]
fn test_align_default() {
    assert_eq!(Align::default(), Align::Left);
}

#[test]
fn test_position_constants() {
    // Verify position constants match expected values
    assert_eq!(position::LEFT, 8);
    assert_eq!(position::RIGHT, 2);
    assert_eq!(position::CENTER, 16);
}

#[test]
fn errors_say_what_went_wrong() {
    assert_eq!(PdfError::FontNotFound("x".to_string()).message(), "Font not found: x");
    assert_eq!(
        PdfError::InvalidPage(3, 2).message(),
        "Invalid page number: 3 (document has 2 pages)"
    );
    assert_eq!(PdfError::ImageError("bad".to_string()).message(), "Image error: bad");
    assert_eq!(PdfError::OpenError("o".to_string()).message(), "Failed to open PDF: o");
    assert_eq!(PdfError::SaveError("s".to_string()).message(), "Failed to save PDF: s");
    assert_eq!(PdfError::FontAlreadyExists("f".to_string()).message(), "Font already exists: f");
    assert_eq!(PdfError::FontParseError("p".to_string()).message(), "Failed to parse font: p");
    assert_eq!(PdfError::FontSubsetError("u".to_string()).message(), "Font subset error: u");
    assert_eq!(PdfError::ParseError("e".to_string()).message(), "PDF parsing error: e");
    assert_eq!(PdfError::IoError("i".to_string()).message(), "IO error: i");
    assert_eq!(PdfError::LopdfError("l".to_string()).message(), "Lopdf error: l");
}

#[test]
fn errors_made_without_input_say_what_is_missing() {
    assert!(matches!(no_font_selected(), PdfError::FontNotFound(name) if name == "No font family set"));
    assert_eq!(no_font_selected().message(), "Font not found: No font family set");
    assert!(matches!(missing_object(), PdfError::LopdfError(text) if text == "object not found"));
}

#[test]
fn the_built_in_word_cutter_holds_the_built_in_words() {
    let cutter = ThaiWordcut::embedded().unwrap();
    let words = Dictionary::embedded().unwrap();
    assert!(cutter.dictionary().len() > 0);
    assert_eq!(cutter.dictionary().len(), words.len());
    assert_eq!(cutter.dictionary().max_word_len(), words.max_word_len());
    assert!(cutter.dictionary().contains("สวัสดี"));
    assert!(!cutter.dictionary().contains("# common words"));
}

#[test]
fn black_has_no_light_in_any_channel() {
    let black = Color::black();
    assert_eq!((black.r.micros, black.g.micros, black.b.micros), (0, 0, 0));
}
