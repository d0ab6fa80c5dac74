//! Thai text: a word list, word segmentation and line breaking, and the
//! wording of numbers, amounts and dates.

pub mod dictionary;
pub mod formatter;
pub mod linebreak;
pub mod wordcut;

pub use dictionary::Dictionary;
pub use dictionary::EMBEDDED_DICT;
pub use formatter::format_thai_baht;
pub use formatter::format_thai_date_long;
pub use formatter::format_thai_date_short;
pub use formatter::format_thai_number;
pub use formatter::format_thai_year;
pub use formatter::render_float;
pub use formatter::ThaiFormatter;
pub use wordcut::ThaiWordcut;

use vstd::prelude::*;

verus! {

/// What can go wrong while Thai text is processed.
#[derive(Debug)]
pub enum ThaiTextError {
    /// The word list could not be loaded.
    DictionaryLoadError(String),
    /// The date is none.
    InvalidDate(String),
    /// Reading failed.
    IoError(String),
}

} // verus!
