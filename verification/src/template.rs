//! The plain parts of form templates: the choices that a template names
//! and the reading of dates.

use vstd::prelude::*;
use crate::strings::chars_of;

verus! {

/// What can go wrong while a template is processed.
#[derive(Debug)]
pub enum TemplateError {
    ParseError(String),
    BindingError(String),
    RenderError(String),
    BlockError(String),
    PdfError(String),
    JsonError(String),
    ImageError(String),
    FontError(String),
}

/// A font family as a template names it: its id and the files of its variants.
#[derive(Debug, Clone)]
pub struct FontDef {
    /// The id under which blocks name the family.
    pub id: String,
    /// The display name of the family.
    pub family: Option<String>,
    /// The file of a single font.
    pub source: Option<String>,
    pub regular: Option<String>,
    pub bold: Option<String>,
    pub italic: Option<String>,
    pub bold_italic: Option<String>,
    /// The ids of the families that are asked for missing glyphs.
    pub fallback: Vec<String>,
}

/// The style of a font as a template names it.
#[derive(Debug, Clone, Copy, PartialEq, Eq, Structural)]
pub enum FontStyle {
    Regular,
    Bold,
    Italic,
    BoldItalic,
}

impl Default for FontStyle {
    fn default() -> (s: FontStyle)
        ensures
            s == FontStyle::Regular,
    {
        FontStyle::Regular
    }
}

/// The alignment of text as a template names it.
#[derive(Debug, Clone, Copy, PartialEq, Eq, Structural)]
pub enum Align {
    Left,
    Center,
    Right,
}

impl Default for Align {
    fn default() -> (a: Align)
        ensures
            a == Align::Left,
    {
        Align::Left
    }
}

/// The special ways in which a value is written.
#[derive(Debug, Clone, Copy, PartialEq, Eq, Structural)]
pub enum FormatType {
    Number,
    ThaiBaht,
    ThaiDateShort,
    ThaiDateLong,
    ThaiYear,
}

/// The error correction level of a QR code.
#[derive(Debug, Clone, Copy, PartialEq, Eq, Structural)]
pub enum ErrorCorrection {
    L,
    M,
    Q,
    H,
}

impl Default for ErrorCorrection {
    fn default() -> (e: ErrorCorrection)
        ensures
            e == ErrorCorrection::M,
    {
        ErrorCorrection::M
    }
}

/// The font size of a block that names none.
pub fn default_font_size() -> (size: u8)
    ensures
        size == 12,
{
    12
}

/// The alignment of the engine for an alignment of a template.
pub fn convert_align(align: Align) -> (r: crate::Align)
    ensures
        r == (match align {
            Align::Left => crate::Align::Left,
            Align::Center => crate::Align::Center,
            Align::Right => crate::Align::Right,
        }),
{
    match align {
        Align::Left => crate::Align::Left,
        Align::Center => crate::Align::Center,
        Align::Right => crate::Align::Right,
    }
}

/// The weight and the style of the engine for a style of a template.
pub fn convert_style(style: FontStyle) -> (r: (crate::font::FontWeight, crate::font::FontStyle))
    ensures
        r == (match style {
            FontStyle::Regular => (crate::font::FontWeight::Regular, crate::font::FontStyle::Normal),
            FontStyle::Bold => (crate::font::FontWeight::Bold, crate::font::FontStyle::Normal),
            FontStyle::Italic => (crate::font::FontWeight::Regular, crate::font::FontStyle::Italic),
            FontStyle::BoldItalic => (crate::font::FontWeight::Bold, crate::font::FontStyle::Italic),
        }),
{
    match style {
        FontStyle::Regular => (crate::font::FontWeight::Regular, crate::font::FontStyle::Normal),
        FontStyle::Bold => (crate::font::FontWeight::Bold, crate::font::FontStyle::Normal),
        FontStyle::Italic => (crate::font::FontWeight::Regular, crate::font::FontStyle::Italic),
        FontStyle::BoldItalic => (crate::font::FontWeight::Bold, crate::font::FontStyle::Italic),
    }
}

/// The pages that a block is drawn on: those it names, all pages where it
/// names none.
pub fn resolve_pages(pages: Option<&Vec<usize>>, total_pages: usize) -> (r: Vec<usize>)
    ensures
        match pages {
            Some(p) => if p@.len() > 0 {
                r@ == p@
            } else {
                r@ == Seq::new(total_pages as nat, |i: int| (i + 1) as usize)
            },
            None => r@ == Seq::new(total_pages as nat, |i: int| (i + 1) as usize),
        },
{
    match pages {
        Some(p) => {
            if p.len() > 0 {
                let mut out: Vec<usize> = Vec::new();
                let mut i: usize = 0;
                while i < p.len()
                    invariant
                        i <= p.len(),
                        out@ == p@.take(i as int),
                    decreases p.len() - i,
                {
                    out.push(p[i]);
                    i += 1;
                    assert(out@ =~= p@.take(i as int));
                }
                assert(p@.take(p.len() as int) =~= p@);
                return out;
            }
        },
        None => {},
    }
    let mut out: Vec<usize> = Vec::new();
    let mut i: usize = 0;
    while i < total_pages
        invariant
            i <= total_pages,
            out@ == Seq::new(i as nat, |k: int| (k + 1) as usize),
        decreases total_pages - i,
    {
        out.push(i + 1);
        i += 1;
        assert(out@ =~= Seq::new(i as nat, |k: int| (k + 1) as usize));
    }
    out
}

/// The value of a decimal digit; -1 for any other character.
pub open spec fn digit_value(c: char) -> int {
    if '0' <= c <= '9' {
        c as int - '0' as int
    } else {
        -1
    }
}

/// The number that the first `n` characters write in decimal digits; -1
/// where one of them is no digit.
pub open spec fn digits_value(s: Seq<char>, n: int) -> int
    decreases n,
{
    if n <= 0 {
        0
    } else {
        let before = digits_value(s, n - 1);
        if before < 0 || digit_value(s[n - 1]) < 0 {
            -1
        } else {
            before * 10 + digit_value(s[n - 1])
        }
    }
}

/// The whole number that the characters write: digits, with a sign
/// before them where signs are taken; `None` where they write none.
pub open spec fn number_of(s: Seq<char>, signed: bool) -> Option<int> {
    if s.len() == 0 {
        None
    } else if s[0] == '+' || (signed && s[0] == '-') {
        let rest = s.subrange(1, s.len() as int);
        let v = digits_value(rest, rest.len() as int);
        if rest.len() == 0 || v < 0 {
            None
        } else if s[0] == '-' {
            Some(-v)
        } else {
            Some(v)
        }
    } else {
        let v = digits_value(s, s.len() as int);
        if v < 0 {
            None
        } else {
            Some(v)
        }
    }
}

/// Reads digits up to a limit: their value, or `None` where a character
/// is no digit or the value exceeds the limit.
fn read_digits(chars: &Vec<char>, from: usize, limit: u64) -> (r: Option<u64>)
    requires
        from <= chars.len(),
        limit <= 0x8000_0000,
    ensures
        ({
            let rest = chars@.subrange(from as int, chars@.len() as int);
            let v = digits_value(rest, rest.len() as int);
            match r {
                Some(n) => v == n && n <= limit,
                None => v < 0 || v > limit,
            }
        }),
{
    let ghost rest = chars@.subrange(from as int, chars@.len() as int);
    let mut value: u64 = 0;
    let mut i: usize = from;
    while i < chars.len()
        invariant
            from <= i <= chars.len(),
            limit <= 0x8000_0000,
            rest == chars@.subrange(from as int, chars@.len() as int),
            value == digits_value(rest, i - from),
            value <= limit,
        decreases chars.len() - i,
    {
        let c = chars[i];
        assert(rest[i - from] == c);
        if c < '0' || c > '9' {
            proof {
                lemma_digits_stay_bad(rest, i - from + 1, rest.len() as int);
            }
            return None;
        }
        let d: u64 = (c as u32 - '0' as u32) as u64;
        value = value * 10 + d;
        if value > limit {
            proof {
                lemma_digits_grow(rest, i - from + 1, rest.len() as int);
            }
            return None;
        }
        i += 1;
    }
    Some(value)
}

/// Once a character is no digit, the value stays none.
pub proof fn lemma_digits_stay_bad(s: Seq<char>, n: int, m: int)
    requires
        0 <= n <= m <= s.len(),
        digits_value(s, n) < 0,
    ensures
        digits_value(s, m) < 0,
    decreases m - n,
{
    if n < m {
        lemma_digits_stay_bad(s, n, m - 1);
    }
}

/// The value of more digits is none or no smaller.
pub proof fn lemma_digits_grow(s: Seq<char>, n: int, m: int)
    requires
        0 <= n <= m <= s.len(),
    ensures
        digits_value(s, m) < 0 || digits_value(s, m) >= digits_value(s, n),
    decreases m - n,
{
    if n < m {
        lemma_digits_grow(s, n, m - 1);
    }
}

/// Reads a whole number of 32 bits with an optional sign.
pub fn parse_i32(chars: &Vec<char>) -> (r: Option<i32>)
    ensures
        match r {
            Some(n) => number_of(chars@, true) == Some(n as int),
            None => match number_of(chars@, true) {
                Some(v) => v < i32::MIN || v > i32::MAX,
                None => true,
            },
        },
{
    if chars.len() == 0 {
        return None;
    }
    if chars[0] == '-' {
        if chars.len() == 1 {
            return None;
        }
        match read_digits(chars, 1, 0x8000_0000) {
            Some(v) => Some((-(v as i64)) as i32),
            None => None,
        }
    } else if chars[0] == '+' {
        if chars.len() == 1 {
            return None;
        }
        match read_digits(chars, 1, 0x7FFF_FFFF) {
            Some(v) => Some(v as i32),
            None => None,
        }
    } else {
        assert(chars@.subrange(0, chars@.len() as int) =~= chars@);
        match read_digits(chars, 0, 0x7FFF_FFFF) {
            Some(v) => Some(v as i32),
            None => None,
        }
    }
}

/// Reads a whole number of 32 bits without sign; a plus sign may stand
/// before it.
pub fn parse_u32(chars: &Vec<char>) -> (r: Option<u32>)
    ensures
        match r {
            Some(n) => number_of(chars@, false) == Some(n as int),
            None => match number_of(chars@, false) {
                Some(v) => v > u32::MAX,
                None => true,
            },
        },
{
    if chars.len() == 0 {
        return None;
    }
    let from: usize = if chars[0] == '+' {
        1
    } else {
        0
    };
    if from == chars.len() {
        return None;
    }
    assert(chars@.subrange(0, chars@.len() as int) =~= chars@);
    let hi = read_digits_wide(chars, from);
    match hi {
        Some(v) => Some(v),
        None => None,
    }
}

fn read_digits_wide(chars: &Vec<char>, from: usize) -> (r: Option<u32>)
    requires
        from <= chars.len(),
    ensures
        ({
            let rest = chars@.subrange(from as int, chars@.len() as int);
            let v = digits_value(rest, rest.len() as int);
            match r {
                Some(n) => v == n,
                None => v < 0 || v > u32::MAX,
            }
        }),
{
    let ghost rest = chars@.subrange(from as int, chars@.len() as int);
    let mut value: u64 = 0;
    let mut i: usize = from;
    while i < chars.len()
        invariant
            from <= i <= chars.len(),
            rest == chars@.subrange(from as int, chars@.len() as int),
            value == digits_value(rest, i - from),
            value <= u32::MAX,
        decreases chars.len() - i,
    {
        let c = chars[i];
        assert(rest[i - from] == c);
        if c < '0' || c > '9' {
            proof {
                lemma_digits_stay_bad(rest, i - from + 1, rest.len() as int);
            }
            return None;
        }
        let d: u64 = (c as u32 - '0' as u32) as u64;
        value = value * 10 + d;
        if value > 0xFFFF_FFFF {
            proof {
                lemma_digits_grow(rest, i - from + 1, rest.len() as int);
            }
            return None;
        }
        i += 1;
    }
    Some(value as u32)
}

/// The parts of a text between hyphens, read so far, and the part being read.
pub open spec fn scan_parts(s: Seq<char>) -> (Seq<Seq<char>>, Seq<char>)
    decreases s.len(),
{
    if s.len() == 0 {
        (Seq::empty(), Seq::empty())
    } else {
        let (done, cur) = scan_parts(s.drop_last());
        if s.last() == '-' {
            (done.push(cur), Seq::empty())
        } else {
            (done, cur.push(s.last()))
        }
    }
}

/// The parts of a text between hyphens.
pub open spec fn parts_of(s: Seq<char>) -> Seq<Seq<char>> {
    let (done, cur) = scan_parts(s);
    done.push(cur)
}

/// The date that a text of the form `YYYY-MM-DD` writes.
pub open spec fn date_of(text: Seq<char>) -> Option<(i32, u32, u32)> {
    let parts = parts_of(text);
    if parts.len() != 3 {
        None
    } else {
        match (number_of(parts[0], true), number_of(parts[1], false), number_of(parts[2], false)) {
            (Some(y), Some(m), Some(d)) => if i32::MIN <= y <= i32::MAX && m <= u32::MAX && d
                <= u32::MAX {
                Some((y as i32, m as u32, d as u32))
            } else {
                None
            },
            _ => None,
        }
    }
}

/// Reads a date of the form `YYYY-MM-DD`: year, month and day.
pub fn parse_date(text: &str) -> (r: Result<(i32, u32, u32), TemplateError>)
    ensures
        match r {
            Ok(date) => date_of(text@) == Some(date),
            Err(e) => date_of(text@) is None && e is RenderError,
        },
{
    let chars = chars_of(text);
    let mut done: Vec<Vec<char>> = Vec::new();
    let mut cur: Vec<char> = Vec::new();
    let mut i: usize = 0;
    while i < chars.len()
        invariant
            i <= chars.len(),
            crate::thai::dictionary::words_view(done@) == scan_parts(chars@.take(i as int)).0,
            cur@ == scan_parts(chars@.take(i as int)).1,
        decreases chars.len() - i,
    {
        let c = chars[i];
        proof {
            let t1 = chars@.take(i + 1);
            assert(t1.drop_last() =~= chars@.take(i as int));
            assert(t1.last() == c);
        }
        let ghost before = crate::thai::dictionary::words_view(done@);
        if c == '-' {
            let mut part: Vec<char> = Vec::new();
            std::mem::swap(&mut part, &mut cur);
            done.push(part);
            assert(crate::thai::dictionary::words_view(done@) =~= before.push(part@));
        } else {
            cur.push(c);
        }
        i += 1;
    }
    assert(chars@.take(chars.len() as int) =~= chars@);
    let ghost before = crate::thai::dictionary::words_view(done@);
    done.push(cur);
    assert(crate::thai::dictionary::words_view(done@) =~= before.push(cur@));
    if done.len() != 3 {
        return Err(
            TemplateError::RenderError("Invalid date format. Expected YYYY-MM-DD".to_owned()),
        );
    }
    assert(parts_of(text@)[0] == done@[0]@);
    assert(parts_of(text@)[1] == done@[1]@);
    assert(parts_of(text@)[2] == done@[2]@);
    let year = match parse_i32(&done[0]) {
        Some(y) => y,
        None => {
            return Err(TemplateError::RenderError("Invalid year".to_owned()));
        },
    };
    let month = match parse_u32(&done[1]) {
        Some(m) => m,
        None => {
            return Err(TemplateError::RenderError("Invalid month".to_owned()));
        },
    };
    let day = match parse_u32(&done[2]) {
        Some(d) => d,
        None => {
            return Err(TemplateError::RenderError("Invalid day".to_owned()));
        },
    };
    Ok((year, month, day))
}

/// Reads a date of the form `YYYY-MM-DD` and hands year, month and day to
/// `format_fn`.
pub fn parse_and_format_date<F: Fn(i32, u32, u32) -> String>(text: &str, format_fn: F) -> (r: Result<
    String,
    TemplateError,
>)
    requires
        forall|y: i32, m: u32, d: u32| #[trigger] format_fn.requires((y, m, d)),
    ensures
        match r {
            Ok(s) => date_of(text@) matches Some(date) && format_fn.ensures(date, s),
            Err(e) => date_of(text@) is None && e is RenderError,
        },
{
    let (year, month, day) = parse_date(text)?;
    Ok(format_fn(year, month, day))
}

} // verus!
