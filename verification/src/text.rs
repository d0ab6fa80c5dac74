//! Text in content streams: the operators that show a run of glyphs, and
//! breaking text into lines.

use vstd::prelude::*;
use vstd::string::StringSliceAdditionalSpecFns;
use vstd::utf8::encode_utf8;
use crate::object::nm;
use crate::units::{clamp_i64, decimal_text, Color, Fixed};
use crate::strings::{chars_of, string_of};
use crate::Align;

verus! {

/// Appends the bytes of `text` to `out`.
pub fn push_text(out: &mut Vec<u8>, text: &str)
    ensures
        final(out)@ == old(out)@ + nm(text),
{
    let bytes = text.as_bytes();
    let mut i: usize = 0;
    while i < bytes.len()
        invariant
            i <= bytes.len(),
            bytes@ == nm(text),
            out@ == old(out)@ + bytes@.take(i as int),
        decreases bytes.len() - i,
    {
        out.push(bytes[i]);
        i += 1;
        assert(out@ =~= old(out)@ + bytes@.take(i as int));
    }
    assert(bytes@.take(bytes.len() as int) =~= bytes@);
}


/// What is needed besides position and glyphs to show a run of text.
pub struct TextRenderContext {
    /// The resource name of the font on the page, such as `F1`.
    pub font_name: String,
    /// The font size in points.
    pub font_size: Fixed,
    /// The width of the run in points.
    pub text_width: Fixed,
    /// The colour of the text.
    pub color: Color,
}

/// Where a run of width `total` starts when it is aligned at `x`: at `x`,
/// half its width before `x`, or its whole width before `x`.
pub open spec fn aligned_start(x: i64, total: i64, align: Align) -> i64 {
    match align {
        Align::Left => x,
        Align::Center => clamp_i64(x - total / 2),
        Align::Right => clamp_i64(x - total),
    }
}

/// Where a run of width `total` starts when it is aligned at `x`.
pub fn align_start(x: Fixed, total: Fixed, align: Align) -> (r: Fixed)
    ensures
        r.micros == aligned_start(x.micros, total.micros, align),
{
    match align {
        Align::Left => x,
        Align::Center => x.minus(total.half()),
        Align::Right => x.minus(total),
    }
}

/// For left, centred and right alignment of a run of width `w` at the
/// anchor `x`, the run starts at `x`, `x - w / 2` and `x - w`, as long as
/// these can be represented.
pub proof fn law_alignment(x: i64, w: i64, align: Align)
    requires
        i64::MIN <= x - w <= i64::MAX,
        i64::MIN <= x - w / 2 <= i64::MAX,
    ensures
        align == Align::Left ==> aligned_start(x, w, align) == x,
        align == Align::Center ==> aligned_start(x, w, align) == x - w / 2,
        align == Align::Right ==> aligned_start(x, w, align) == x - w,
{
}

/// How far text of width `text_width` is moved inside a container of width
/// `container_width`: not at all, by half the room left, or by all of it.
pub open spec fn x_offset(text_width: i64, container_width: i64, align: Align) -> int {
    match align {
        Align::Left => 0,
        Align::Center => clamp_i64(container_width - text_width) / 2,
        Align::Right => clamp_i64(container_width - text_width) as int,
    }
}

/// The offset at which text is placed inside a container for an alignment.
pub fn calculate_x_offset(text_width: Fixed, container_width: Fixed, align: Align) -> (r: Fixed)
    ensures
        r.micros == x_offset(text_width.micros, container_width.micros, align),
{
    match align {
        Align::Left => Fixed::zero(),
        Align::Center => container_width.minus(text_width).half(),
        Align::Right => container_width.minus(text_width),
    }
}

/// The operators that show one run of glyphs: the colour, the font and its
/// size, the position, and the glyphs as a hexadecimal string, between `BT`
/// and `ET`.
pub open spec fn text_operators(
    text_hex: Seq<u8>,
    x: Fixed,
    y: Fixed,
    align: Align,
    font_name: Seq<u8>,
    font_size: Fixed,
    text_width: Fixed,
    color: Color,
) -> Seq<u8> {
    nm("BT\n") + decimal_text(color.r.micros as int) + nm(" ") + decimal_text(
        color.g.micros as int,
    ) + nm(" ") + decimal_text(color.b.micros as int) + nm(" rg\n/") + font_name + nm(" ")
        + decimal_text(font_size.micros as int) + nm(" Tf\n") + decimal_text(
        aligned_start(x.micros, text_width.micros, align) as int,
    ) + nm(" ") + decimal_text(y.micros as int) + nm(" Td\n") + text_hex + nm(" Tj\nET\n")
}

/// The content stream operators that show `text_hex` at `x`, `y`, aligned
/// by the width that the context gives.
pub fn generate_text_operators(
    text_hex: &str,
    x: Fixed,
    y: Fixed,
    align: Align,
    ctx: &TextRenderContext,
) -> (r: Vec<u8>)
    ensures
        r@ == text_operators(
            nm(text_hex),
            x,
            y,
            align,
            encode_utf8(ctx.font_name@),
            ctx.font_size,
            ctx.text_width,
            ctx.color,
        ),
{
    let start = align_start(x, ctx.text_width, align);
    let mut out: Vec<u8> = Vec::new();
    push_text(&mut out, "BT\n");
    ctx.color.r.write_decimal(&mut out);
    push_text(&mut out, " ");
    ctx.color.g.write_decimal(&mut out);
    push_text(&mut out, " ");
    ctx.color.b.write_decimal(&mut out);
    push_text(&mut out, " rg\n/");
    push_text(&mut out, ctx.font_name.as_str());
    push_text(&mut out, " ");
    ctx.font_size.write_decimal(&mut out);
    push_text(&mut out, " Tf\n");
    start.write_decimal(&mut out);
    push_text(&mut out, " ");
    y.write_decimal(&mut out);
    push_text(&mut out, " Td\n");
    push_text(&mut out, text_hex);
    push_text(&mut out, " Tj\nET\n");
    assert(out@ =~= text_operators(
        nm(text_hex),
        x,
        y,
        align,
        encode_utf8(ctx.font_name@),
        ctx.font_size,
        ctx.text_width,
        ctx.color,
    ));
    out
}

/// Whether a character is white space.
pub open spec fn is_space(c: char) -> bool {
    let v = c as u32;
    (0x09 <= v <= 0x0D) || v == 0x20 || v == 0x85 || v == 0xA0 || v == 0x1680 || (0x2000 <= v
        <= 0x200A) || v == 0x2028 || v == 0x2029 || v == 0x202F || v == 0x205F || v == 0x3000
}

/// The number of bytes that a character takes in UTF-8.
pub open spec fn utf8_len(c: char) -> nat {
    let v = c as u32;
    if v < 0x80 {
        1
    } else if v < 0x800 {
        2
    } else if v < 0x1_0000 {
        3
    } else {
        4
    }
}

/// The number of bytes that the characters take in UTF-8.
pub open spec fn byte_len(s: Seq<char>) -> nat
    decreases s.len(),
{
    if s.len() == 0 {
        0
    } else {
        byte_len(s.drop_last()) + utf8_len(s.last())
    }
}

/// The words read so far and the word being read, after the characters of
/// `s`: white space ends a word.
pub open spec fn scan_words(s: Seq<char>) -> (Seq<Seq<char>>, Seq<char>)
    decreases s.len(),
{
    if s.len() == 0 {
        (Seq::empty(), Seq::empty())
    } else {
        let (done, cur) = scan_words(s.drop_last());
        if is_space(s.last()) {
            if cur.len() > 0 {
                (done.push(cur), Seq::empty())
            } else {
                (done, cur)
            }
        } else {
            (done, cur.push(s.last()))
        }
    }
}

/// The words of `s`: its maximal runs of characters that are not white space.
pub open spec fn words_of(s: Seq<char>) -> Seq<Seq<char>> {
    let (done, cur) = scan_words(s);
    if cur.len() > 0 {
        done.push(cur)
    } else {
        done
    }
}

/// The lines filled so far and the line being filled, after the words
/// `words`: a word joins the line with a space before it while the line
/// stays within `max` bytes, else it starts the next line.
pub open spec fn fill_lines(words: Seq<Seq<char>>, max: nat) -> (Seq<Seq<char>>, Seq<char>)
    decreases words.len(),
{
    if words.len() == 0 {
        (Seq::empty(), Seq::empty())
    } else {
        let (lines, cur) = fill_lines(words.drop_last(), max);
        let word = words.last();
        if cur.len() == 0 {
            (lines, word)
        } else if byte_len(cur) + 1 + byte_len(word) <= max {
            (lines, cur.push(' ') + word)
        } else {
            (lines.push(cur), word)
        }
    }
}

/// The lines that `text` is broken into for lines of at most `max` bytes;
/// a word longer than that stands alone, and with `max` zero the text is
/// one line.
pub open spec fn wrapped(text: Seq<char>, max: nat) -> Seq<Seq<char>> {
    if max == 0 {
        seq![text]
    } else {
        let (lines, cur) = fill_lines(words_of(text), max);
        let all = if cur.len() > 0 {
            lines.push(cur)
        } else {
            lines
        };
        if all.len() == 0 {
            seq![Seq::empty()]
        } else {
            all
        }
    }
}

pub fn char_is_space(c: char) -> (r: bool)
    ensures
        r == is_space(c),
{
    let v: u32 = c as u32;
    (0x09 <= v && v <= 0x0D) || v == 0x20 || v == 0x85 || v == 0xA0 || v == 0x1680 || (0x2000 <= v
        && v <= 0x200A) || v == 0x2028 || v == 0x2029 || v == 0x202F || v == 0x205F || v == 0x3000
}

/// The number of bytes that the characters take in UTF-8.
pub fn utf8_size(s: &Vec<char>) -> (n: u128)
    ensures
        n == byte_len(s@),
        n <= 4 * s@.len(),
{
    let mut n: u128 = 0;
    let mut i: usize = 0;
    while i < s.len()
        invariant
            i <= s.len(),
            n == byte_len(s@.take(i as int)),
            n <= 4 * i,
        decreases s.len() - i,
    {
        let v: u32 = s[i] as u32;
        let k: u128 = if v < 0x80 {
            1
        } else if v < 0x800 {
            2
        } else if v < 0x1_0000 {
            3
        } else {
            4
        };
        proof {
            let t1 = s@.take(i + 1);
            assert(t1.drop_last() =~= s@.take(i as int));
            assert(t1.last() == s@[i as int]);
        }
        n = n + k;
        i += 1;
    }
    assert(s@.take(s.len() as int) =~= s@);
    n
}

/// The words of the text: its maximal runs of characters that are not white space.
pub fn split_words(chars: &Vec<char>) -> (r: Vec<Vec<char>>)
    ensures
        r@.len() == words_of(chars@).len(),
        forall|i: int| 0 <= i < r@.len() ==> (#[trigger] r@[i])@ == words_of(chars@)[i],
{
    let mut done: Vec<Vec<char>> = Vec::new();
    let mut cur: Vec<char> = Vec::new();
    let mut i: usize = 0;
    while i < chars.len()
        invariant
            i <= chars.len(),
            done@.len() == scan_words(chars@.take(i as int)).0.len(),
            forall|j: int|
                0 <= j < done@.len() ==> (#[trigger] done@[j])@ == scan_words(
                    chars@.take(i as int),
                ).0[j],
            cur@ == scan_words(chars@.take(i as int)).1,
        decreases chars.len() - i,
    {
        let c = chars[i];
        proof {
            let t1 = chars@.take(i + 1);
            assert(t1.drop_last() =~= chars@.take(i as int));
            assert(t1.last() == c);
        }
        if char_is_space(c) {
            if cur.len() > 0 {
                let mut word: Vec<char> = Vec::new();
                std::mem::swap(&mut word, &mut cur);
                done.push(word);
            }
        } else {
            cur.push(c);
        }
        i += 1;
    }
    assert(chars@.take(chars.len() as int) =~= chars@);
    if cur.len() > 0 {
        done.push(cur);
    }
    done
}

/// Breaks text at white space into lines of at most `max_chars` bytes. A
/// word that is longer stands on a line of its own; with `max_chars` zero
/// the text is returned as one line.
pub fn simple_word_wrap(text: &str, max_chars: usize) -> (r: Vec<String>)
    ensures
        r@.len() == wrapped(text@, max_chars as nat).len(),
        forall|i: int|
            0 <= i < r@.len() ==> (#[trigger] r@[i])@ == wrapped(text@, max_chars as nat)[i],
{
    let mut out: Vec<String> = Vec::new();
    if max_chars == 0 {
        out.push(text.to_owned());
        return out;
    }
    let chars = chars_of(text);
    let words = split_words(&chars);
    let ghost ws = words_of(text@);
    let ghost max = max_chars as nat;
    let mut cur: Vec<char> = Vec::new();
    let mut cur_len: u128 = 0;
    let mut i: usize = 0;
    while i < words.len()
        invariant
            i <= words.len(),
            words@.len() == ws.len(),
            forall|j: int| 0 <= j < words@.len() ==> (#[trigger] words@[j])@ == ws[j],
            max == max_chars as nat,
            out@.len() == fill_lines(ws.take(i as int), max).0.len(),
            forall|j: int|
                0 <= j < out@.len() ==> (#[trigger] out@[j])@ == fill_lines(
                    ws.take(i as int),
                    max,
                ).0[j],
            cur@ == fill_lines(ws.take(i as int), max).1,
            cur_len == byte_len(cur@),
            cur_len <= 4 * cur@.len(),
        decreases words.len() - i,
    {
        let word = &words[i];
        let word_len = utf8_size(word);
        proof {
            let t1 = ws.take(i + 1);
            assert(t1.drop_last() =~= ws.take(i as int));
            assert(t1.last() == word@);
        }
        if cur.len() == 0 {
            cur = word.clone();
            assert(cur@ =~= word@);
            cur_len = word_len;
        } else if cur_len < 0x1_0000_0000_0000_0000_0000 && word_len < 0x1_0000_0000_0000_0000_0000
            && cur_len + 1 + word_len <= max_chars as u128 {
            let ghost before = cur@;
            cur.push(' ');
            let mut k: usize = 0;
            while k < word.len()
                invariant
                    k <= word.len(),
                    cur@ == before.push(' ') + word@.take(k as int),
                decreases word.len() - k,
            {
                cur.push(word[k]);
                k += 1;
                assert(cur@ =~= before.push(' ') + word@.take(k as int));
            }
            assert(word@.take(word.len() as int) =~= word@);
            cur_len = utf8_size(&cur);
        } else {
            out.push(string_of(&cur));
            cur = word.clone();
            assert(cur@ =~= word@);
            cur_len = word_len;
        }
        i += 1;
    }
    assert(ws.take(words.len() as int) =~= ws);
    if cur.len() > 0 {
        out.push(string_of(&cur));
    }
    if out.len() == 0 {
        out.push(String::new());
    }
    out
}

} // verus!
