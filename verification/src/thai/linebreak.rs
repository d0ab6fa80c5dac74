//! Where a line of Thai text may be broken.

use vstd::prelude::*;
use crate::strings::chars_of;

verus! {

/// Whether a character belongs to the Thai block, U+0E00 to U+0E7F.
pub open spec fn thai_char(c: char) -> bool {
    0x0E00 <= c as u32 <= 0x0E7F
}

/// Whether a character is a vowel that is written before its consonant.
pub open spec fn leading_vowel(c: char) -> bool {
    0x0E40 <= c as u32 <= 0x0E44
}

/// Whether a character is a mark written above or below the character
/// before it: mai han-akat, the vowels and marks from U+0E34 to U+0E3A,
/// and the tone marks and signs from U+0E47 to U+0E4E.
pub open spec fn above_below_mark(c: char) -> bool {
    let v = c as u32;
    v == 0x0E31 || (0x0E34 <= v <= 0x0E3A) || (0x0E47 <= v <= 0x0E4E)
}

/// Whether a line may be broken between two characters: not before a mark
/// or a leading vowel, and not after a leading vowel.
pub open spec fn breakable(left: char, right: char) -> bool {
    !above_below_mark(right) && !leading_vowel(right) && !leading_vowel(left)
}

/// Whether a character belongs to the Thai block.
pub fn is_thai_char(c: char) -> (r: bool)
    ensures
        r == thai_char(c),
{
    let v: u32 = c as u32;
    0x0E00 <= v && v <= 0x0E7F
}

/// Whether a character is a vowel that is written before its consonant.
pub fn is_leading_vowel(c: char) -> (r: bool)
    ensures
        r == leading_vowel(c),
{
    let v: u32 = c as u32;
    0x0E40 <= v && v <= 0x0E44
}

/// Whether a character is a mark written above or below the character
/// before it.
pub fn is_above_below_mark(c: char) -> (r: bool)
    ensures
        r == above_below_mark(c),
{
    let v: u32 = c as u32;
    v == 0x0E31 || (0x0E34 <= v && v <= 0x0E3A) || (0x0E47 <= v && v <= 0x0E4E)
}

/// Whether a line may be broken between `left` and `right`.
pub fn can_break_between(left: char, right: char) -> (r: bool)
    ensures
        r == breakable(left, right),
{
    if is_above_below_mark(right) {
        return false;
    }
    if is_leading_vowel(right) {
        return false;
    }
    if is_leading_vowel(left) {
        return false;
    }
    true
}

/// The places among the first `n` characters at which a line may be
/// broken: the start, and every place between two characters that allows it.
pub open spec fn inner_breaks(chars: Seq<char>, n: int) -> Seq<usize>
    decreases n,
{
    if n <= 0 {
        seq![0usize]
    } else if n == 1 {
        seq![0usize]
    } else {
        let before = inner_breaks(chars, n - 1);
        if breakable(chars[n - 2], chars[n - 1]) {
            before.push((n - 1) as usize)
        } else {
            before
        }
    }
}

/// The places at which a line of `chars` may be broken: the start, the
/// end, and every place between two characters that allows it.
pub open spec fn break_points(chars: Seq<char>) -> Seq<usize> {
    inner_breaks(chars, chars.len() as int).push(chars.len() as usize)
}

/// The places, counted in characters, at which a line of the text may be
/// broken, in ascending order; the start and the end are always among them.
pub fn find_break_points(text: &str) -> (r: Vec<usize>)
    ensures
        r@ == break_points(text@),
{
    let chars = chars_of(text);
    let mut points: Vec<usize> = Vec::new();
    points.push(0);
    let mut i: usize = 1;
    while i < chars.len()
        invariant
            1 <= i,
            i == 1 || i <= chars.len(),
            points@ == inner_breaks(chars@, i as int),
        decreases chars.len() - i,
    {
        if can_break_between(chars[i - 1], chars[i]) {
            points.push(i);
        }
        i += 1;
    }
    assert(points@ == inner_breaks(chars@, chars.len() as int)) by {
        if chars.len() == 0 {
            assert(inner_breaks(chars@, 0) =~= inner_breaks(chars@, 1));
        }
    }
    points.push(chars.len());
    points
}

} // verus!
