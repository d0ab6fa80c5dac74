//! Conversions between strings and sequences of characters.

use vstd::prelude::*;
use vstd::std_specs::iter::IteratorSpec;

verus! {

/// The characters of `s`, in order.
pub fn chars_of(s: &str) -> (v: Vec<char>)
    ensures
        v@ == s@,
{
    let mut v: Vec<char> = Vec::new();
    for c in it: s.chars()
        invariant
            v@ == it.seq().take(it.index() as int),
            it.seq() == s@,
    {
        v.push(c);
    }
    v
}


/// Calls `String::push`, which appends one character to the string.
#[verifier::external_body]
pub(crate) fn push_char(s: &mut String, c: char)
    ensures
        final(s)@ == old(s)@.push(c),
{
    s.push(c)
}

/// The string made of the characters `v`.
pub fn string_of(v: &Vec<char>) -> (s: String)
    ensures
        s@ == v@,
{
    let mut s = String::new();
    let mut i: usize = 0;
    while i < v.len()
        invariant
            i <= v.len(),
            s@ == v@.take(i as int),
        decreases v.len() - i,
    {
        push_char(&mut s, v[i]);
        i += 1;
        assert(v@.take(i as int) =~= v@.take(i - 1).push(v@[i - 1]));
    }
    assert(v@.take(v.len() as int) =~= v@);
    s
}


/// The upper-case hexadecimal digit for a value below sixteen.
pub open spec fn hex_digit(n: int) -> char {
    if n == 0 {
        '0'
    } else if n == 1 {
        '1'
    } else if n == 2 {
        '2'
    } else if n == 3 {
        '3'
    } else if n == 4 {
        '4'
    } else if n == 5 {
        '5'
    } else if n == 6 {
        '6'
    } else if n == 7 {
        '7'
    } else if n == 8 {
        '8'
    } else if n == 9 {
        '9'
    } else if n == 10 {
        'A'
    } else if n == 11 {
        'B'
    } else if n == 12 {
        'C'
    } else if n == 13 {
        'D'
    } else if n == 14 {
        'E'
    } else {
        'F'
    }
}

/// The four hexadecimal digits of a 16-bit value.
pub open spec fn hex4(v: u16) -> Seq<char> {
    seq![
        hex_digit(v as int / 4096),
        hex_digit(v as int / 256 % 16),
        hex_digit(v as int / 16 % 16),
        hex_digit(v as int % 16),
    ]
}

/// The hexadecimal digits of a code point: four of them, and more only
/// where the value needs them.
pub open spec fn hex_code(v: u32) -> Seq<char> {
    if v < 0x1_0000 {
        hex4(v as u16)
    } else if v < 0x10_0000 {
        seq![hex_digit(v as int / 0x1_0000 % 16)] + hex4((v % 0x1_0000) as u16)
    } else {
        seq![hex_digit(v as int / 0x10_0000 % 16), hex_digit(v as int / 0x1_0000 % 16)] + hex4(
            (v % 0x1_0000) as u16,
        )
    }
}

/// The decimal digits of `n` as characters.
pub open spec fn decimal_chars(n: nat) -> Seq<char>
    decreases n,
{
    if n < 10 {
        seq![hex_digit(n as int)]
    } else {
        decimal_chars(n / 10).push(hex_digit((n % 10) as int))
    }
}

fn hex_digit_of(n: u32) -> (c: char)
    requires
        n < 16,
    ensures
        c == hex_digit(n as int),
{
    if n == 0 {
        '0'
    } else if n == 1 {
        '1'
    } else if n == 2 {
        '2'
    } else if n == 3 {
        '3'
    } else if n == 4 {
        '4'
    } else if n == 5 {
        '5'
    } else if n == 6 {
        '6'
    } else if n == 7 {
        '7'
    } else if n == 8 {
        '8'
    } else if n == 9 {
        '9'
    } else if n == 10 {
        'A'
    } else if n == 11 {
        'B'
    } else if n == 12 {
        'C'
    } else if n == 13 {
        'D'
    } else if n == 14 {
        'E'
    } else {
        'F'
    }
}

/// Appends the four hexadecimal digits of `v`.
pub fn push_hex4(s: &mut String, v: u16)
    ensures
        final(s)@ == old(s)@ + hex4(v),
{
    let w: u32 = v as u32;
    push_char(s, hex_digit_of(w / 4096));
    push_char(s, hex_digit_of(w / 256 % 16));
    push_char(s, hex_digit_of(w / 16 % 16));
    push_char(s, hex_digit_of(w % 16));
    assert(s@ =~= old(s)@ + hex4(v));
}

/// Appends the hexadecimal digits of the code point `v`.
pub fn push_hex_code(s: &mut String, v: u32)
    ensures
        final(s)@ == old(s)@ + hex_code(v),
{
    if v < 0x1_0000 {
        push_hex4(s, v as u16);
    } else if v < 0x10_0000 {
        push_char(s, hex_digit_of(v / 0x1_0000 % 16));
        push_hex4(s, (v % 0x1_0000) as u16);
        assert(s@ =~= old(s)@ + hex_code(v));
    } else {
        push_char(s, hex_digit_of(v / 0x10_0000 % 16));
        push_char(s, hex_digit_of(v / 0x1_0000 % 16));
        push_hex4(s, (v % 0x1_0000) as u16);
        assert(s@ =~= old(s)@ + hex_code(v));
    }
}

/// Appends the decimal digits of `n`.
pub fn push_decimal(s: &mut String, n: usize)
    ensures
        final(s)@ == old(s)@ + decimal_chars(n as nat),
    decreases n,
{
    if n < 10 {
        push_char(s, hex_digit_of(n as u32));
        assert(s@ =~= old(s)@ + decimal_chars(n as nat));
    } else {
        push_decimal(s, n / 10);
        push_char(s, hex_digit_of((n % 10) as u32));
        assert(s@ =~= old(s)@ + decimal_chars(n as nat));
    }
}

} // verus!
