//! The wording of numbers, amounts of money and dates in Thai.

use vstd::prelude::*;
use vstd::string::StringExecFns;
use crate::strings::{chars_of, decimal_chars, push_char, push_decimal, string_of};
use crate::units::Fixed;

verus! {

/// Groups the formatting functions under one name.
pub struct ThaiFormatter;

/// The name of a digit.
pub open spec fn digit_name(d: int) -> Seq<char> {
    if d == 0 {
        "ศูนย์"@
    } else if d == 1 {
        "หนึ่ง"@
    } else if d == 2 {
        "สอง"@
    } else if d == 3 {
        "สาม"@
    } else if d == 4 {
        "สี่"@
    } else if d == 5 {
        "ห้า"@
    } else if d == 6 {
        "หก"@
    } else if d == 7 {
        "เจ็ด"@
    } else if d == 8 {
        "แปด"@
    } else {
        "เก้า"@
    }
}

/// The name of a place within a group of six digits: none for the units,
/// then ten, hundred, thousand, ten thousand, hundred thousand.
pub open spec fn unit_name(u: int) -> Seq<char> {
    if u == 0 {
        ""@
    } else if u == 1 {
        "สิบ"@
    } else if u == 2 {
        "ร้อย"@
    } else if u == 3 {
        "พัน"@
    } else if u == 4 {
        "หมื่น"@
    } else {
        "แสน"@
    }
}

/// The word for the digit `d` at the place `u` of its group: two tens are
/// `ยี่`, one ten has no digit word, a one at the units after higher
/// digits is `เอ็ด`, every other digit has its name.
pub open spec fn digit_word(d: int, u: int, more: bool) -> Seq<char> {
    if u == 1 && d == 2 {
        "ยี่"@
    } else if u == 1 && d == 1 {
        ""@
    } else if u == 0 && d == 1 && more {
        "เอ็ด"@
    } else {
        digit_name(d)
    }
}

/// The words for the number `n` whose lowest digit stands at place `u` of
/// its group of six: the words of the higher digits, `ล้าน` where a group
/// ends and digits follow, and the word of the lowest digit with its unit.
pub open spec fn number_words(n: nat, u: int) -> Seq<char>
    decreases n,
{
    if n == 0 {
        Seq::empty()
    } else {
        let d = (n % 10) as int;
        let rest = n / 10;
        number_words(rest, (u + 1) % 6) + (if u == 5 && rest > 0 {
            "ล้าน"@
        } else {
            ""@
        }) + (if d > 0 {
            digit_word(d, u, rest > 0) + unit_name(u)
        } else {
            ""@
        })
    }
}

/// The magnitude of a number.
pub open spec fn magnitude(n: int) -> nat {
    if n < 0 {
        (-n) as nat
    } else {
        n as nat
    }
}

/// A number in Thai words; the sign is left out.
pub open spec fn thai_number(n: int) -> Seq<char> {
    if n == 0 {
        digit_name(0)
    } else {
        number_words(magnitude(n), 0)
    }
}

fn push_digit_name(out: &mut String, d: u64)
    requires
        d < 10,
    ensures
        final(out)@ == old(out)@ + digit_name(d as int),
{
    if d == 0 {
        out.append("ศูนย์");
    } else if d == 1 {
        out.append("หนึ่ง");
    } else if d == 2 {
        out.append("สอง");
    } else if d == 3 {
        out.append("สาม");
    } else if d == 4 {
        out.append("สี่");
    } else if d == 5 {
        out.append("ห้า");
    } else if d == 6 {
        out.append("หก");
    } else if d == 7 {
        out.append("เจ็ด");
    } else if d == 8 {
        out.append("แปด");
    } else {
        out.append("เก้า");
    }
}

fn push_unit_name(out: &mut String, u: u64)
    requires
        u < 6,
    ensures
        final(out)@ == old(out)@ + unit_name(u as int),
{
    if u == 0 {
        out.append("");
    } else if u == 1 {
        out.append("สิบ");
    } else if u == 2 {
        out.append("ร้อย");
    } else if u == 3 {
        out.append("พัน");
    } else if u == 4 {
        out.append("หมื่น");
    } else {
        out.append("แสน");
    }
}

fn push_number_words(out: &mut String, n: u64, u: u64)
    requires
        u < 6,
    ensures
        final(out)@ == old(out)@ + number_words(n as nat, u as int),
    decreases n,
{
    if n == 0 {
        assert(out@ =~= old(out)@ + number_words(0, u as int));
        return;
    }
    let d = n % 10;
    let rest = n / 10;
    push_number_words(out, rest, (u + 1) % 6);
    if u == 5 && rest > 0 {
        out.append("ล้าน");
    } else {
        out.append("");
    }
    if d > 0 {
        if u == 1 && d == 2 {
            out.append("ยี่");
        } else if u == 1 && d == 1 {
            out.append("");
        } else if u == 0 && d == 1 && rest > 0 {
            out.append("เอ็ด");
        } else {
            push_digit_name(out, d);
        }
        push_unit_name(out, u);
    } else {
        out.append("");
    }
    assert(out@ =~= old(out)@ + number_words(n as nat, u as int));
}

/// The magnitude of a number.
pub fn magnitude_of(n: i64) -> (m: u64)
    ensures
        m == magnitude(n as int),
{
    if n < 0 {
        (-(n as i128)) as u64
    } else {
        n as u64
    }
}

/// A whole number in Thai words. The sign is left out.
pub fn format_thai_number(n: i64) -> (r: String)
    ensures
        r@ == thai_number(n as int),
{
    let mut out = String::new();
    if n == 0 {
        out.append("ศูนย์");
        return out;
    }
    push_number_words(&mut out, magnitude_of(n), 0);
    out
}

/// The decimal numeral of a whole number, with a minus sign where it is
/// negative.
pub open spec fn signed_chars(n: int) -> Seq<char> {
    if n < 0 {
        seq!['-'] + decimal_chars(magnitude(n))
    } else {
        decimal_chars(n as nat)
    }
}

/// Appends the decimal numeral of `n`.
pub fn push_signed(out: &mut String, n: i64)
    ensures
        final(out)@ == old(out)@ + signed_chars(n as int),
{
    if n < 0 {
        push_char(out, '-');
        push_u64(out, magnitude_of(n));
        assert(out@ =~= old(out)@ + signed_chars(n as int));
    } else {
        push_u64(out, n as u64);
    }
}

/// Appends the decimal numeral of `n`.
pub fn push_u64(out: &mut String, n: u64)
    ensures
        final(out)@ == old(out)@ + decimal_chars(n as nat),
    decreases n,
{
    if n < 10 {
        push_decimal(out, n as usize);
    } else {
        push_u64(out, n / 10);
        push_decimal(out, (n % 10) as usize);
        assert(decimal_chars((n % 10) as nat) =~= seq![crate::strings::hex_digit((n % 10) as int)]);
        assert(out@ =~= old(out)@ + decimal_chars(n as nat));
    }
}

/// The short name of a month; empty where the month is none.
pub open spec fn month_short(month: int) -> Seq<char> {
    if month <= 1 {
        if month < 0 {
            ""@
        } else {
            "ม.ค."@
        }
    } else if month == 2 {
        "ก.พ."@
    } else if month == 3 {
        "มี.ค."@
    } else if month == 4 {
        "เม.ย."@
    } else if month == 5 {
        "พ.ค."@
    } else if month == 6 {
        "มิ.ย."@
    } else if month == 7 {
        "ก.ค."@
    } else if month == 8 {
        "ส.ค."@
    } else if month == 9 {
        "ก.ย."@
    } else if month == 10 {
        "ต.ค."@
    } else if month == 11 {
        "พ.ย."@
    } else if month == 12 {
        "ธ.ค."@
    } else {
        ""@
    }
}

/// The name of a month; empty where the month is none.
pub open spec fn month_long(month: int) -> Seq<char> {
    if month <= 1 {
        if month < 0 {
            ""@
        } else {
            "มกราคม"@
        }
    } else if month == 2 {
        "กุมภาพันธ์"@
    } else if month == 3 {
        "มีนาคม"@
    } else if month == 4 {
        "เมษายน"@
    } else if month == 5 {
        "พฤษภาคม"@
    } else if month == 6 {
        "มิถุนายน"@
    } else if month == 7 {
        "กรกฎาคม"@
    } else if month == 8 {
        "สิงหาคม"@
    } else if month == 9 {
        "กันยายน"@
    } else if month == 10 {
        "ตุลาคม"@
    } else if month == 11 {
        "พฤศจิกายน"@
    } else if month == 12 {
        "ธันวาคม"@
    } else {
        ""@
    }
}

fn push_month_short(out: &mut String, month: u32)
    ensures
        final(out)@ == old(out)@ + month_short(month as int),
{
    if month <= 1 {
        out.append("ม.ค.");
    } else if month == 2 {
        out.append("ก.พ.");
    } else if month == 3 {
        out.append("มี.ค.");
    } else if month == 4 {
        out.append("เม.ย.");
    } else if month == 5 {
        out.append("พ.ค.");
    } else if month == 6 {
        out.append("มิ.ย.");
    } else if month == 7 {
        out.append("ก.ค.");
    } else if month == 8 {
        out.append("ส.ค.");
    } else if month == 9 {
        out.append("ก.ย.");
    } else if month == 10 {
        out.append("ต.ค.");
    } else if month == 11 {
        out.append("พ.ย.");
    } else if month == 12 {
        out.append("ธ.ค.");
    } else {
        out.append("");
    }
}

fn push_month_long(out: &mut String, month: u32)
    ensures
        final(out)@ == old(out)@ + month_long(month as int),
{
    if month <= 1 {
        out.append("มกราคม");
    } else if month == 2 {
        out.append("กุมภาพันธ์");
    } else if month == 3 {
        out.append("มีนาคม");
    } else if month == 4 {
        out.append("เมษายน");
    } else if month == 5 {
        out.append("พฤษภาคม");
    } else if month == 6 {
        out.append("มิถุนายน");
    } else if month == 7 {
        out.append("กรกฎาคม");
    } else if month == 8 {
        out.append("สิงหาคม");
    } else if month == 9 {
        out.append("กันยายน");
    } else if month == 10 {
        out.append("ตุลาคม");
    } else if month == 11 {
        out.append("พฤศจิกายน");
    } else if month == 12 {
        out.append("ธันวาคม");
    } else {
        out.append("");
    }
}

/// The last two digits of a year, with the sign of the year.
pub open spec fn short_year(year: int) -> int {
    if year >= 0 {
        year % 100
    } else {
        -((-year) % 100)
    }
}

/// A date in the short Thai form: day, short month name, and the last two
/// digits of the year of the Buddhist era.
pub open spec fn thai_date_short(year: int, month: int, day: int) -> Seq<char> {
    decimal_chars(day as nat) + seq![' '] + month_short(month) + seq![' '] + signed_chars(
        short_year(year + 543),
    )
}

/// A date in the long Thai form: day, month name, and the year of the
/// Buddhist era.
pub open spec fn thai_date_long(year: int, month: int, day: int) -> Seq<char> {
    decimal_chars(day as nat) + seq![' '] + month_long(month) + seq![' '] + signed_chars(
        year + 543,
    )
}

/// A date in the short Thai form, such as `22 ม.ค. 68`. The year is given
/// in the common era; a month that is none gives no name.
pub fn format_thai_date_short(year: i32, month: u32, day: u32) -> (r: String)
    ensures
        r@ == thai_date_short(year as int, month as int, day as int),
{
    let thai_year: i64 = year as i64 + 543;
    let short: i64 = if thai_year >= 0 {
        thai_year % 100
    } else {
        -((-thai_year) % 100)
    };
    let mut out = String::new();
    push_u64(&mut out, day as u64);
    push_char(&mut out, ' ');
    push_month_short(&mut out, month);
    push_char(&mut out, ' ');
    push_signed(&mut out, short);
    assert(out@ =~= thai_date_short(year as int, month as int, day as int));
    out
}

/// A date in the long Thai form, such as `22 มกราคม 2568`.
pub fn format_thai_date_long(year: i32, month: u32, day: u32) -> (r: String)
    ensures
        r@ == thai_date_long(year as int, month as int, day as int),
{
    let mut out = String::new();
    push_u64(&mut out, day as u64);
    push_char(&mut out, ' ');
    push_month_long(&mut out, month);
    push_char(&mut out, ' ');
    push_signed(&mut out, year as i64 + 543);
    assert(out@ =~= thai_date_long(year as int, month as int, day as int));
    out
}

/// A year of the Buddhist era, such as `ปี 2568`, for a year of the
/// common era.
pub fn format_thai_year(year: i32) -> (r: String)
    ensures
        r@ == "ปี "@ + signed_chars(year + 543),
{
    let mut out = String::new();
    out.append("ปี ");
    push_signed(&mut out, year as i64 + 543);
    out
}


/// The amount in satang, rounded to the nearest; halves go away from zero.
pub open spec fn satang_of(micros: int) -> int {
    if micros >= 0 {
        (micros + 5000) / 10000
    } else {
        -((-micros + 5000) / 10000)
    }
}

/// The remainder of a division by a hundred, with the sign of the number.
pub open spec fn rest_of_hundred(n: int) -> int {
    short_year(n)
}

/// An amount of money in Thai words: the baht, the satang, and `-` for
/// nothing.
pub open spec fn thai_baht(micros: int) -> Seq<char> {
    let satang = rest_of_hundred(satang_of(micros));
    let baht = micros / 1_000_000;
    if baht == 0 && satang == 0 {
        "-"@
    } else if baht > 0 && satang == 0 {
        thai_number(baht) + "บาทถ้วน"@
    } else if baht == 0 && satang > 0 {
        thai_number(satang) + "สตางค์"@
    } else {
        thai_number(baht) + "บาท"@ + thai_number(satang) + "สตางค์"@
    }
}

/// An amount of money in Thai words, such as `หนึ่งร้อยบาทห้าสิบสตางค์`
/// for 100.50.
pub fn format_thai_baht(amount: Fixed) -> (r: String)
    ensures
        r@ == thai_baht(amount.micros as int),
{
    let m: i64 = amount.micros;
    let total: i64 = if m >= 0 {
        ((m as i128 + 5000) / 10000) as i64
    } else {
        (-((-(m as i128) + 5000) / 10000)) as i64
    };
    let satang: i64 = if total >= 0 {
        total % 100
    } else {
        -((-total) % 100)
    };
    let baht: i64 = if m >= 0 {
        m / 1_000_000
    } else {
        let up: i64 = (m + 1) / 1_000_000;
        up - 1
    };
    let mut out = String::new();
    if baht == 0 && satang == 0 {
        out.append("-");
    } else if baht > 0 && satang == 0 {
        out = format_thai_number(baht);
        out.append("บาทถ้วน");
    } else if baht == 0 && satang > 0 {
        out = format_thai_number(satang);
        out.append("สตางค์");
    } else {
        out = format_thai_number(baht);
        out.append("บาท");
        let s = format_thai_number(satang);
        out.append(s.as_str());
        out.append("สตางค์");
    }
    out
}

/// The characters with a separator after every character that has a
/// multiple of three characters to its right, for the first `n` of them.
pub open spec fn grouped(s: Seq<char>, sep: char, n: int) -> Seq<char>
    decreases n,
{
    if n <= 0 {
        Seq::empty()
    } else {
        let right = s.len() - n;
        let here = grouped(s, sep, n - 1).push(s[n - 1]);
        if right > 0 && right % 3 == 0 {
            here.push(sep)
        } else {
            here
        }
    }
}

/// The numeral of `n` with the first character of `sep` between groups
/// of three; the plain numeral where `sep` is empty.
pub open spec fn with_thousands(n: int, sep: Seq<char>) -> Seq<char> {
    if sep.len() == 0 {
        signed_chars(n)
    } else {
        grouped(signed_chars(n), sep[0], signed_chars(n).len() as int)
    }
}

/// The numeral of a whole number with a separator between groups of three
/// characters, such as `1,000,000`.
pub fn format_with_thousands(n: i64, sep: &str) -> (r: String)
    ensures
        r@ == with_thousands(n as int, sep@),
{
    let mut plain = String::new();
    push_signed(&mut plain, n);
    let seps = chars_of(sep);
    if seps.len() == 0 {
        return plain;
    }
    let c = seps[0];
    let chars = chars_of(plain.as_str());
    let mut out: Vec<char> = Vec::new();
    let mut i: usize = 0;
    while i < chars.len()
        invariant
            i <= chars.len(),
            out@ == grouped(chars@, c, i as int),
        decreases chars.len() - i,
    {
        out.push(chars[i]);
        let right = chars.len() - i - 1;
        if right > 0 && right % 3 == 0 {
            out.push(c);
        }
        i += 1;
    }
    string_of(&out)
}

/// The place of the last `.` or `,` among the first `n` characters; -1
/// where there is none.
pub open spec fn last_separator(s: Seq<char>, n: int) -> int
    decreases n,
{
    if n <= 0 {
        -1
    } else if s[n - 1] == '.' || s[n - 1] == ',' {
        n - 1
    } else {
        last_separator(s, n - 1)
    }
}

/// The number of `#` and `0` among the characters from place `from` on,
/// up to place `to`.
pub open spec fn digit_places(s: Seq<char>, from: int, to: int) -> int
    decreases to - from,
{
    if from >= to {
        0
    } else {
        digit_places(s, from, to - 1) + (if s[to - 1] == '#' || s[to - 1] == '0' {
            1int
        } else {
            0int
        })
    }
}

/// What a format pattern asks for: the number of decimal places, and
/// whether groups of three are separated. The decimal places are the
/// digit places behind the last `.` or `,`; groups are separated where the
/// pattern holds a `,` that is not its last separator. The empty pattern
/// asks for two places and separated groups.
pub open spec fn format_spec(format: Seq<char>) -> (int, bool) {
    if format.len() == 0 {
        (2, true)
    } else {
        let at = last_separator(format, format.len() as int);
        let places = if at >= 0 {
            digit_places(format, at + 1, format.len() as int) % 256
        } else {
            0
        };
        (places, at >= 0 && format[at] == '.' && format.contains(','))
    }
}

/// Reads a format pattern such as `#,###.##`: the number of decimal
/// places, the separator of groups of three (`,` or none) and the decimal
/// separator (`.` or none).
pub fn parse_format(format: &str) -> (r: (u8, &'static str, &'static str))
    ensures
        r.0 == format_spec(format@).0,
        r.1@ == (if format_spec(format@).1 {
            ","@
        } else {
            ""@
        }),
        r.2@ == (if format_spec(format@).0 > 0 {
            "."@
        } else {
            ""@
        }),
{
    let chars = chars_of(format);
    if chars.len() == 0 {
        return (2, ",", ".");
    }
    let mut at: usize = chars.len();
    while at > 0 && chars[at - 1] != '.' && chars[at - 1] != ','
        invariant
            at <= chars.len(),
            last_separator(chars@, chars@.len() as int) == last_separator(chars@, at as int),
        decreases at,
    {
        at -= 1;
    }
    if at == 0 {
        return (0, "", "");
    }
    let mut places: u8 = 0;
    let mut i: usize = at;
    while i < chars.len()
        invariant
            at <= i <= chars.len(),
            places == digit_places(chars@, at as int, i as int) % 256,
        decreases chars.len() - i,
    {
        if chars[i] == '#' || chars[i] == '0' {
            places = if places == 255 {
                0
            } else {
                places + 1
            };
        }
        i += 1;
    }
    let mut comma = false;
    let mut i: usize = 0;
    while i < chars.len()
        invariant
            i <= chars.len(),
            comma == chars@.take(i as int).contains(','),
        decreases chars.len() - i,
    {
        let ghost seen = chars@.take(i as int);
        if chars[i] == ',' {
            comma = true;
        }
        i += 1;
        proof {
            let now = chars@.take(i as int);
            assert(now =~= seen.push(chars@[i - 1]));
            if seen.contains(',') {
                let k = choose|k: int| 0 <= k < seen.len() && seen[k] == ',';
                assert(now[k] == ',');
            }
            if chars@[i - 1] == ',' {
                assert(now[i - 1] == ',');
            }
            if now.contains(',') {
                let k = choose|k: int| 0 <= k < now.len() && now[k] == ',';
                if k < i - 1 {
                    assert(seen[k] == ',');
                }
            }
        }
    }
    assert(chars@.take(chars.len() as int) =~= chars@);
    let thousands = chars[at - 1] == '.' && comma;
    (
        places,
        if thousands {
            ","
        } else {
            ""
        },
        if places > 0 {
            "."
        } else {
            ""
        },
    )
}

impl ThaiFormatter {
    /// A whole number in Thai words.
    pub fn format_number(n: i64) -> (r: String)
        ensures
            r@ == thai_number(n as int),
    {
        format_thai_number(n)
    }

    /// An amount of money in Thai words.
    pub fn format_baht(amount: Fixed) -> (r: String)
        ensures
            r@ == thai_baht(amount.micros as int),
    {
        format_thai_baht(amount)
    }

    /// A date in the short Thai form.
    pub fn format_date_short(year: i32, month: u32, day: u32) -> (r: String)
        ensures
            r@ == thai_date_short(year as int, month as int, day as int),
    {
        format_thai_date_short(year, month, day)
    }

    /// A date in the long Thai form.
    pub fn format_date_long(year: i32, month: u32, day: u32) -> (r: String)
        ensures
            r@ == thai_date_long(year as int, month as int, day as int),
    {
        format_thai_date_long(year, month, day)
    }

    /// A year of the Buddhist era.
    pub fn format_year(year: i32) -> (r: String)
        ensures
            r@ == "ปี "@ + signed_chars(year + 543),
    {
        format_thai_year(year)
    }
}


/// Ten to the power of `k`, for `k` up to six.
pub open spec fn pow10(k: nat) -> nat {
    if k == 0 {
        1
    } else if k == 1 {
        10
    } else if k == 2 {
        100
    } else if k == 3 {
        1_000
    } else if k == 4 {
        10_000
    } else if k == 5 {
        100_000
    } else {
        1_000_000
    }
}

/// The last `width` decimal digits of `n`, zero padded on the left.
pub open spec fn padded_decimal(n: nat, width: nat) -> Seq<char>
    decreases width,
{
    if width == 0 {
        Seq::empty()
    } else {
        padded_decimal(n / 10, (width - 1) as nat).push(crate::strings::hex_digit((n % 10) as int))
    }
}

/// `count` zeros.
pub open spec fn zeros(count: nat) -> Seq<char> {
    Seq::new(count, |i: int| '0')
}

/// A quantity written after a format pattern: rounded to the decimal
/// places of the pattern, halves away from zero, with groups of three
/// separated where the pattern asks for it. Places beyond the sixth are zero.
pub open spec fn rendered(format: Seq<char>, micros: int) -> Seq<char> {
    let (places, thousands) = format_spec(format);
    let kept: nat = if places > 6 {
        6
    } else {
        places as nat
    };
    let scale = pow10((6 - kept) as nat);
    let total = (magnitude(micros) + scale / 2) / scale;
    let whole = total / pow10(kept);
    let part = total % pow10(kept);
    let sign: Seq<char> = if micros < 0 {
        "-"@
    } else {
        ""@
    };
    let sep: Seq<char> = if thousands {
        ","@
    } else {
        ""@
    };
    if places > 0 {
        sign + with_thousands(whole as int, sep) + "."@ + padded_decimal(part, kept) + zeros(
            (places - kept) as nat,
        )
    } else {
        sign + with_thousands(whole as int, sep)
    }
}

/// The whole part and the decimal places of a magnitude in millionths
/// that is rounded to `kept` places.
fn split_amount(mag: u64, kept: u8) -> (r: (u64, u64))
    requires
        kept <= 6,
        mag <= 0x8000_0000_0000_0000,
    ensures
        ({
            let scale = pow10((6 - kept) as nat);
            let total = ((mag as nat) + scale / 2) / scale;
            r.0 == total / pow10(kept as nat) && r.1 == total % pow10(kept as nat)
        }),
        r.0 <= 0x7fff_ffff_ffff_ffff,
{
    let m: u128 = mag as u128;
    if kept == 0 {
        let total: u128 = (m + 500000) / 1000000;
        ((total / 1) as u64, (total % 1) as u64)
    } else if kept == 1 {
        let total: u128 = (m + 50000) / 100000;
        ((total / 10) as u64, (total % 10) as u64)
    } else if kept == 2 {
        let total: u128 = (m + 5000) / 10000;
        ((total / 100) as u64, (total % 100) as u64)
    } else if kept == 3 {
        let total: u128 = (m + 500) / 1000;
        ((total / 1000) as u64, (total % 1000) as u64)
    } else if kept == 4 {
        let total: u128 = (m + 50) / 100;
        ((total / 10000) as u64, (total % 10000) as u64)
    } else if kept == 5 {
        let total: u128 = (m + 5) / 10;
        ((total / 100000) as u64, (total % 100000) as u64)
    } else {
        let total: u128 = (m + 0) / 1;
        ((total / 1000000) as u64, (total % 1000000) as u64)
    }
}

fn push_padded_decimal(out: &mut String, n: u64, width: u8)
    ensures
        final(out)@ == old(out)@ + padded_decimal(n as nat, width as nat),
    decreases width,
{
    if width == 0 {
        assert(out@ =~= old(out)@ + padded_decimal(n as nat, 0));
    } else {
        push_padded_decimal(out, n / 10, width - 1);
        push_decimal(out, (n % 10) as usize);
        assert(decimal_chars((n % 10) as nat) =~= seq![crate::strings::hex_digit((n % 10) as int)]);
        assert(out@ =~= old(out)@ + padded_decimal(n as nat, width as nat));
    }
}

/// Writes a quantity after a format pattern such as `#,###.##`.
pub fn render_float(format: &str, n: Fixed) -> (r: String)
    ensures
        r@ == rendered(format@, n.micros as int),
{
    let (places, thousand_sep, decimal_sep) = parse_format(format);
    let kept: u8 = if places > 6 {
        6
    } else {
        places
    };
    let (whole, part) = split_amount(magnitude_of(n.micros), kept);
    let mut out = String::new();
    if n.micros < 0 {
        out.append("-");
    } else {
        out.append("");
    }
    let digits = format_with_thousands(whole as i64, thousand_sep);
    out.append(digits.as_str());
    if places > 0 {
        out.append(".");
        push_padded_decimal(&mut out, part, kept);
        let mut i: u8 = kept;
        let ghost before = out@;
        while i < places
            invariant
                kept <= i <= places,
                out@ == before + zeros((i - kept) as nat),
            decreases places - i,
        {
            push_char(&mut out, '0');
            i += 1;
            assert(out@ =~= before + zeros((i - kept) as nat));
        }
    }
    assert(out@ =~= rendered(format@, n.micros as int));
    out
}

impl ThaiFormatter {
    /// Writes a quantity after a format pattern.
    pub fn render_float(format: &str, n: Fixed) -> (r: String)
        ensures
            r@ == rendered(format@, n.micros as int),
    {
        render_float(format, n)
    }
}

} // verus!
