//! Fixed-point quantities.
//!
//! Lengths, font sizes and colour components are carried as whole numbers of
//! millionths, so that every layout computation is exact integer arithmetic.

use vstd::prelude::*;

verus! {

/// Number of micro-units in one whole unit.
pub const SCALE: i64 = 1_000_000;

/// A signed quantity with six decimal places, stored as a count of millionths.
#[derive(Debug, Clone, Copy, PartialEq, Eq, Structural)]
pub struct Fixed {
    pub micros: i64,
}

/// The value of `v` brought into the range of `i64`.
pub open spec fn clamp_i64(v: int) -> i64 {
    if v < i64::MIN {
        i64::MIN
    } else if v > i64::MAX {
        i64::MAX
    } else {
        v as i64
    }
}

/// `micros * num / den` rounded towards negative infinity and brought into
/// range; zero where `den` is zero.
pub open spec fn scale_micros(micros: i64, num: u32, den: u32) -> i64 {
    if den == 0 {
        0
    } else {
        clamp_i64((micros * num) / (den as int))
    }
}

/// The decimal digits of `n`, most significant first, without leading zeros
/// (a single `0` for zero).
pub open spec fn digits(n: nat) -> Seq<u8>
    decreases n,
{
    if n < 10 {
        seq![(48 + n) as u8]
    } else {
        digits(n / 10).push((48 + n % 10) as u8)
    }
}

/// The last `width` decimal digits of `n`, zero padded on the left.
pub open spec fn padded_digits(n: nat, width: nat) -> Seq<u8>
    decreases width,
{
    if width == 0 {
        Seq::empty()
    } else {
        padded_digits(n / 10, (width - 1) as nat).push((48 + n % 10) as u8)
    }
}

/// `s` without the run of ASCII zeros at its end.
pub open spec fn trim_zeros(s: Seq<u8>) -> Seq<u8>
    decreases s.len(),
{
    if s.len() > 0 && s.last() == 48u8 {
        trim_zeros(s.drop_last())
    } else {
        s
    }
}

/// The shortest decimal numeral for `micros` millionths: an optional minus
/// sign, the whole part, and a fraction only where it is not zero.
pub open spec fn decimal_text(micros: int) -> Seq<u8> {
    let mag: nat = (if micros < 0 { -micros } else { micros }) as nat;
    let sign: Seq<u8> = if micros < 0 { seq![45u8] } else { Seq::empty() };
    let whole = digits(mag / 1_000_000);
    let frac = trim_zeros(padded_digits(mag % 1_000_000, 6));
    if frac.len() == 0 {
        sign + whole
    } else {
        sign + whole + seq![46u8] + frac
    }
}

/// Appends the decimal digits of `n` to `out`.
pub fn push_digits(out: &mut Vec<u8>, n: u64)
    ensures
        final(out)@ == old(out)@ + digits(n as nat),
    decreases n,
{
    if n < 10 {
        out.push(48u8 + (n as u8));
        assert(final(out)@ =~= old(out)@ + digits(n as nat));
    } else {
        push_digits(out, n / 10);
        let d: u8 = (n % 10) as u8;
        out.push(48u8 + d);
        assert(out@ =~= old(out)@ + digits(n as nat));
    }
}


/// Appends the last `width` decimal digits of `n`, zero padded, to `out`.
pub fn push_padded_digits(out: &mut Vec<u8>, n: u64, width: u8)
    ensures
        final(out)@ == old(out)@ + padded_digits(n as nat, width as nat),
    decreases width,
{
    if width == 0 {
        assert(out@ =~= old(out)@ + padded_digits(n as nat, 0));
    } else {
        push_padded_digits(out, n / 10, width - 1);
        let d: u8 = (n % 10) as u8;
        out.push(48u8 + d);
        assert(out@ =~= old(out)@ + padded_digits(n as nat, width as nat));
    }
}

/// Removes the ASCII zeros at the end of `buf`.
pub fn strip_trailing_zeros(buf: &mut Vec<u8>)
    ensures
        final(buf)@ == trim_zeros(old(buf)@),
{
    while buf.len() > 0 && buf[buf.len() - 1] == 48u8
        invariant
            trim_zeros(buf@) == trim_zeros(old(buf)@),
        decreases buf.len(),
    {
        let ghost prev = buf@;
        buf.pop();
        assert(buf@ =~= prev.drop_last());
    }
}

impl Fixed {
    /// The quantity as a mathematical count of millionths.
    pub open spec fn value(self) -> int {
        self.micros as int
    }

    pub fn from_micros(micros: i64) -> (r: Fixed)
        ensures
            r.micros == micros,
    {
        Fixed { micros }
    }

    /// The whole number `n`.
    pub fn from_int(n: i32) -> (r: Fixed)
        ensures
            r.micros == n * 1_000_000,
    {
        Fixed { micros: (n as i64) * 1_000_000 }
    }

    pub fn zero() -> (r: Fixed)
        ensures
            r.micros == 0,
    {
        Fixed { micros: 0 }
    }

    /// Brings a wide intermediate result back into range.
    fn saturate(v: i128) -> (r: Fixed)
        ensures
            r.micros == clamp_i64(v as int),
    {
        if v < -9_223_372_036_854_775_808i128 {
            Fixed { micros: i64::MIN }
        } else if v > 9_223_372_036_854_775_807i128 {
            Fixed { micros: i64::MAX }
        } else {
            Fixed { micros: v as i64 }
        }
    }

    /// The sum, saturating at the ends of the representable range.
    pub fn plus(self, other: Fixed) -> (r: Fixed)
        ensures
            r.micros == clamp_i64(self.micros + other.micros),
    {
        Fixed::saturate((self.micros as i128) + (other.micros as i128))
    }

    /// The difference, saturating at the ends of the representable range.
    pub fn minus(self, other: Fixed) -> (r: Fixed)
        ensures
            r.micros == clamp_i64(self.micros - other.micros),
    {
        Fixed::saturate((self.micros as i128) - (other.micros as i128))
    }

    /// Half of the quantity, rounded towards negative infinity.
    pub fn half(self) -> (r: Fixed)
        ensures
            r.micros == self.micros / 2,
    {
        if self.micros >= 0 {
            Fixed { micros: self.micros / 2 }
        } else {
            let m: i64 = (self.micros + 1) / 2;
            Fixed { micros: m - 1 }
        }
    }

    /// The quantity times `num / den`, rounded towards negative infinity and
    /// saturating; zero where `den` is zero.
    pub fn scale(self, num: u32, den: u32) -> (r: Fixed)
        ensures
            r.micros == scale_micros(self.micros, num, den),
    {
        if den == 0 {
            return Fixed { micros: 0 };
        }
        assert(-0x8000_0000_0000_0000 * 0x1_0000_0000 <= self.micros * num
            <= 0x8000_0000_0000_0000 * 0x1_0000_0000) by (nonlinear_arith)
            requires
                -0x8000_0000_0000_0000 <= self.micros < 0x8000_0000_0000_0000,
                0 <= num < 0x1_0000_0000,
        ;
        let p: i128 = (self.micros as i128) * (num as i128);
        let d: i128 = den as i128;
        let floor: i128 = if p >= 0 {
            p / d
        } else {
            -((-p + d - 1) / d)
        };
        assert(floor == (p as int) / (d as int)) by (nonlinear_arith)
            requires
                d > 0,
                floor == (if p >= 0 {
                    (p as int) / (d as int)
                } else {
                    -((-p + d - 1) / (d as int))
                }),
        ;
        Fixed::saturate(floor)
    }

    /// Writes the shortest decimal numeral of the quantity.
    pub fn write_decimal(&self, out: &mut Vec<u8>)
        ensures
            final(out)@ == old(out)@ + decimal_text(self.micros as int),
    {
        let mag: u64 = if self.micros < 0 {
            (-(self.micros as i128)) as u64
        } else {
            self.micros as u64
        };
        if self.micros < 0 {
            out.push(45u8);
        }
        push_digits(out, mag / 1_000_000);
        let mut frac: Vec<u8> = Vec::new();
        push_padded_digits(&mut frac, mag % 1_000_000, 6);
        assert(frac@ =~= padded_digits((mag % 1_000_000) as nat, 6));
        strip_trailing_zeros(&mut frac);
        if frac.len() > 0 {
            out.push(46u8);
            out.append(&mut frac);
        }
        assert(out@ =~= old(out)@ + decimal_text(self.micros as int));
    }
}


/// An RGB colour; each component lies between zero and one.
#[derive(Debug, Clone, Copy, PartialEq, Eq, Structural)]
pub struct Color {
    pub r: Fixed,
    pub g: Fixed,
    pub b: Fixed,
}

/// The fraction `level / 255` in millionths, rounded to the nearest.
pub open spec fn channel_micros(level: u8) -> int {
    (level * 1_000_000 + 127) / 255
}

fn channel(level: u8) -> (r: Fixed)
    ensures
        r.micros == channel_micros(level),
{
    Fixed { micros: ((level as i64) * 1_000_000 + 127) / 255 }
}

impl Color {
    /// A colour from components between zero and one.
    pub fn rgb(r: Fixed, g: Fixed, b: Fixed) -> (c: Color)
        ensures
            c == (Color { r, g, b }),
    {
        Color { r, g, b }
    }

    /// A colour from components between 0 and 255.
    pub fn from_rgb(r: u8, g: u8, b: u8) -> (c: Color)
        ensures
            c.r.micros == channel_micros(r),
            c.g.micros == channel_micros(g),
            c.b.micros == channel_micros(b),
    {
        Color { r: channel(r), g: channel(g), b: channel(b) }
    }

    pub fn black() -> (c: Color)
        ensures
            c.r.micros == 0 && c.g.micros == 0 && c.b.micros == 0,
    {
        Color { r: Fixed::zero(), g: Fixed::zero(), b: Fixed::zero() }
    }

    pub fn white() -> (c: Color)
        ensures
            c.r.micros == SCALE && c.g.micros == SCALE && c.b.micros == SCALE,
    {
        Color { r: Fixed::from_int(1), g: Fixed::from_int(1), b: Fixed::from_int(1) }
    }

    pub fn red() -> (c: Color)
        ensures
            c.r.micros == SCALE && c.g.micros == 0 && c.b.micros == 0,
    {
        Color { r: Fixed::from_int(1), g: Fixed::zero(), b: Fixed::zero() }
    }

    pub fn green() -> (c: Color)
        ensures
            c.r.micros == 0 && c.g.micros == SCALE && c.b.micros == 0,
    {
        Color { r: Fixed::zero(), g: Fixed::from_int(1), b: Fixed::zero() }
    }

    pub fn blue() -> (c: Color)
        ensures
            c.r.micros == 0 && c.g.micros == 0 && c.b.micros == SCALE,
    {
        Color { r: Fixed::zero(), g: Fixed::zero(), b: Fixed::from_int(1) }
    }

    pub fn gray() -> (c: Color)
        ensures
            c.r.micros == 500_000 && c.g.micros == 500_000 && c.b.micros == 500_000,
    {
        let h = Fixed::from_micros(500_000);
        Color { r: h, g: h, b: h }
    }
}

impl Default for Color {
    fn default() -> (c: Color)
        ensures
            c.r.micros == 0 && c.g.micros == 0 && c.b.micros == 0,
    {
        Color::black()
    }
}

} // verus!
