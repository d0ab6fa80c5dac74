use pdf_core::units::Color;
use pdf_core::units::Fixed;

fn text(v: Fixed) -> String {
    let mut out = Vec::new();
    v.write_decimal(&mut out);
    String::from_utf8(out).unwrap()
}

#[test]
fn decimal_numerals_are_the_shortest() {
    assert_eq!(text(Fixed::from_micros(741_890_000)), "741.89");
    assert_eq!(text(Fixed::from_micros(0)), "0");
    assert_eq!(text(Fixed::from_micros(-1)), "-0.000001");
    assert_eq!(text(Fixed::from_micros(12_000_000)), "12");
    assert_eq!(text(Fixed::from_micros(100_500_000)), "100.5");
    assert_eq!(text(Fixed::from_int(-7)), "-7");
    assert_eq!(text(Fixed::from_micros(i64::MIN)), "-9223372036854.775808");
    assert_eq!(text(Fixed::from_micros(i64::MAX)), "9223372036854.775807");
}

#[test]
fn arithmetic_saturates_and_rounds_down() {
    let a = Fixed::from_micros(i64::MAX);
    assert_eq!(a.plus(Fixed::from_int(1)), a);
    assert_eq!(Fixed::from_micros(i64::MIN).minus(Fixed::from_int(1)), Fixed::from_micros(i64::MIN));
    assert_eq!(Fixed::from_micros(5).plus(Fixed::from_micros(-8)), Fixed::from_micros(-3));
    assert_eq!(Fixed::from_micros(7).half(), Fixed::from_micros(3));
    assert_eq!(Fixed::from_micros(-7).half(), Fixed::from_micros(-4));
    assert_eq!(Fixed::from_micros(10).scale(1, 3), Fixed::from_micros(3));
    assert_eq!(Fixed::from_micros(-10).scale(1, 3), Fixed::from_micros(-4));
    assert_eq!(Fixed::from_micros(10).scale(7, 0), Fixed::zero());
    assert_eq!(a.scale(u32::MAX, 1), a);
}

#[test]
fn colours_from_bytes_are_rounded_to_the_nearest_millionth() {
    let c = Color::from_rgb(255, 128, 0);
    assert_eq!(c.r, Fixed::from_int(1));
    assert_eq!(c.g, Fixed::from_micros(501_961));
    assert_eq!(c.b, Fixed::zero());
    assert_eq!(Color::default(), Color::black());
    assert_eq!(Color::white(), Color::rgb(Fixed::from_int(1), Fixed::from_int(1), Fixed::from_int(1)));
    assert_eq!(Color::green().g, Fixed::from_int(1));
    assert_eq!(Color::blue().b, Fixed::from_int(1));
    assert_eq!(Color::gray().r, Fixed::from_micros(500_000));
}
