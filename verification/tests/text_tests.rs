use pdf_core::text::calculate_x_offset;
use pdf_core::text::generate_text_operators;
use pdf_core::text::simple_word_wrap;
use pdf_core::text::TextRenderContext;
use pdf_core::units::Color;
use pdf_core::units::Fixed;
use pdf_core::Align;

fn fx(v: f64) -> Fixed {
    Fixed::from_micros((v * 1_000_000.0).round() as i64)
}

#[test]
fn test_x_offset_left() {
    let offset = calculate_x_offset(fx(100.0), fx(500.0), Align::Left);
    assert_eq!(offset, fx(0.0));
}

#[test]
fn test_x_offset_center() {
    let offset = calculate_x_offset(fx(100.0), fx(500.0), Align::Center);
    assert_eq!(offset, fx(200.0));
}

#[test]
fn test_x_offset_right() {
    let offset = calculate_x_offset(fx(100.0), fx(500.0), Align::Right);
    assert_eq!(offset, fx(400.0));
}

#[test]
fn test_simple_word_wrap() {
    let text = "Hello world this is a test";
    let lines = simple_word_wrap(text, 12);
    assert_eq!(lines.len(), 3);
    assert_eq!(lines[0], "Hello world");
    assert_eq!(lines[1], "this is a");
    assert_eq!(lines[2], "test");
}

#[test]
fn test_word_wrap_single_line() {
    let text = "Short";
    let lines = simple_word_wrap(text, 100);
    assert_eq!(lines.len(), 1);
    assert_eq!(lines[0], "Short");
}

#[test]
fn text_test_word_wrap_zero_max() {
    let text = "Hello world";
    let lines = simple_word_wrap(text, 0);
    assert_eq!(lines.len(), 1);
    assert_eq!(lines[0], "Hello world");
}

fn context(name: &str, size: f64, width: f64, color: Color) -> TextRenderContext {
    TextRenderContext { font_name: name.to_string(), font_size: fx(size), text_width: fx(width), color }
}

#[test]
fn test_generate_text_operators_left() {
    let ctx = context("F1", 12.0, 100.0, Color::black());

    let ops = generate_text_operators("<00480065006C006C006F>", fx(100.0), fx(700.0), Align::Left, &ctx);
    let ops_str = String::from_utf8(ops).unwrap();

    assert!(ops_str.contains("BT"));
    assert!(ops_str.contains("/F1 12 Tf"));
    assert!(ops_str.contains("100 700 Td")); // No offset for left align
    assert!(ops_str.contains("<00480065006C006C006F> Tj"));
    assert!(ops_str.contains("ET"));
    assert_eq!(ops_str, "BT\n0 0 0 rg\n/F1 12 Tf\n100 700 Td\n<00480065006C006C006F> Tj\nET\n");
}

#[test]
fn test_generate_text_operators_center() {
    let ctx = context("F2", 14.0, 100.0, Color::black());

    let ops = generate_text_operators("<0054006500730074>", fx(200.0), fx(600.0), Align::Center, &ctx);
    let ops_str = String::from_utf8(ops).unwrap();

    assert!(ops_str.contains("BT"));
    assert!(ops_str.contains("/F2 14 Tf"));
    assert!(ops_str.contains("150 600 Td")); // 200 - 50 (half of 100)
    assert!(ops_str.contains("<0054006500730074> Tj"));
    assert!(ops_str.contains("ET"));
}

#[test]
fn test_generate_text_operators_right() {
    let ctx = context("F3", 16.0, 80.0, Color::black());

    let ops = generate_text_operators("<00520069006700680074>", fx(300.0), fx(500.0), Align::Right, &ctx);
    let ops_str = String::from_utf8(ops).unwrap();

    assert!(ops_str.contains("BT"));
    assert!(ops_str.contains("/F3 16 Tf"));
    assert!(ops_str.contains("220 500 Td")); // 300 - 80
    assert!(ops_str.contains("<00520069006700680074> Tj"));
    assert!(ops_str.contains("ET"));
}

#[test]
fn test_generate_text_operators_empty_text() {
    let ctx = context("F1", 12.0, 0.0, Color::black());

    let ops = generate_text_operators("<>", fx(100.0), fx(700.0), Align::Left, &ctx);
    let ops_str = String::from_utf8(ops).unwrap();

    assert!(ops_str.contains("BT"));
    assert!(ops_str.contains("/F1 12 Tf"));
    assert!(ops_str.contains("100 700 Td"));
    assert!(ops_str.contains("<> Tj"));
    assert!(ops_str.contains("ET"));
}

#[test]
fn test_generate_text_operators_zero_width() {
    let ctx = context("F1", 12.0, 0.0, Color::black());

    let ops = generate_text_operators("<0041>", fx(100.0), fx(700.0), Align::Center, &ctx);
    let ops_str = String::from_utf8(ops).unwrap();

    // With zero width, center alignment should not change X position
    assert!(ops_str.contains("100 700 Td"));
}

#[test]
fn test_generate_text_operators_large_font() {
    let ctx = context("F1", 72.0, 100.0, Color::black());

    let ops = generate_text_operators("<0041>", fx(100.0), fx(700.0), Align::Left, &ctx);
    let ops_str = String::from_utf8(ops).unwrap();

    assert!(ops_str.contains("/F1 72 Tf"));
}

#[test]
fn test_simple_word_wrap_empty() {
    let text = "";
    let lines = simple_word_wrap(text, 10);
    assert_eq!(lines.len(), 1);
    assert_eq!(lines[0], "");
}

#[test]
fn test_simple_word_wrap_whitespace_only() {
    let text = "   ";
    let lines = simple_word_wrap(text, 10);
    // Should return empty since split_whitespace() removes all whitespace
    assert_eq!(lines.len(), 1);
    assert_eq!(lines[0], "");
}

#[test]
fn test_simple_word_wrap_single_word() {
    let text = "Hello";
    let lines = simple_word_wrap(text, 100);
    assert_eq!(lines.len(), 1);
    assert_eq!(lines[0], "Hello");
}

#[test]
fn test_simple_word_wrap_long_word() {
    let text = "Supercalifragilisticexpialidocious";
    let lines = simple_word_wrap(text, 10);
    // Word is longer than max_chars, so it should be on its own line
    assert_eq!(lines.len(), 1);
    assert_eq!(lines[0], "Supercalifragilisticexpialidocious");
}

#[test]
fn test_simple_word_wrap_multiple_spaces() {
    let text = "Hello    world";
    let lines = simple_word_wrap(text, 20);
    assert_eq!(lines.len(), 1);
    assert_eq!(lines[0], "Hello world");
}

#[test]
fn test_simple_word_wrap_exact_fit() {
    let text = "Hello world";
    let lines = simple_word_wrap(text, 11);
    assert_eq!(lines.len(), 1);
    assert_eq!(lines[0], "Hello world");
}

#[test]
fn test_simple_word_wrap_just_over() {
    let text = "Hello world";
    let lines = simple_word_wrap(text, 10);
    assert_eq!(lines.len(), 2);
    assert_eq!(lines[0], "Hello");
    assert_eq!(lines[1], "world");
}

#[test]
fn test_simple_word_wrap_thai() {
    // Thai text doesn't use spaces between words
    // This simple implementation will treat the whole string as one "word"
    let text = "สวัสดีชาวโลก";
    let lines = simple_word_wrap(text, 10);
    assert_eq!(lines.len(), 1);
    assert_eq!(lines[0], "สวัสดีชาวโลก");
}

#[test]
fn test_text_render_context() {
    let ctx = context("F1", 12.0, 100.0, Color::red());

    assert_eq!(ctx.font_name, "F1");
    assert_eq!(ctx.font_size, fx(12.0));
    assert_eq!(ctx.text_width, fx(100.0));
    assert_eq!(ctx.color, Color::red());
}

#[test]
fn test_generate_text_operators_with_color() {
    let ctx = context("F1", 12.0, 100.0, Color::red());

    let ops = generate_text_operators("<0041>", fx(100.0), fx(700.0), Align::Left, &ctx);
    let ops_str = String::from_utf8(ops).unwrap();

    // Should contain red color (1 0 0 rg)
    assert!(ops_str.contains("1 0 0 rg"));
}

#[test]
fn word_wrap_counts_bytes_and_breaks_at_any_white_space() {
    // each Thai character takes three bytes
    assert_eq!(simple_word_wrap("กข คง", 9), vec!["กข", "คง"]);
    assert_eq!(simple_word_wrap("กข คง", 13), vec!["กข คง"]);
    assert_eq!(simple_word_wrap("a\tb\nc\u{3000}d", 3), vec!["a b", "c d"]);
}

#[test]
fn operators_write_fractions_without_trailing_zeros() {
    let ctx = context("F7", 10.5, 0.0, Color::from_rgb(255, 128, 0));
    let ops = generate_text_operators("<0001>", fx(-0.25), fx(741.89), Align::Left, &ctx);
    assert_eq!(
        String::from_utf8(ops).unwrap(),
        "BT\n1 0.501961 0 rg\n/F7 10.5 Tf\n-0.25 741.89 Td\n<0001> Tj\nET\n"
    );
}
