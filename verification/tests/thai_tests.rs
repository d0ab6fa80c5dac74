use pdf_core::thai::dictionary::Dictionary;
use pdf_core::thai::formatter::format_thai_baht;
use pdf_core::thai::formatter::format_thai_date_long;
use pdf_core::thai::formatter::format_thai_date_short;
use pdf_core::thai::formatter::format_thai_number;
use pdf_core::thai::formatter::format_thai_year;
use pdf_core::thai::formatter::format_with_thousands;
use pdf_core::thai::formatter::parse_format;
use pdf_core::thai::formatter::render_float;
use pdf_core::thai::formatter::ThaiFormatter;
use pdf_core::thai::linebreak::can_break_between;
use pdf_core::thai::linebreak::find_break_points;
use pdf_core::thai::linebreak::is_above_below_mark;
use pdf_core::thai::linebreak::is_leading_vowel;
use pdf_core::thai::linebreak::is_thai_char;
use pdf_core::thai::wordcut::ThaiWordcut;
use pdf_core::thai::ThaiTextError;
use pdf_core::units::Fixed;

fn fx(v: f64) -> Fixed {
    Fixed::from_micros((v * 1_000_000.0).round() as i64)
}

#[test]
fn test_format_thai_number() {
    assert_eq!(format_thai_number(0), "ศูนย์");
    assert_eq!(format_thai_number(1), "หนึ่ง");
    assert_eq!(format_thai_number(10), "สิบ");
    assert_eq!(format_thai_number(11), "สิบเอ็ด");
    assert_eq!(format_thai_number(21), "ยี่สิบเอ็ด");
    assert_eq!(format_thai_number(100), "หนึ่งร้อย");
}

#[test]
fn lib_test_format_thai_baht() {
    assert_eq!(format_thai_baht(fx(0.0)), "-");
    assert_eq!(format_thai_baht(fx(1.0)), "หนึ่งบาทถ้วน");
    assert_eq!(format_thai_baht(fx(0.50)), "ห้าสิบสตางค์");
}

#[test]
fn test_dictionary_from_str() {
    let content = "สวัสดี\nครับ\nค่ะ\n";
    let dict = Dictionary::from_str_content(content).unwrap();

    assert_eq!(dict.len(), 3);
    assert!(dict.contains("สวัสดี"));
    assert!(dict.contains("ครับ"));
    assert!(dict.contains("ค่ะ"));
    assert!(!dict.contains("ไม่มี"));
}

#[test]
fn test_dictionary_max_len() {
    let content = "ก\nกก\nกกก\n";
    let dict = Dictionary::from_str_content(content).unwrap();

    assert_eq!(dict.max_word_len(), 3);
}

#[test]
fn test_dictionary_ignores_comments() {
    let content = "# This is a comment\nสวัสดี\n# Another comment\nครับ\n";
    let dict = Dictionary::from_str_content(content).unwrap();

    assert_eq!(dict.len(), 2);
    assert!(!dict.contains("# This is a comment"));
}

#[test]
fn test_empty_dictionary_error() {
    let content = "# Only comments\n\n  \n";
    let result = Dictionary::from_str_content(content);

    assert!(result.is_err());
}

#[test]
fn test_format_thai_number_basic() {
    assert_eq!(format_thai_number(0), "ศูนย์");
    assert_eq!(format_thai_number(1), "หนึ่ง");
    assert_eq!(format_thai_number(2), "สอง");
    assert_eq!(format_thai_number(9), "เก้า");
}

#[test]
fn test_format_thai_number_tens() {
    assert_eq!(format_thai_number(10), "สิบ");
    assert_eq!(format_thai_number(11), "สิบเอ็ด");
    assert_eq!(format_thai_number(20), "ยี่สิบ");
    assert_eq!(format_thai_number(21), "ยี่สิบเอ็ด");
    assert_eq!(format_thai_number(30), "สามสิบ");
}

#[test]
fn test_format_thai_number_hundreds() {
    assert_eq!(format_thai_number(100), "หนึ่งร้อย");
    assert_eq!(format_thai_number(101), "หนึ่งร้อยเอ็ด");
    assert_eq!(format_thai_number(111), "หนึ่งร้อยสิบเอ็ด");
    assert_eq!(format_thai_number(999), "เก้าร้อยเก้าสิบเก้า");
}

#[test]
fn test_format_thai_number_large() {
    assert_eq!(format_thai_number(1000), "หนึ่งพัน");
    assert_eq!(format_thai_number(10000), "หนึ่งหมื่น");
    assert_eq!(format_thai_number(100000), "หนึ่งแสน");
    assert_eq!(format_thai_number(1000000), "หนึ่งล้าน");
}

#[test]
fn formatter_test_format_thai_baht() {
    assert_eq!(format_thai_baht(fx(0.0)), "-");
    assert_eq!(format_thai_baht(fx(1.0)), "หนึ่งบาทถ้วน");
    assert_eq!(format_thai_baht(fx(0.25)), "ยี่สิบห้าสตางค์");
    assert_eq!(format_thai_baht(fx(0.50)), "ห้าสิบสตางค์");
    assert_eq!(format_thai_baht(fx(100.50)), "หนึ่งร้อยบาทห้าสิบสตางค์");
}

#[test]
fn test_format_thai_date_short() {
    assert_eq!(format_thai_date_short(2025, 1, 22), "22 ม.ค. 68");
    assert_eq!(format_thai_date_short(2025, 12, 31), "31 ธ.ค. 68");
}

#[test]
fn test_format_thai_date_long() {
    assert_eq!(format_thai_date_long(2025, 1, 22), "22 มกราคม 2568");
}

#[test]
fn test_format_thai_year() {
    assert_eq!(format_thai_year(2025), "ปี 2568");
}

#[test]
fn test_render_float() {
    assert_eq!(render_float("#,###.##", fx(1234.56)), "1,234.56");
    assert_eq!(render_float("#,###.##", fx(1000000.0)), "1,000,000.00");
    assert_eq!(render_float("#,###.##", fx(-100.5)), "-100.50");
}

#[test]
fn test_format_with_thousands() {
    assert_eq!(format_with_thousands(1000, ","), "1,000");
    assert_eq!(format_with_thousands(1000000, ","), "1,000,000");
    assert_eq!(format_with_thousands(100, ","), "100");
}

#[test]
fn test_is_thai_char() {
    assert!(is_thai_char('ก'));
    assert!(is_thai_char('ฮ'));
    assert!(is_thai_char('๐'));
    assert!(!is_thai_char('A'));
    assert!(!is_thai_char('1'));
}

#[test]
fn test_is_leading_vowel() {
    assert!(is_leading_vowel('เ'));
    assert!(is_leading_vowel('แ'));
    assert!(is_leading_vowel('โ'));
    assert!(!is_leading_vowel('ก'));
    assert!(!is_leading_vowel('า'));
}

#[test]
fn test_no_break_after_leading_vowel() {
    // Should not break between เ and ก
    assert!(!can_break_between('เ', 'ก'));
}

#[test]
fn test_break_between_consonants() {
    // Can break between consonants (simplified)
    assert!(can_break_between('ก', 'ข'));
}

fn create_test_wordcut() -> ThaiWordcut {
    let dict_content = "สวัสดี\nครับ\nค่ะ\nประเทศ\nไทย\nกรุงเทพ\nมหา\nนคร\n";
    ThaiWordcut::from_str_content(dict_content).unwrap()
}

#[test]
fn test_segment_basic() {
    let wordcut = create_test_wordcut();
    let words = wordcut.segment("สวัสดีครับ");

    assert_eq!(words, vec!["สวัสดี", "ครับ"]);
}

#[test]
fn test_segment_unknown_chars() {
    let wordcut = create_test_wordcut();
    let words = wordcut.segment("สวัสดีXYZครับ");

    // Unknown characters should be split individually
    assert_eq!(words.len(), 5); // สวัสดี, X, Y, Z, ครับ
}

#[test]
fn test_segment_longest_match() {
    let wordcut = create_test_wordcut();
    let words = wordcut.segment("ประเทศไทย");

    assert_eq!(words, vec!["ประเทศ", "ไทย"]);
}

#[test]
fn test_word_wrap() {
    let wordcut = create_test_wordcut();
    let lines = wordcut.word_wrap("สวัสดีครับประเทศไทย", 10);

    // Each line should be <= 10 chars
    for line in &lines {
        assert!(line.chars().count() <= 10);
    }
    assert_eq!(lines, vec!["สวัสดีครับ", "ประเทศไทย"]);
}

#[test]
fn wordcut_test_word_wrap_zero_max() {
    let wordcut = create_test_wordcut();
    let lines = wordcut.word_wrap("สวัสดี", 0);

    assert_eq!(lines.len(), 1);
    assert_eq!(lines[0], "สวัสดี");
}

#[test]
fn test_word_wrap_empty() {
    let wordcut = create_test_wordcut();
    let lines = wordcut.word_wrap("", 10);

    assert_eq!(lines.len(), 1);
    assert_eq!(lines[0], "");
}

#[test]
fn numbers_beyond_a_million_repeat_the_groups() {
    assert_eq!(format_thai_number(2_000_000), "สองล้าน");
    assert_eq!(format_thai_number(1_000_001), "หนึ่งล้านเอ็ด");
    assert_eq!(format_thai_number(12_345_678), "สิบสองล้านสามแสนสี่หมื่นห้าพันหกร้อยเจ็ดสิบแปด");
    assert_eq!(format_thai_number(-21), "ยี่สิบเอ็ด");
    assert_eq!(ThaiFormatter::format_number(42), "สี่สิบสอง");
}

#[test]
fn amounts_round_to_the_nearest_satang() {
    assert_eq!(format_thai_baht(fx(21.0)), "ยี่สิบเอ็ดบาทถ้วน");
    assert_eq!(format_thai_baht(fx(0.994)), "เก้าสิบเก้าสตางค์");
    assert_eq!(format_thai_baht(fx(0.004)), "-");
    assert_eq!(format_thai_baht(fx(2.015)), "สองบาทสองสตางค์");
    assert_eq!(ThaiFormatter::format_baht(fx(100.50)), "หนึ่งร้อยบาทห้าสิบสตางค์");
}

#[test]
fn dates_outside_the_calendar_keep_their_numbers() {
    assert_eq!(format_thai_date_short(2025, 0, 1), "1 ม.ค. 68");
    assert_eq!(format_thai_date_short(2025, 13, 1), "1  68");
    assert_eq!(format_thai_date_long(2025, 13, 40), "40  2568");
    assert_eq!(format_thai_date_short(-543, 6, 5), "5 มิ.ย. 0");
    assert_eq!(format_thai_date_short(-1000, 6, 5), "5 มิ.ย. -57");
    assert_eq!(format_thai_date_long(-1000, 2, 5), "5 กุมภาพันธ์ -457");
    assert_eq!(format_thai_year(i32::MAX), "ปี 2147484190");
    assert_eq!(ThaiFormatter::format_date_short(2025, 1, 22), "22 ม.ค. 68");
    assert_eq!(ThaiFormatter::format_date_long(2025, 11, 2), "2 พฤศจิกายน 2568");
    assert_eq!(ThaiFormatter::format_year(1999), "ปี 2542");
}

#[test]
fn format_patterns_give_places_and_separators() {
    assert_eq!(parse_format(""), (2, ",", "."));
    assert_eq!(parse_format("#,###.##"), (2, ",", "."));
    assert_eq!(parse_format("#.000"), (3, "", "."));
    assert_eq!(parse_format("####"), (0, "", ""));
    assert_eq!(parse_format("#,###"), (3, "", "."));
    assert_eq!(parse_format("#,###."), (0, ",", ""));
}

#[test]
fn rendering_rounds_halves_away_from_zero() {
    assert_eq!(render_float("#.#", fx(0.25)), "0.3");
    assert_eq!(render_float("#.#", fx(-0.25)), "-0.3");
    assert_eq!(render_float("#", fx(1234.5)), "1235");
    assert_eq!(render_float("", fx(0.005)), "0.01");
    assert_eq!(render_float("#,###.########", fx(1234.5)), "1,234.50000000");
    assert_eq!(render_float("#,###.##", fx(999.999)), "1,000.00");
    assert_eq!(ThaiFormatter::render_float("#.##", fx(2.0)), "2.00");
    assert_eq!(format_with_thousands(-1234567, ","), "-1,234,567");
    assert_eq!(format_with_thousands(-100, ","), "-,100");
    assert_eq!(format_with_thousands(1234, ""), "1234");
    assert_eq!(format_with_thousands(1234, "x."), "1x234");
}

#[test]
fn break_points_keep_marks_and_leading_vowels_with_their_consonant() {
    assert!(is_above_below_mark('\u{0E31}'));
    assert!(is_above_below_mark('\u{0E34}'));
    assert!(is_above_below_mark('\u{0E4E}'));
    assert!(!is_above_below_mark('\u{0E33}'));
    assert!(!is_above_below_mark('\u{0E4F}'));
    assert!(is_leading_vowel('ไ'));
    assert!(is_leading_vowel('ใ'));
    assert!(!can_break_between('ก', '\u{0E35}'));
    assert!(!can_break_between('ก', 'เ'));
    // ด ี เ ก : no break before the mark, before the vowel, after the vowel
    assert_eq!(find_break_points("ดีเก"), vec![0, 4]);
    assert_eq!(find_break_points("กขค"), vec![0, 1, 2, 3]);
    assert_eq!(find_break_points(""), vec![0, 0]);
    assert_eq!(find_break_points("ก"), vec![0, 1]);
}

#[test]
fn dictionary_keeps_each_word_once() {
    let mut dict = Dictionary::new();
    assert!(dict.is_empty());
    assert_eq!(dict.max_word_len(), 0);
    dict.add_word("กา");
    dict.add_word("กา");
    dict.add_word("กาแฟ");
    assert_eq!(dict.len(), 2);
    assert_eq!(dict.max_word_len(), 4);
    assert!(dict.contains("กา"));
    assert!(!dict.contains("ก"));
    assert!(Dictionary::default().is_empty());
    let read = Dictionary::from_str_content("  กา \r\nกา\n\t#x\nแฟ").unwrap();
    assert_eq!(read.len(), 2);
    assert!(read.contains("แฟ"));
    assert!(matches!(Dictionary::from_str_content(""), Err(ThaiTextError::DictionaryLoadError(_))));
}

#[test]
fn embedded_word_list_cuts_common_words() {
    let dict = Dictionary::embedded().unwrap();
    assert!(dict.contains("สวัสดี"));
    assert!(dict.len() > 40);
    let wordcut = ThaiWordcut::embedded().unwrap();
    assert_eq!(wordcut.segment("สวัสดีครับ"), vec!["สวัสดี", "ครับ"]);
    assert_eq!(wordcut.dictionary().len(), dict.len());
    let own = ThaiWordcut::new(Dictionary::from_str_content("กข\nกขค\n").unwrap());
    assert_eq!(own.segment("กขคกขง"), vec!["กขค", "กข", "ง"]);
    assert_eq!(own.word_wrap("กขคกขง", 3), vec!["กขค", "กขง"]);
    assert_eq!(own.word_wrap("กขคกขง", 2), vec!["กขค", "กข", "ง"]);
}
