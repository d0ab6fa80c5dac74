use pdf_core::binding::binding_steps;
use pdf_core::binding::read_index;
use pdf_core::binding::PathStep;
use pdf_core::template::convert_align;
use pdf_core::template::convert_style;
use pdf_core::template::default_font_size;
use pdf_core::template::parse_and_format_date;
use pdf_core::template::parse_date;
use pdf_core::template::resolve_pages;
use pdf_core::template::Align;
use pdf_core::template::ErrorCorrection;
use pdf_core::template::FontDef;
use pdf_core::template::FontStyle;
use pdf_core::template::FormatType;
use pdf_core::template::TemplateError;

#[test]
fn it_works() {
    assert_eq!(2 + 2, 4);
}

#[test]
fn test_parse_and_format_date() {
    let result = parse_and_format_date("2025-01-22", |y, m, d| format!("{y}-{m}-{d}")).unwrap();
    assert_eq!(result, "2025-1-22");
}

#[test]
fn test_parse_date_invalid() {
    let result = parse_and_format_date("invalid", |_, _, _| String::new());
    assert!(result.is_err());
}

#[test]
fn dates_are_three_numbers_between_hyphens() {
    assert_eq!(parse_date("+2025-+7-09").unwrap(), (2025, 7, 9));
    assert_eq!(parse_date("0-0-0").unwrap(), (0, 0, 0));
    assert_eq!(parse_date("2147483647-4294967295-1").unwrap(), (i32::MAX, u32::MAX, 1));
    assert!(matches!(parse_date("2147483648-1-1"), Err(TemplateError::RenderError(_))));
    assert!(matches!(parse_date("2025-4294967296-1"), Err(TemplateError::RenderError(_))));
    assert!(matches!(parse_date("2025-01"), Err(TemplateError::RenderError(_))));
    assert!(matches!(parse_date("-2025-01-02"), Err(TemplateError::RenderError(_))));
    assert!(matches!(parse_date("2025-1a-02"), Err(TemplateError::RenderError(_))));
    assert!(matches!(parse_date("2025--02"), Err(TemplateError::RenderError(_))));
    assert!(matches!(parse_date("2025- 1-02"), Err(TemplateError::RenderError(_))));
    assert!(matches!(parse_date(""), Err(TemplateError::RenderError(_))));
}

#[test]
fn template_choices_map_onto_the_engine() {
    assert_eq!(convert_align(Align::Left), pdf_core::Align::Left);
    assert_eq!(convert_align(Align::Center), pdf_core::Align::Center);
    assert_eq!(convert_align(Align::Right), pdf_core::Align::Right);
    assert_eq!(Align::default(), Align::Left);
    assert_eq!(FontStyle::default(), FontStyle::Regular);
    assert_eq!(ErrorCorrection::default(), ErrorCorrection::M);
    assert_eq!(
        convert_style(FontStyle::BoldItalic),
        (pdf_core::FontWeight::Bold, pdf_core::FontStyle::Italic)
    );
    assert_eq!(
        convert_style(FontStyle::Italic),
        (pdf_core::FontWeight::Regular, pdf_core::FontStyle::Italic)
    );
    assert_eq!(default_font_size(), 12);
    assert_ne!(FormatType::Number, FormatType::ThaiBaht);
    let def = FontDef {
        id: "sarabun".to_string(),
        family: None,
        source: None,
        regular: Some("a.ttf".to_string()),
        bold: None,
        italic: None,
        bold_italic: None,
        fallback: vec![],
    };
    assert_eq!(def.clone().id, "sarabun");
}

#[test]
fn blocks_without_pages_go_on_every_page() {
    assert_eq!(resolve_pages(None, 3), vec![1, 2, 3]);
    assert_eq!(resolve_pages(Some(&vec![]), 2), vec![1, 2]);
    assert_eq!(resolve_pages(Some(&vec![2, 5]), 3), vec![2, 5]);
    assert_eq!(resolve_pages(None, 0), Vec::<usize>::new());
}

fn field(name: &str) -> PathStep {
    PathStep::Field(name.to_string())
}

#[test]
fn paths_are_cut_into_fields_and_indexes() {
    assert_eq!(binding_steps("$.name"), Some(vec![field("name")]));
    assert_eq!(binding_steps("$.customer.name"), Some(vec![field("customer"), field("name")]));
    assert_eq!(binding_steps("$.items[1]"), Some(vec![field("items"), PathStep::Index(1)]));
    assert_eq!(
        binding_steps("$.items[0].name"),
        Some(vec![field("items"), PathStep::Index(0), field("name")])
    );
    assert_eq!(binding_steps("$.[2].x"), Some(vec![PathStep::Index(2), field("x")]));
    assert_eq!(binding_steps("$.a[+07]"), Some(vec![field("a"), PathStep::Index(7)]));
    // an empty segment names the field without name
    assert_eq!(binding_steps("$."), Some(vec![field("")]));
    assert_eq!(binding_steps("$.a..b"), Some(vec![field("a"), field(""), field("b")]));
    // what ends a segment with a bracket is not looked at
    assert_eq!(binding_steps("$.a[3)"), Some(vec![field("a"), PathStep::Index(3)]));
}

#[test]
fn paths_that_name_nothing_are_refused() {
    assert_eq!(binding_steps("name"), None);
    assert_eq!(binding_steps("$name"), None);
    assert_eq!(binding_steps("$"), None);
    assert_eq!(binding_steps(""), None);
    assert_eq!(binding_steps("$.a["), None);
    assert_eq!(binding_steps("$.a[]"), None);
    assert_eq!(binding_steps("$.a[x]"), None);
    assert_eq!(binding_steps("$.a[-1]"), None);
    assert_eq!(binding_steps("$.a[1]]"), None);
    assert_eq!(binding_steps("$.a[1].b[.c"), None);
    assert_eq!(binding_steps("$.a[99999999999999999999999999]"), None);
}

#[test]
fn indexes_are_whole_numbers_without_sign() {
    let chars = |s: &str| s.chars().collect::<Vec<char>>();
    assert_eq!(read_index(&chars("0")), Some(0));
    assert_eq!(read_index(&chars("+12")), Some(12));
    assert_eq!(read_index(&chars("007")), Some(7));
    assert_eq!(read_index(&chars(&usize::MAX.to_string())), Some(usize::MAX));
    assert_eq!(read_index(&chars(&format!("{}0", usize::MAX))), None);
    assert_eq!(read_index(&chars("")), None);
    assert_eq!(read_index(&chars("+")), None);
    assert_eq!(read_index(&chars("-3")), None);
    assert_eq!(read_index(&chars("1 ")), None);
}
