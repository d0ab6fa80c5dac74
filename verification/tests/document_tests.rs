use pdf_core::document::hash_bytes;
use pdf_core::document::PdfDocument;
use pdf_core::font::FontFamilyBuilder;
use pdf_core::font::FontStyle;
use pdf_core::font::FontWeight;
use pdf_core::image::ImageScaleMode;
use pdf_core::object::Dictionary;
use pdf_core::object::Object;
use pdf_core::object::ObjectId;
use pdf_core::object::Stream;
use pdf_core::store::ObjectStore;
use pdf_core::units::Color;
use pdf_core::units::Fixed;
use pdf_core::Align;
use pdf_core::PdfError;

fn fx(v: f64) -> Fixed {
    Fixed::from_micros((v * 1_000_000.0).round() as i64)
}

fn be16(v: u16) -> [u8; 2] {
    v.to_be_bytes()
}

/// A small TrueType font: glyph 0 and one glyph for each character given,
/// numbered from `first_gid` on, each with its advance width.
fn build_font(chars: &[(char, u16)], first_gid: u16, units_per_em: u16) -> Vec<u8> {
    let num_glyphs = first_gid + chars.len() as u16;
    let mut advances = vec![0u16; num_glyphs as usize];
    for (i, (_, adv)) in chars.iter().enumerate() {
        advances[first_gid as usize + i] = *adv;
    }

    let mut head = Vec::new();
    head.extend_from_slice(&[0, 1, 0, 0]);
    head.extend_from_slice(&[0, 1, 0, 0]);
    head.extend_from_slice(&[0, 0, 0, 0]);
    head.extend_from_slice(&[0x5F, 0x0F, 0x3C, 0xF5]);
    head.extend_from_slice(&be16(0));
    head.extend_from_slice(&be16(units_per_em));
    head.extend_from_slice(&[0u8; 16]);
    head.extend_from_slice(&[0u8; 8]);
    head.extend_from_slice(&be16(0));
    head.extend_from_slice(&be16(8));
    head.extend_from_slice(&be16(2));
    head.extend_from_slice(&be16(0));
    head.extend_from_slice(&be16(0));
    assert_eq!(head.len(), 54);

    let mut hhea = Vec::new();
    hhea.extend_from_slice(&[0, 1, 0, 0]);
    hhea.extend_from_slice(&750i16.to_be_bytes());
    hhea.extend_from_slice(&(-250i16).to_be_bytes());
    hhea.extend_from_slice(&be16(0));
    hhea.extend_from_slice(&be16(1000));
    hhea.extend_from_slice(&[0u8; 22]);
    hhea.extend_from_slice(&be16(num_glyphs));
    assert_eq!(hhea.len(), 36);

    let mut maxp = Vec::new();
    maxp.extend_from_slice(&[0, 1, 0, 0]);
    maxp.extend_from_slice(&be16(num_glyphs));
    maxp.extend_from_slice(&[0u8; 26]);
    assert_eq!(maxp.len(), 32);

    let mut hmtx = Vec::new();
    for adv in &advances {
        hmtx.extend_from_slice(&be16(*adv));
        hmtx.extend_from_slice(&be16(0));
    }

    let mut glyf = Vec::new();
    let mut loca = Vec::new();
    for _ in 0..num_glyphs {
        loca.extend_from_slice(&be16((glyf.len() / 2) as u16));
        glyf.extend_from_slice(&[0u8; 12]);
    }
    loca.extend_from_slice(&be16((glyf.len() / 2) as u16));

    let mut sorted: Vec<(u16, u16)> = chars
        .iter()
        .enumerate()
        .map(|(i, (c, _))| (*c as u32 as u16, first_gid + i as u16))
        .collect();
    sorted.sort();
    let seg_count = sorted.len() as u16 + 1;
    let mut sub = Vec::new();
    sub.extend_from_slice(&be16(4));
    sub.extend_from_slice(&be16(16 + 8 * seg_count));
    sub.extend_from_slice(&be16(0));
    sub.extend_from_slice(&be16(seg_count * 2));
    sub.extend_from_slice(&be16(0));
    sub.extend_from_slice(&be16(0));
    sub.extend_from_slice(&be16(0));
    for (code, _) in &sorted {
        sub.extend_from_slice(&be16(*code));
    }
    sub.extend_from_slice(&be16(0xFFFF));
    sub.extend_from_slice(&be16(0));
    for (code, _) in &sorted {
        sub.extend_from_slice(&be16(*code));
    }
    sub.extend_from_slice(&be16(0xFFFF));
    for (code, gid) in &sorted {
        sub.extend_from_slice(&be16(gid.wrapping_sub(*code)));
    }
    sub.extend_from_slice(&be16(1));
    for _ in 0..seg_count {
        sub.extend_from_slice(&be16(0));
    }
    let mut cmap = Vec::new();
    cmap.extend_from_slice(&be16(0));
    cmap.extend_from_slice(&be16(1));
    cmap.extend_from_slice(&be16(3));
    cmap.extend_from_slice(&be16(1));
    cmap.extend_from_slice(&12u32.to_be_bytes());
    cmap.extend_from_slice(&sub);

    let mut tables: Vec<(&[u8; 4], Vec<u8>)> = vec![
        (b"cmap", cmap),
        (b"glyf", glyf),
        (b"head", head),
        (b"hhea", hhea),
        (b"hmtx", hmtx),
        (b"loca", loca),
        (b"maxp", maxp),
    ];
    tables.sort_by(|a, b| a.0.cmp(b.0));
    let mut out = Vec::new();
    out.extend_from_slice(&[0, 1, 0, 0]);
    out.extend_from_slice(&be16(tables.len() as u16));
    out.extend_from_slice(&be16(64));
    out.extend_from_slice(&be16(2));
    out.extend_from_slice(&be16(tables.len() as u16 * 16 - 64));
    let mut offset = 12 + 16 * tables.len();
    let mut body = Vec::new();
    for (tag, data) in &tables {
        out.extend_from_slice(&tag[..]);
        out.extend_from_slice(&[0u8; 4]);
        out.extend_from_slice(&(offset as u32).to_be_bytes());
        out.extend_from_slice(&(data.len() as u32).to_be_bytes());
        body.extend_from_slice(data);
        while body.len() % 4 != 0 {
            body.push(0);
        }
        offset = 12 + 16 * tables.len() + body.len();
    }
    out.extend_from_slice(&body);
    out
}

fn name(text: &str) -> Object {
    Object::Name(text.as_bytes().to_vec())
}

fn dict(entries: Vec<(&str, Object)>) -> Dictionary {
    let mut d = Dictionary::new();
    for (k, v) in entries {
        d.set(k.as_bytes().to_vec(), v);
    }
    d
}

fn a4_box() -> Object {
    Object::Array(vec![Object::Integer(0), Object::Integer(0), Object::Real(fx(595.28)), Object::Real(fx(841.89))])
}

/// A document with pages of A4 size, each with an empty content stream.
fn create_test_store(page_count: usize) -> ObjectStore {
    let mut store = ObjectStore::new();
    let pages_id = store
        .add_object(Object::Dictionary(dict(vec![
            ("Type", name("Pages")),
            ("Count", Object::Integer(page_count as i64)),
            ("Kids", Object::Array(vec![])),
        ])))
        .unwrap();
    let mut kids = Vec::new();
    for _ in 0..page_count {
        let contents_id = store.add_object(Object::Stream(Stream::new(Dictionary::new(), vec![]))).unwrap();
        let page_id = store
            .add_object(Object::Dictionary(dict(vec![
                ("Type", name("Page")),
                ("Parent", Object::Reference(pages_id)),
                ("MediaBox", a4_box()),
                ("Resources", Object::Dictionary(Dictionary::new())),
                ("Contents", Object::Reference(contents_id)),
            ])))
            .unwrap();
        kids.push(Object::Reference(page_id));
    }
    let mut pages = store.get_dictionary(pages_id).unwrap().clone();
    pages.set(b"Kids".to_vec(), Object::Array(kids));
    store.set_object(pages_id, Object::Dictionary(pages));
    let catalog_id = store
        .add_object(Object::Dictionary(dict(vec![("Type", name("Catalog")), ("Pages", Object::Reference(pages_id))])))
        .unwrap();
    store.trailer.set(b"Root".to_vec(), Object::Reference(catalog_id));
    store
}

fn create_test_pdf() -> PdfDocument {
    PdfDocument::new(create_test_store(1))
}

fn get_test_font_data() -> Vec<u8> {
    let mut chars: Vec<(char, u16)> = Vec::new();
    for c in ' '..='~' {
        chars.push((c, 500));
    }
    build_font(&chars, 3, 1000)
}

fn create_test_jpeg() -> Vec<u8> {
    // Minimal JPEG with SOI, SOF0, and EOI markers
    vec![
        0xFF, 0xD8, // SOI marker
        0xFF, 0xC0, // SOF0 marker (baseline DCT)
        0x00, 0x11, // Length (17 bytes)
        0x08, // Precision (8 bits)
        0x00, 0x10, // Height (16 pixels)
        0x00, 0x10, // Width (16 pixels)
        0x03, // Number of components (RGB)
        0x01, 0x22, 0x00, // Component 1 (Y, subsampling 2x2)
        0x02, 0x11, 0x01, // Component 2 (Cb, subsampling 2x1)
        0x03, 0x11, 0x01, // Component 3 (Cr, subsampling 2x1)
        0xFF, 0xD9, // EOI marker
    ]
}

fn create_test_png() -> Vec<u8> {
    let mut out = Vec::new();
    image::write_buffer_with_format(
        &mut std::io::Cursor::new(&mut out),
        &[0u8; 256],
        16,
        16,
        image::ColorType::L8,
        image::ImageFormat::Png,
    )
    .unwrap();
    out
}

fn page_dict(doc: &PdfDocument, page: usize) -> Dictionary {
    let id = doc.get_page_ids()[page - 1];
    doc.inner().get_dictionary(id).unwrap().clone()
}

fn page_content(doc: &PdfDocument, page: usize) -> String {
    let d = page_dict(doc, page);
    String::from_utf8(doc.inner().read_page_content(&d)).unwrap()
}

fn count_objects(doc: &PdfDocument, test: fn(&Object) -> bool) -> usize {
    doc.inner().objects.iter().filter(|(_, o)| test(o)).count()
}

fn is_type0(o: &Object) -> bool {
    match o {
        Object::Dictionary(d) => d.get(b"Subtype").and_then(|s| s.as_name()) == Some(&b"Type0"[..]),
        _ => false,
    }
}

fn is_image(o: &Object) -> bool {
    match o {
        Object::Stream(s) => s.dict.get(b"Subtype").and_then(|s| s.as_name()) == Some(&b"Image"[..]),
        _ => false,
    }
}

fn is_stream(o: &Object) -> bool {
    matches!(o, Object::Stream(_))
}

fn tounicode_of(doc: &PdfDocument, type0: ObjectId) -> String {
    let font = doc.inner().get_dictionary(type0).unwrap();
    let id = font.get(b"ToUnicode").unwrap().as_reference().unwrap();
    String::from_utf8(doc.inner().get_object(id).unwrap().as_stream().unwrap().content.clone()).unwrap()
}

#[test]
fn test_open_save_roundtrip() {
    let mut doc = create_test_pdf();
    assert_eq!(doc.page_count(), 1);
    let before = doc.inner().objects.len();
    doc.finish().expect("Failed to save PDF");
    assert_eq!(doc.page_count(), 1);
    assert_eq!(doc.inner().objects.len(), before);
}

#[test]
fn test_insert_text_basic() {
    let mut doc = create_test_pdf();
    doc.add_font("test", &get_test_font_data()).expect("Failed to add font");
    doc.set_font("test", fx(12.0)).expect("Failed to set font");

    doc.insert_text("Hello", 1, fx(100.0), fx(700.0), Align::Left).expect("Failed to insert text");

    doc.finish().expect("Failed to save PDF");
    assert!(page_content(&doc, 1).contains("BT\n"));
}

#[test]
fn test_insert_text_alignment() {
    let font_data = get_test_font_data();

    // Test left alignment
    {
        let mut doc = create_test_pdf();
        doc.add_font("test", &font_data).expect("Failed to add font");
        doc.set_font("test", fx(12.0)).expect("Failed to set font");
        doc.insert_text("Left", 1, fx(100.0), fx(700.0), Align::Left).expect("Failed to insert text");
        assert_eq!(doc.buffered_text_ops()[0].x, fx(100.0));
        doc.finish().expect("Failed to save PDF");
    }

    // Test center alignment: six glyphs of half an em at 12 points are 36 points wide
    {
        let mut doc = create_test_pdf();
        doc.add_font("test", &font_data).expect("Failed to add font");
        doc.set_font("test", fx(12.0)).expect("Failed to set font");
        doc.insert_text("Center", 1, fx(100.0), fx(700.0), Align::Center).expect("Failed to insert text");
        assert_eq!(doc.buffered_text_ops()[0].x, fx(82.0));
        doc.finish().expect("Failed to save PDF");
    }

    // Test right alignment: five glyphs are 30 points wide
    {
        let mut doc = create_test_pdf();
        doc.add_font("test", &font_data).expect("Failed to add font");
        doc.set_font("test", fx(12.0)).expect("Failed to set font");
        doc.insert_text("Right", 1, fx(100.0), fx(700.0), Align::Right).expect("Failed to insert text");
        assert_eq!(doc.buffered_text_ops()[0].x, fx(70.0));
        doc.finish().expect("Failed to save PDF");
    }
}

#[test]
fn aligned_text_starts_left_of_its_anchor() {
    for align in [Align::Left, Align::Center, Align::Right] {
        let mut doc = create_test_pdf();
        doc.add_font("test", &get_test_font_data()).expect("Failed to add font");
        doc.set_font("test", fx(12.0)).expect("Failed to set font");
        doc.insert_text("Aligned", 1, fx(300.0), fx(700.0), align).expect("Failed to insert text");
        // seven glyphs of half an em at 12 points are 42 points wide
        let expected = match align {
            Align::Left => 300.0,
            Align::Center => 279.0,
            Align::Right => 258.0,
        };
        assert_eq!(doc.buffered_text_ops()[0].x, fx(expected));
        doc.finish().expect("Failed to save PDF");
    }
}

#[test]
fn test_insert_image_jpeg() {
    let mut doc = create_test_pdf();
    doc.insert_image(&create_test_jpeg(), 1, fx(100.0), fx(700.0), fx(50.0), fx(50.0))
        .expect("Failed to insert JPEG image");
    doc.finish().expect("Failed to save PDF");
    assert_eq!(page_content(&doc, 1), "q\n50 0 0 50 100 91.89 cm\n/Im1 Do\nQ\n");
}

#[test]
fn test_insert_image_png() {
    let mut doc = create_test_pdf();
    doc.insert_image(&create_test_png(), 1, fx(100.0), fx(700.0), fx(50.0), fx(50.0))
        .expect("Failed to insert PNG image");
    doc.finish().expect("Failed to save PDF");
    assert_eq!(count_objects(&doc, is_image), 1);
}

#[test]
fn test_page_duplication() {
    let mut doc = create_test_pdf();
    assert_eq!(doc.page_count(), 1);

    let new_page = doc.duplicate_page(1).expect("Failed to duplicate page");
    assert_eq!(new_page, 2);
    assert_eq!(doc.page_count(), 2);

    doc.finish().expect("Failed to save PDF");
    assert_eq!(doc.page_count(), 2);
}

#[test]
fn test_multiple_fonts() {
    let mut doc = create_test_pdf();
    let font_data = get_test_font_data();
    doc.add_font("font1", &font_data).expect("Failed to add font1");
    doc.add_font("font2", &font_data).expect("Failed to add font2");

    doc.set_font("font1", fx(12.0)).expect("Failed to set font1");
    doc.insert_text("Font 1", 1, fx(100.0), fx(700.0), Align::Left).expect("Failed to insert text");
    doc.set_font("font2", fx(14.0)).expect("Failed to set font2");
    doc.insert_text("Font 2", 1, fx(100.0), fx(680.0), Align::Left).expect("Failed to insert text");

    doc.finish().expect("Failed to save PDF");
    assert_eq!(count_objects(&doc, is_type0), 2);
    let content = page_content(&doc, 1);
    assert!(content.contains("/F1 12 Tf"));
    assert!(content.contains("/F2 14 Tf"));
}

#[test]
fn test_text_on_multiple_pages() {
    let mut doc = PdfDocument::new(create_test_store(2));
    assert_eq!(doc.page_count(), 2);
    doc.add_font("test", &get_test_font_data()).expect("Failed to add font");
    doc.set_font("test", fx(12.0)).expect("Failed to set font");

    doc.insert_text("Page 1", 1, fx(100.0), fx(700.0), Align::Left).expect("Failed to insert text on page 1");
    doc.insert_text("Page 2", 2, fx(100.0), fx(700.0), Align::Left).expect("Failed to insert text on page 2");

    doc.finish().expect("Failed to save PDF");
    assert_eq!(doc.page_count(), 2);
    for page in 1..=2 {
        assert_eq!(page_content(&doc, page).matches("BT\n").count(), 1);
    }
}

#[test]
fn each_of_three_pages_gets_its_own_text() {
    let mut doc = PdfDocument::new(create_test_store(3));
    assert_eq!(doc.page_count(), 3);
    doc.add_font("test", &get_test_font_data()).expect("Failed to add font");
    doc.set_font("test", fx(12.0)).expect("Failed to set font");
    for page in 1..=3 {
        doc.insert_text("Page", page, fx(100.0), fx(700.0), Align::Left).expect("Failed to insert text");
    }
    doc.finish().expect("Failed to save PDF");
    assert_eq!(doc.get_page_ids().len(), 3);
    for page in 1..=3 {
        assert_eq!(page_content(&doc, page).matches("BT\n").count(), 1);
    }
}

#[test]
fn test_empty_text() {
    let mut doc = create_test_pdf();
    doc.add_font("test", &get_test_font_data()).expect("Failed to add font");
    doc.set_font("test", fx(12.0)).expect("Failed to set font");

    doc.insert_text("", 1, fx(100.0), fx(700.0), Align::Left).expect("Failed to insert empty text");
    assert!(doc.buffered_text_ops().is_empty());
    assert!(doc.page_font_resources().is_empty());

    let before = doc.inner().objects.len();
    doc.finish().expect("Failed to save PDF");
    assert_eq!(doc.inner().objects.len(), before);
    assert_eq!(page_content(&doc, 1), "");
}

#[test]
fn test_very_long_text() {
    let mut doc = create_test_pdf();
    doc.add_font("test", &get_test_font_data()).expect("Failed to add font");
    doc.set_font("test", fx(12.0)).expect("Failed to set font");

    // Create a very long text string
    let long_text = "Hello ".repeat(1000);
    doc.insert_text(&long_text, 1, fx(100.0), fx(700.0), Align::Left).expect("Failed to insert long text");

    doc.finish().expect("Failed to save PDF");
    // the subset numbers the glyphs of ' ', 'H', 'e', 'l', 'o' from 1 on
    assert!(page_content(&doc, 1).contains(&format!("<{}> Tj", "000200030004000400050001".repeat(1000))));
}

#[test]
fn test_thai_characters() {
    let mut doc = create_test_pdf();
    doc.add_font("test", &get_test_font_data()).expect("Failed to add font");
    doc.set_font("test", fx(12.0)).expect("Failed to set font");

    // Thai text
    let thai_text = "สวัสดีชาวโลก";
    doc.insert_text(thai_text, 1, fx(100.0), fx(700.0), Align::Left).expect("Failed to insert Thai text");

    doc.finish().expect("Failed to save PDF");
    // the font has no Thai glyphs: every character shows as glyph 0
    assert!(page_content(&doc, 1).contains(&format!("<{}> Tj", "0000".repeat(12))));
}

#[test]
fn test_invalid_page_number() {
    let mut doc = create_test_pdf();
    doc.add_font("test", &get_test_font_data()).expect("Failed to add font");
    doc.set_font("test", fx(12.0)).expect("Failed to set font");

    // Try to insert text on invalid page
    let result = doc.insert_text("Test", 999, fx(100.0), fx(700.0), Align::Left);
    assert!(result.is_err());

    match result {
        Err(PdfError::InvalidPage(page, total)) => {
            assert_eq!(page, 999);
            assert_eq!(total, 1);
        }
        _ => panic!("Expected InvalidPage error"),
    }
}

#[test]
fn pages_are_counted_from_one_to_the_last() {
    let mut doc = create_test_pdf();
    doc.add_font("test", &get_test_font_data()).expect("Failed to add font");
    doc.set_font("test", fx(12.0)).expect("Failed to set font");
    let result = doc.insert_text("Test", 0, fx(100.0), fx(700.0), Align::Left);
    assert!(matches!(result, Err(PdfError::InvalidPage(0, 1))));
    let result = doc.insert_text("Test", 2, fx(100.0), fx(700.0), Align::Left);
    assert!(matches!(result, Err(PdfError::InvalidPage(2, 1))));
    assert!(matches!(doc.duplicate_page(0), Err(PdfError::InvalidPage(0, 1))));
    assert!(matches!(doc.duplicate_page(2), Err(PdfError::InvalidPage(2, 1))));
}

#[test]
fn test_font_not_found() {
    let mut doc = create_test_pdf();
    // Try to set font that wasn't added
    let result = doc.set_font("nonexistent", fx(12.0));
    assert!(result.is_err());

    match result {
        Err(PdfError::FontNotFound(name)) => {
            assert_eq!(name, "nonexistent");
        }
        _ => panic!("Expected FontNotFound error"),
    }
}

#[test]
fn test_no_font_set() {
    let mut doc = create_test_pdf();
    // Try to insert text without setting font
    let result = doc.insert_text("Test", 1, fx(100.0), fx(700.0), Align::Left);
    assert!(result.is_err());

    match result {
        Err(PdfError::FontNotFound(_)) => {}
        _ => panic!("Expected FontNotFound error"),
    }
}

#[test]
fn test_duplicate_page_invalid() {
    let mut doc = create_test_pdf();

    // Try to duplicate invalid page
    let result = doc.duplicate_page(999);
    assert!(result.is_err());

    match result {
        Err(PdfError::InvalidPage(page, total)) => {
            assert_eq!(page, 999);
            assert_eq!(total, 1);
        }
        _ => panic!("Expected InvalidPage error"),
    }
}

#[test]
fn test_image_deduplication() {
    let mut doc = create_test_pdf();
    let jpeg_data = create_test_jpeg();

    // Insert the same image twice
    doc.insert_image(&jpeg_data, 1, fx(100.0), fx(700.0), fx(50.0), fx(50.0)).expect("Failed to insert image 1");
    doc.insert_image(&jpeg_data, 1, fx(200.0), fx(700.0), fx(50.0), fx(50.0)).expect("Failed to insert image 2");

    doc.finish().expect("Failed to save PDF");
    assert_eq!(count_objects(&doc, is_image), 1);
    assert_eq!(
        page_content(&doc, 1),
        "q\n50 0 0 50 100 91.89 cm\n/Im1 Do\nQ\nq\n50 0 0 50 200 91.89 cm\n/Im1 Do\nQ\n"
    );
    let page = page_dict(&doc, 1);
    let images = page.get(b"Resources").unwrap().as_dict().unwrap().get(b"XObject").unwrap().as_dict().unwrap();
    assert_eq!(images.len(), 1);
    assert!(images.has(b"Im1"));
}

#[test]
fn test_get_page_ids() {
    let doc = create_test_pdf();
    let page_ids = doc.get_page_ids();

    assert_eq!(page_ids.len(), 1);
}

#[test]
fn test_inner_document_access() {
    let mut doc = create_test_pdf();
    let inner = doc.inner();
    assert_eq!(inner.page_ids().len(), 1);
    let inner_mut = doc.inner_mut();
    assert_eq!(inner_mut.page_ids().len(), 1);
    inner_mut.add_blank_page().unwrap();
    assert_eq!(doc.page_count(), 2);
    let store = doc.into_inner();
    assert_eq!(store.page_count(), 2);
}

fn family_font() -> Vec<u8> {
    // glyph 5 for 'A' and glyph 6 for 'B', both half an em wide
    build_font(&[('A', 500), ('B', 500)], 5, 1000)
}

#[test]
fn single_insert_into_an_empty_template() {
    let mut doc = create_test_pdf();
    doc.register_font_family("f", FontFamilyBuilder::new().regular(family_font())).unwrap();
    doc.set_font("f", fx(12.0)).unwrap();
    doc.insert_text("A", 1, fx(100.0), fx(100.0), Align::Left).unwrap();
    let streams_before = count_objects(&doc, is_stream);
    doc.finish().unwrap();

    assert_eq!(count_objects(&doc, is_type0), 1);
    let (font, type0) = doc.embedded_fonts()[0];
    assert_eq!(doc.fonts().variant(font).name(), "f");
    let map = tounicode_of(&doc, type0);
    // the subset holds glyph 0 and the glyph of 'A' as glyph 1
    assert!(map.contains("1 beginbfchar\n<0001> <0041>\nendbfchar\n"));
    let content = page_content(&doc, 1);
    assert_eq!(content, "BT\n0 0 0 rg\n/F1 12 Tf\n100 741.89 Td\n<0001> Tj\nET\n");
    // the page refers to the font under its resource name
    let page = page_dict(&doc, 1);
    let fonts = page.get(b"Resources").unwrap().as_dict().unwrap().get(b"Font").unwrap().as_dict().unwrap();
    assert_eq!(fonts.get(b"F1").unwrap().as_reference(), Some(type0));
    // the content stream took the place of the one before; the font file
    // and the character map were added
    assert_eq!(count_objects(&doc, is_stream), streams_before + 2);
    // the widths list glyph 0 never used, glyph 1 with the advance of 'A'
    let descendant = doc.inner().get_dictionary(type0).unwrap().get(b"DescendantFonts").unwrap().as_array().unwrap()[0]
        .as_reference()
        .unwrap();
    let cid = doc.inner().get_dictionary(descendant).unwrap();
    let w = cid.get(b"W").unwrap().as_array().unwrap();
    assert_eq!(w.len(), 2);
    assert_eq!(w[0].as_i64(), Some(1));
    assert_eq!(w[1].as_array().unwrap()[0].as_i64(), Some(500));
    assert_eq!(cid.get(b"DW").unwrap().as_i64(), Some(1000));
}

#[test]
fn right_aligned_text_starts_its_width_before_the_anchor() {
    let mut doc = create_test_pdf();
    doc.register_font_family("f", FontFamilyBuilder::new().regular(family_font())).unwrap();
    doc.set_font("f", fx(10.0)).unwrap();
    assert_eq!(doc.get_text_width("AB").unwrap(), fx(10.0));
    doc.insert_text("AB", 1, fx(200.0), fx(50.0), Align::Right).unwrap();
    let op = &doc.buffered_text_ops()[0];
    assert_eq!(op.x, fx(190.0));
    assert_eq!(op.y, fx(791.89));
    assert_eq!(op.text, "AB");
    doc.insert_text("AB", 1, fx(200.0), fx(50.0), Align::Center).unwrap();
    assert_eq!(doc.buffered_text_ops()[1].x, fx(195.0));
    doc.insert_text("AB", 1, fx(200.0), fx(50.0), Align::Left).unwrap();
    assert_eq!(doc.buffered_text_ops()[2].x, fx(200.0));
}

#[test]
fn characters_without_glyph_go_to_the_fallback_family() {
    let mut doc = create_test_pdf();
    doc.register_font_family("p", FontFamilyBuilder::new().regular(family_font())).unwrap();
    doc.register_font_family("s", FontFamilyBuilder::new().regular(build_font(&[('★', 800)], 1, 1000))).unwrap();
    doc.set_font_fallback("p", &vec!["s".to_string()]).unwrap();
    doc.set_font("p", fx(10.0)).unwrap();
    doc.insert_text("A★B", 1, fx(100.0), fx(100.0), Align::Left).unwrap();

    let ops = doc.buffered_text_ops();
    assert_eq!(ops.len(), 3);
    let names: Vec<String> = ops.iter().map(|op| doc.fonts().variant(op.font).name().clone()).collect();
    assert_eq!(names, vec!["p", "s", "p"]);
    let texts: Vec<&str> = ops.iter().map(|op| op.text.as_str()).collect();
    assert_eq!(texts, vec!["A", "★", "B"]);
    assert_eq!(texts.concat(), "A★B");
    // each run starts where the one before ends
    assert_eq!(ops[0].x, fx(100.0));
    assert_eq!(ops[1].x, fx(105.0));
    assert_eq!(ops[2].x, fx(113.0));
    // every character is marked as used in the font of its run
    assert_eq!(doc.fonts().variant(ops[0].font).used_chars(), &vec!['A', 'B']);
    assert_eq!(doc.fonts().variant(ops[1].font).used_chars(), &vec!['★']);
    // a character that no family has stays with the selected font
    doc.insert_text("A?", 1, fx(0.0), fx(0.0), Align::Left).unwrap();
    assert_eq!(doc.buffered_text_ops().len(), 4);
    assert_eq!(doc.buffered_text_ops()[3].text, "A?");
    doc.finish().unwrap();
    assert_eq!(count_objects(&doc, is_type0), 2);
    let content = page_content(&doc, 1);
    assert!(content.contains("/F1 10 Tf\n100 741.89 Td\n<0001> Tj"));
    assert!(content.contains("/F2 10 Tf\n105 741.89 Td\n<0001> Tj"));
    assert!(content.contains("/F1 10 Tf\n113 741.89 Td\n<0002> Tj"));
    assert!(content.contains("<00010000> Tj"));
}

#[test]
fn without_fallback_chain_the_text_is_one_run() {
    let mut doc = create_test_pdf();
    doc.register_font_family("p", FontFamilyBuilder::new().regular(family_font())).unwrap();
    doc.register_font_family("s", FontFamilyBuilder::new().regular(build_font(&[('★', 800)], 1, 1000))).unwrap();
    doc.set_font("p", fx(10.0)).unwrap();
    doc.insert_text("A★B", 1, fx(100.0), fx(100.0), Align::Left).unwrap();
    assert_eq!(doc.buffered_text_ops().len(), 1);
}

#[test]
fn the_same_image_is_embedded_once() {
    let mut doc = create_test_pdf();
    let jpeg = create_test_jpeg();
    doc.insert_image(&jpeg, 1, fx(10.0), fx(20.0), fx(16.0), fx(16.0)).unwrap();
    let objects = doc.inner().objects.len();
    doc.insert_image(&jpeg, 1, fx(110.0), fx(120.0), fx(32.0), fx(32.0)).unwrap();
    doc.insert_image(&jpeg, 1, fx(0.0), fx(0.0), fx(1.0), fx(1.0)).unwrap();
    assert_eq!(doc.inner().objects.len(), objects);
    assert_eq!(doc.embedded_images().len(), 1);
    assert_eq!(doc.embedded_images()[0].hash, hash_bytes(&jpeg));
    assert_eq!((doc.embedded_images()[0].width, doc.embedded_images()[0].height), (16, 16));
    assert_eq!(doc.page_image_resources().len(), 1);
    doc.finish().unwrap();
    assert_eq!(count_objects(&doc, is_image), 1);
    let content = page_content(&doc, 1);
    assert_eq!(content.matches("q\n").count(), 3);
    assert_eq!(content.matches("/Im1 Do\nQ\n").count(), 3);
    assert!(content.contains("16 0 0 16 10 805.89 cm"));
    assert!(content.contains("32 0 0 32 110 689.89 cm"));
    let page = page_dict(&doc, 1);
    let xobjects = page.get(b"Resources").unwrap().as_dict().unwrap().get(b"XObject").unwrap().as_dict().unwrap();
    assert_eq!(xobjects.len(), 1);
    assert_eq!(xobjects.get(b"Im1").unwrap().as_reference(), Some(doc.embedded_images()[0].object));
    // another image gets another object and another name
    let mut other = PdfDocument::new(create_test_store(2));
    other.insert_image(&jpeg, 1, fx(0.0), fx(0.0), fx(1.0), fx(1.0)).unwrap();
    other.insert_image(&create_test_png(), 1, fx(0.0), fx(0.0), fx(1.0), fx(1.0)).unwrap();
    other.insert_image(&jpeg, 2, fx(0.0), fx(0.0), fx(1.0), fx(1.0)).unwrap();
    assert_eq!(other.embedded_images().len(), 2);
    let tags: Vec<(usize, u32)> = other.page_image_resources().iter().map(|t| (t.page, t.number)).collect();
    assert_eq!(tags, vec![(1, 1), (1, 2), (2, 3)]);
}

#[test]
fn images_keep_their_aspect_ratio_when_asked_to() {
    let mut doc = create_test_pdf();
    let mut wide = create_test_jpeg();
    wide[10] = 0x20; // 32 pixels wide, 16 high
    doc.insert_image_scaled(&wide, 1, fx(0.0), fx(0.0), fx(100.0), fx(100.0), ImageScaleMode::FitBox).unwrap();
    assert_eq!(String::from_utf8(doc.buffered_content(1)).unwrap(), "q\n100 0 0 50 0 791.89 cm\n/Im1 Do\nQ\n");
    doc.insert_image_scaled(&wide, 1, fx(0.0), fx(0.0), fx(100.0), fx(100.0), ImageScaleMode::FitHeight).unwrap();
    assert!(String::from_utf8(doc.buffered_content(1)).unwrap().ends_with("q\n200 0 0 100 0 741.89 cm\n/Im1 Do\nQ\n"));
}

#[test]
fn a_failing_insert_leaves_the_document_as_it_was() {
    let mut doc = create_test_pdf();
    let objects = doc.inner().objects.len();
    assert!(matches!(
        doc.insert_image(&[1, 2, 3], 1, fx(0.0), fx(0.0), fx(1.0), fx(1.0)),
        Err(PdfError::ImageError(_))
    ));
    assert!(matches!(
        doc.insert_image(&create_test_jpeg(), 7, fx(0.0), fx(0.0), fx(1.0), fx(1.0)),
        Err(PdfError::InvalidPage(7, 1))
    ));
    assert_eq!(doc.inner().objects.len(), objects);
    assert!(doc.embedded_images().is_empty());
    assert!(doc.buffered_content(1).is_empty());
}

#[test]
fn a_duplicated_page_shows_what_the_page_shows() {
    let mut doc = create_test_pdf();
    doc.register_font_family("f", FontFamilyBuilder::new().regular(family_font())).unwrap();
    doc.set_font("f", fx(12.0)).unwrap();
    doc.insert_text("AB", 1, fx(100.0), fx(100.0), Align::Left).unwrap();
    doc.insert_image(&create_test_jpeg(), 1, fx(10.0), fx(20.0), fx(16.0), fx(16.0)).unwrap();
    assert_eq!(doc.duplicate_page(1).unwrap(), 2);
    assert_eq!(doc.page_count(), 2);
    doc.finish().unwrap();
    let first = page_content(&doc, 1);
    assert!(first.contains("<00010002> Tj"));
    assert!(first.contains("/Im1 Do"));
    assert_eq!(page_content(&doc, 2), first);
    // the copy has a content stream of its own
    let c1 = page_dict(&doc, 1).get(b"Contents").unwrap().as_reference();
    let c2 = page_dict(&doc, 2).get(b"Contents").unwrap().as_reference();
    assert_ne!(c1, c2);
    // both pages refer to the font and to the image
    for page in 1..=2 {
        let d = page_dict(&doc, page);
        let resources = d.get(b"Resources").unwrap().as_dict().unwrap();
        assert!(resources.get(b"Font").unwrap().as_dict().unwrap().has(b"F1"));
        assert!(resources.get(b"XObject").unwrap().as_dict().unwrap().has(b"Im1"));
    }
}

#[test]
fn resource_names_of_a_copy_are_its_own() {
    let mut doc = create_test_pdf();
    doc.add_font("a", &family_font()).unwrap();
    doc.add_font("b", &build_font(&[('x', 100)], 1, 1000)).unwrap();
    assert_eq!(doc.get_or_create_font_ref("a", 1).unwrap(), "F1");
    doc.duplicate_page(1).unwrap();
    let first: Vec<(usize, usize, u32)> = doc.page_font_resources().iter().map(|t| (t.page, t.font, t.number)).collect();
    assert_eq!(first, vec![(1, 0, 1), (2, 0, 1)]);
    // a new name on the copy does not touch the names of the page
    assert_eq!(doc.get_or_create_font_ref("b", 2).unwrap(), "F2");
    assert_eq!(doc.get_or_create_font_ref("a", 2).unwrap(), "F1");
    let tags: Vec<(usize, usize, u32)> = doc.page_font_resources().iter().map(|t| (t.page, t.font, t.number)).collect();
    assert_eq!(tags, vec![(1, 0, 1), (2, 0, 1), (2, 1, 2)]);
    assert!(matches!(doc.get_or_create_font_ref("zz", 1), Err(PdfError::FontNotFound(_))));
}

#[test]
fn a_second_save_holds_the_text_of_both() {
    let mut doc = create_test_pdf();
    doc.register_font_family("f", FontFamilyBuilder::new().regular(family_font())).unwrap();
    doc.set_font("f", fx(12.0)).unwrap();
    doc.insert_text("A", 1, fx(100.0), fx(100.0), Align::Left).unwrap();
    doc.finish().unwrap();
    assert_eq!(page_content(&doc, 1).matches("BT\n").count(), 1);
    doc.insert_text("B", 1, fx(100.0), fx(200.0), Align::Left).unwrap();
    doc.finish().unwrap();
    let content = page_content(&doc, 1);
    assert_eq!(content.matches("BT\n").count(), 2);
    assert!(content.contains("100 741.89 Td\n<0001> Tj"));
    assert!(content.contains("100 641.89 Td\n<0002> Tj"));
    // the font that the page refers to knows both characters
    let (_, type0) = doc.embedded_fonts()[0];
    assert_eq!(doc.embedded_fonts().len(), 1);
    let map = tounicode_of(&doc, type0);
    assert!(map.contains("2 beginbfchar\n<0001> <0041>\n<0002> <0042>\nendbfchar\n"));
    let page = page_dict(&doc, 1);
    let fonts = page.get(b"Resources").unwrap().as_dict().unwrap().get(b"Font").unwrap().as_dict().unwrap();
    assert_eq!(fonts.len(), 1);
    assert_eq!(fonts.get(b"F1").unwrap().as_reference(), Some(type0));
    // the objects of the first save's font are gone
    assert_eq!(count_objects(&doc, is_type0), 1);
    assert_eq!(orphans(doc.inner()), Vec::<ObjectId>::new());
}

fn references(o: &Object, out: &mut Vec<ObjectId>) {
    match o {
        Object::Reference(id) => out.push(*id),
        Object::Array(items) => items.iter().for_each(|i| references(i, out)),
        Object::Dictionary(d) => d.entries.iter().for_each(|(_, v)| references(v, out)),
        Object::Stream(s) => s.dict.entries.iter().for_each(|(_, v)| references(v, out)),
        _ => {}
    }
}

fn orphans(store: &ObjectStore) -> Vec<ObjectId> {
    let mut seen: Vec<ObjectId> = Vec::new();
    let mut work: Vec<ObjectId> = Vec::new();
    store.trailer.entries.iter().for_each(|(_, v)| references(v, &mut work));
    while let Some(id) = work.pop() {
        if !seen.contains(&id) {
            seen.push(id);
            if let Some(o) = store.get_raw(id) {
                references(o, &mut work);
            }
        }
    }
    store.objects.iter().map(|(id, _)| *id).filter(|id| !seen.contains(id)).collect()
}

#[test]
fn objects_out_of_reach_are_removed() {
    let mut store = create_test_store(2);
    let pages = store.page_ids();
    let info = store.add_object(Object::Dictionary(dict(vec![("Title", Object::Integer(1))]))).unwrap();
    let note = store.add_object(Object::Stream(Stream::new(Dictionary::new(), vec![1, 2, 3]))).unwrap();
    let mut with_note = store.get_dictionary(info).unwrap().clone();
    with_note.set(b"Note".to_vec(), Object::Array(vec![Object::Integer(0), Object::Reference(note)]));
    store.set_object(info, Object::Dictionary(with_note));
    store.trailer.set(b"Info".to_vec(), Object::Reference(info));
    // two objects that refer to each other and to a page, and to which nothing refers
    let lost = store.add_object(Object::Stream(Stream::new(Dictionary::new(), vec![9]))).unwrap();
    let loner = store
        .add_object(Object::Dictionary(dict(vec![("A", Object::Reference(lost)), ("P", Object::Reference(pages[0]))])))
        .unwrap();
    store.set_object(lost, Object::Stream(Stream::new(dict(vec![("B", Object::Reference(loner))]), vec![9])));
    store.trailer.set(b"Gone".to_vec(), Object::Reference((999, 0)));
    let before = store.len();
    assert_eq!(orphans(&store), vec![lost, loner]);
    store.prune();
    assert_eq!(store.len(), before - 2);
    assert!(store.get_raw(lost).is_none());
    assert!(store.get_raw(loner).is_none());
    assert_eq!(store.get_object(note).unwrap().as_stream().unwrap().content, vec![1, 2, 3]);
    assert_eq!(store.page_ids(), pages);
    assert_eq!(orphans(&store), Vec::<ObjectId>::new());
    // nothing more to remove
    store.prune();
    assert_eq!(store.len(), before - 2);
}

#[test]
fn after_a_save_every_object_is_in_reach() {
    let mut store = create_test_store(1);
    let stray = store.add_object(Object::Stream(Stream::new(Dictionary::new(), vec![7]))).unwrap();
    let mut doc = PdfDocument::new(store);
    doc.register_font_family("f", FontFamilyBuilder::new().regular(family_font())).unwrap();
    doc.set_font("f", fx(12.0)).unwrap();
    doc.insert_text("AB", 1, fx(10.0), fx(10.0), Align::Left).unwrap();
    doc.insert_image(&create_test_jpeg(), 1, fx(0.0), fx(0.0), fx(10.0), fx(10.0)).unwrap();
    doc.finish().unwrap();
    assert!(doc.inner().get_raw(stray).is_none());
    assert_eq!(orphans(doc.inner()), Vec::<ObjectId>::new());
    assert_eq!(count_objects(&doc, is_type0), 1);
    assert_eq!(count_objects(&doc, is_image), 1);
    assert_eq!(doc.page_count(), 1);
    assert_eq!(page_content(&doc, 1).matches("BT\n").count(), 1);
}

#[test]
fn blank_pages_are_a4() {
    let mut doc = create_test_pdf();
    assert_eq!(doc.add_blank_page().unwrap(), 2);
    assert_eq!(doc.add_blank_page().unwrap(), 3);
    assert_eq!(doc.page_count(), 3);
    let page = page_dict(&doc, 3);
    assert_eq!(page.get(b"Type").unwrap().as_name(), Some(&b"Page"[..]));
    assert_eq!(doc.inner().page_height(doc.get_page_ids()[2]).unwrap(), fx(841.89));
    let root = doc.inner().page_tree_root().unwrap();
    let pages = doc.inner().get_dictionary(root).unwrap();
    assert_eq!(pages.get(b"Count").unwrap().as_i64(), Some(3));
    assert_eq!(pages.get(b"Kids").unwrap().as_array().unwrap().len(), 3);
    doc.add_font("a", &family_font()).unwrap();
    doc.set_font("a", fx(9.0)).unwrap();
    doc.insert_text("A", 3, fx(1.0), fx(2.0), Align::Left).unwrap();
    doc.finish().unwrap();
    assert!(page_content(&doc, 3).contains("1 839.89 Td"));
    assert_eq!(page_content(&doc, 2), "");
}

#[test]
fn page_height_comes_from_the_nearest_box() {
    let mut store = create_test_store(1);
    let page_id = store.page_ids()[0];
    // without a box of its own the page takes that of its parent
    let mut page = store.get_dictionary(page_id).unwrap().clone();
    let parent = page.get(b"Parent").unwrap().as_reference().unwrap();
    page = dict(vec![("Type", name("Page")), ("Parent", Object::Reference(parent))]);
    store.set_object(page_id, Object::Dictionary(page.clone()));
    assert_eq!(store.page_height(page_id).unwrap(), fx(841.89));
    let mut pages = store.get_dictionary(parent).unwrap().clone();
    pages.set(
        b"MediaBox".to_vec(),
        Object::Array(vec![Object::Integer(0), Object::Integer(10), Object::Integer(612), Object::Integer(802)]),
    );
    store.set_object(parent, Object::Dictionary(pages.clone()));
    assert_eq!(store.page_height(page_id).unwrap(), fx(792.0));
    // a crop box counts where there is no media box, also by reference
    let box_id = store
        .add_object(Object::Array(vec![Object::Integer(0), Object::Real(fx(0.5)), Object::Integer(1), Object::Integer(101)]))
        .unwrap();
    page.set(b"CropBox".to_vec(), Object::Reference(box_id));
    store.set_object(page_id, Object::Dictionary(page.clone()));
    assert_eq!(store.page_height(page_id).unwrap(), fx(100.5));
    // a box that is no array of four numbers is refused
    page.set(b"MediaBox".to_vec(), Object::Array(vec![Object::Integer(0)]));
    store.set_object(page_id, Object::Dictionary(page.clone()));
    assert!(matches!(store.page_height(page_id), Err(PdfError::ParseError(_))));
    page.set(b"MediaBox".to_vec(), Object::Integer(3));
    store.set_object(page_id, Object::Dictionary(page));
    assert!(matches!(store.page_height(page_id), Err(PdfError::ParseError(_))));
    assert!(matches!(store.page_height((999, 0)), Err(PdfError::LopdfError(_))));
}

#[test]
fn existing_content_is_kept_and_decompressed() {
    let mut store = create_test_store(1);
    let page_id = store.page_ids()[0];
    let mut encoder = flate2::write::ZlibEncoder::new(Vec::new(), flate2::Compression::default());
    std::io::Write::write_all(&mut encoder, b"0 0 m\n").unwrap();
    let packed = encoder.finish().unwrap();
    let first = store
        .add_object(Object::Stream(Stream::new(dict(vec![("Filter", name("FlateDecode"))]), packed)))
        .unwrap();
    let second = store.add_object(Object::Stream(Stream::new(Dictionary::new(), b"1 1 l\n".to_vec()))).unwrap();
    // a stream that claims compression but holds none is taken as it is
    let third = store
        .add_object(Object::Stream(Stream::new(dict(vec![("Filter", name("FlateDecode"))]), b"S\n".to_vec())))
        .unwrap();
    let mut page = store.get_dictionary(page_id).unwrap().clone();
    page.set(
        b"Contents".to_vec(),
        Object::Array(vec![Object::Reference(first), Object::Reference(second), Object::Integer(1), Object::Reference(third)]),
    );
    store.set_object(page_id, Object::Dictionary(page));
    let mut doc = PdfDocument::new(store);
    doc.buffer_content(1, b"Q\n");
    let objects = doc.inner().objects.len();
    doc.finish().unwrap();
    assert_eq!(page_content(&doc, 1), "0 0 m\n1 1 l\nS\nQ\n");
    // one stream took the place of the four that the page had
    assert_eq!(doc.inner().objects.len(), objects - 4 + 1);
    let contents = page_dict(&doc, 1).get(b"Contents").unwrap().as_reference().unwrap();
    let stream = doc.inner().get_object(contents).unwrap().as_stream().unwrap();
    assert!(!stream.dict.has(b"Filter"));
    assert_eq!(stream.dict.get(b"Length").unwrap().as_i64(), Some(16));
}

#[test]
fn families_and_fonts_share_their_names() {
    let mut doc = create_test_pdf();
    let font = family_font();
    doc.register_font_family("f", FontFamilyBuilder::new().regular(font.clone()).bold(font.clone())).unwrap();
    assert!(matches!(
        doc.register_font_family("f", FontFamilyBuilder::new().regular(font.clone())),
        Err(PdfError::FontAlreadyExists(_))
    ));
    assert!(matches!(doc.add_font("f", &font), Err(PdfError::FontAlreadyExists(_))));
    // the name of a variant is taken as well
    assert!(matches!(doc.add_font("f-bold", &font), Err(PdfError::FontAlreadyExists(_))));
    assert!(matches!(doc.add_font("g", &[0u8; 10]), Err(PdfError::FontParseError(_))));
    assert!(matches!(
        doc.register_font_family("h", FontFamilyBuilder::new().bold(font.clone())),
        Err(PdfError::FontParseError(_))
    ));
    doc.add_font("g", &font).unwrap();
    assert_eq!(doc.fonts().family_count(), 2);
    assert_eq!(doc.fonts().variant_count(), 3);
    // weight and style pick the variant
    doc.set_font("f", fx(8.0)).unwrap();
    assert_eq!(doc.get_current_font_name().unwrap(), "f");
    doc.set_font_weight(FontWeight::Bold).unwrap();
    doc.set_font_style(FontStyle::Italic).unwrap();
    assert_eq!(doc.get_current_font_name().unwrap(), "f-bold");
    doc.set_font("g", fx(8.0)).unwrap();
    assert_eq!(doc.get_current_font_name().unwrap(), "g");
    assert_eq!(doc.current_weight(), FontWeight::Bold);
    doc.set_font_size(fx(9.5)).unwrap();
    assert_eq!(doc.current_font_size(), fx(9.5));
    doc.set_text_color(Color::red());
    assert_eq!(doc.current_text_color(), Color::red());
    assert_eq!(doc.current_family(), &Some("g".to_string()));
}

#[test]
fn setters_need_a_selected_family() {
    let mut doc = create_test_pdf();
    assert!(matches!(doc.set_font_size(fx(1.0)), Err(PdfError::FontNotFound(_))));
    assert!(matches!(doc.set_font_weight(FontWeight::Bold), Err(PdfError::FontNotFound(_))));
    assert!(matches!(doc.set_font_style(FontStyle::Italic), Err(PdfError::FontNotFound(_))));
    assert!(matches!(doc.get_text_width("x"), Err(PdfError::FontNotFound(_))));
    assert!(matches!(doc.get_current_font_name(), Err(PdfError::FontNotFound(_))));
    assert_eq!(doc.current_font_size(), fx(12.0));
    assert_eq!(doc.current_text_color(), Color::black());
}

#[test]
fn fallback_chains_name_registered_families() {
    let mut doc = create_test_pdf();
    let font = family_font();
    doc.add_font("a", &font).unwrap();
    doc.add_font("b", &font).unwrap();
    doc.register_font_family("c", FontFamilyBuilder::new().regular(font)).unwrap();
    assert!(matches!(doc.set_font_fallback("x", &vec![]), Err(PdfError::FontNotFound(n)) if n == "x"));
    assert!(matches!(
        doc.set_font_fallback("a", &vec!["b".to_string(), "y".to_string()]),
        Err(PdfError::FontNotFound(n)) if n == "y"
    ));
    doc.set_font_fallback("a", &vec!["b".to_string(), "c".to_string()]).unwrap();
    assert_eq!(doc.fonts().chain("a"), Some(&vec!["b".to_string(), "c".to_string()]));
    // single fonts only
    assert!(matches!(doc.add_font_fallback("a", "c"), Err(PdfError::FontNotFound(n)) if n == "c"));
    assert!(matches!(doc.add_font_fallback("c", "a"), Err(PdfError::FontNotFound(n)) if n == "c"));
    doc.add_font_fallback("b", "a").unwrap();
    doc.add_font_fallback("b", "b").unwrap();
    assert_eq!(doc.fonts().chain("b"), Some(&vec!["a".to_string(), "b".to_string()]));
    doc.set_font_with_fallback("a", fx(7.0), &vec!["b".to_string()]).unwrap();
    assert_eq!(doc.fonts().chain("a"), Some(&vec!["b".to_string()]));
    assert_eq!(doc.current_font_size(), fx(7.0));
    doc.set_font_with_fallback("c", fx(7.0), &vec![]).unwrap();
    assert_eq!(doc.fonts().chain("c"), None);
    assert!(matches!(
        doc.set_font_with_fallback("c", fx(7.0), &vec!["a".to_string()]),
        Err(PdfError::FontNotFound(_))
    ));
}

#[test]
fn a_resource_name_without_used_characters_fails_the_save() {
    let mut doc = create_test_pdf();
    doc.add_font("a", &family_font()).unwrap();
    doc.get_or_create_font_ref("a", 1).unwrap();
    assert!(matches!(doc.finish(), Err(PdfError::FontNotFound(n)) if n == "a"));
}

#[test]
fn page_tree_is_walked_through_nested_nodes() {
    let mut store = ObjectStore::new();
    let root = store.add_object(Object::Null).unwrap();
    let inner = store.add_object(Object::Null).unwrap();
    let first_page = store.add_object(Object::Dictionary(dict(vec![("Type", name("Page"))]))).unwrap();
    let second_page = store.add_object(Object::Dictionary(dict(vec![("Type", name("Page"))]))).unwrap();
    let other = store.add_object(Object::Dictionary(dict(vec![("Type", name("Font"))]))).unwrap();
    let kids_id = store.add_object(Object::Array(vec![Object::Reference(second_page), Object::Reference(other)])).unwrap();
    store.set_object(
        inner,
        Object::Dictionary(dict(vec![("Type", name("Pages")), ("Kids", Object::Reference(kids_id))])),
    );
    store.set_object(
        root,
        Object::Dictionary(dict(vec![
            ("Type", name("Pages")),
            ("Kids", Object::Array(vec![Object::Reference(first_page), Object::Integer(3), Object::Reference(inner), Object::Reference((77, 0))])),
        ])),
    );
    let catalog = store.add_object(Object::Dictionary(dict(vec![("Pages", Object::Reference(root))]))).unwrap();
    store.trailer.set(b"Root".to_vec(), Object::Reference(catalog));
    // a kid that cannot be read keeps its place as a page
    assert_eq!(store.page_ids(), vec![first_page, second_page, (77, 0)]);
    assert_eq!(store.page_id(2), Some(second_page));
    assert_eq!(store.page_id(0), None);
    assert_eq!(store.page_id(4), None);
    // a node that is its own kid ends the walk
    let mut looped = ObjectStore::new();
    let node = looped.add_object(Object::Null).unwrap();
    looped.set_object(
        node,
        Object::Dictionary(dict(vec![("Type", name("Pages")), ("Kids", Object::Array(vec![Object::Reference(node)]))])),
    );
    let catalog = looped.add_object(Object::Dictionary(dict(vec![("Pages", Object::Reference(node))]))).unwrap();
    looped.trailer.set(b"Root".to_vec(), Object::Reference(catalog));
    assert_eq!(looped.page_count(), 0);
    assert_eq!(ObjectStore::new().page_count(), 0);
}

#[test]
fn references_are_followed_up_to_a_limit() {
    let mut store = ObjectStore::new();
    let target = store.add_object(Object::Integer(42)).unwrap();
    let via = store.add_object(Object::Reference(target)).unwrap();
    assert_eq!(store.get_object(via).unwrap().as_i64(), Some(42));
    assert!(store.get_raw(via).unwrap().as_reference().is_some());
    let knot = store.add_object(Object::Null).unwrap();
    store.set_object(knot, Object::Reference(knot));
    assert!(store.get_object(knot).is_none());
    assert!(store.get_object((1000, 0)).is_none());
    assert_eq!(store.len(), 3);
}

#[test]
fn an_appended_page_is_the_last_page() {
    let mut doc = PdfDocument::new(create_test_store(2));
    let before = doc.get_page_ids();
    let copy = doc.duplicate_page(1).unwrap();
    assert_eq!(copy, 3);
    let with_copy = doc.get_page_ids();
    assert_eq!(with_copy.len(), 3);
    assert_eq!(&with_copy[..2], &before[..]);
    assert!(!before.contains(&with_copy[2]));
    let blank = doc.add_blank_page().unwrap();
    assert_eq!(blank, 4);
    let with_blank = doc.get_page_ids();
    assert_eq!(&with_blank[..3], &with_copy[..]);
    assert_eq!(doc.page_count(), 4);
    // the copy is a page of its own with the entries of the first
    let source = doc.inner().get_dictionary(before[0]).unwrap();
    let copied = doc.inner().get_dictionary(with_copy[2]).unwrap();
    assert_eq!(copied.get(b"Type").unwrap().as_name(), Some(&b"Page"[..]));
    assert_eq!(copied.len(), source.len());
}

#[test]
fn a_taken_font_name_comes_back_in_the_error() {
    let mut doc = create_test_pdf();
    doc.add_font("a", &family_font()).unwrap();
    assert!(matches!(doc.add_font("a", &family_font()), Err(PdfError::FontAlreadyExists(n)) if n == "a"));
    let again = doc.register_font_family("a", FontFamilyBuilder::new().regular(family_font()));
    assert!(matches!(again, Err(PdfError::FontAlreadyExists(n)) if n == "a"));
    assert!(matches!(doc.get_or_create_font_ref("b", 1), Err(PdfError::FontNotFound(n)) if n == "b"));
    assert_eq!(doc.get_or_create_font_ref("a", 1).unwrap(), "F1");
    assert_eq!(doc.get_or_create_font_ref("a", 1).unwrap(), "F1");
    assert_eq!(doc.page_font_resources().len(), 1);
}

#[test]
fn an_image_gets_one_name_on_each_page_and_one_object() {
    let mut doc = PdfDocument::new(create_test_store(2));
    let jpeg = create_test_jpeg();
    let objects = doc.inner().len();
    doc.insert_image(&jpeg, 1, fx(0.0), fx(0.0), fx(10.0), fx(10.0)).unwrap();
    assert_eq!(doc.inner().len(), objects + 1);
    doc.insert_image(&jpeg, 2, fx(0.0), fx(0.0), fx(10.0), fx(10.0)).unwrap();
    doc.insert_image(&jpeg, 2, fx(5.0), fx(5.0), fx(10.0), fx(10.0)).unwrap();
    // the second page refers to the same object under the next name
    assert_eq!(doc.inner().len(), objects + 1);
    assert_eq!(doc.embedded_images().len(), 1);
    assert_eq!(doc.page_image_resources().len(), 2);
    assert_eq!(doc.page_image_resources()[0].number, 1);
    assert_eq!(doc.page_image_resources()[1].number, 2);
    for (page, name) in [(1usize, &b"Im1"[..]), (2, &b"Im2"[..])] {
        let dict = page_dict(&doc, page);
        let images = dict.get(b"Resources").unwrap().as_dict().unwrap().get(b"XObject").unwrap().as_dict().unwrap();
        assert_eq!(images.len(), 1);
        assert_eq!(images.get(name).unwrap().as_reference(), Some(doc.embedded_images()[0].object));
    }
}
