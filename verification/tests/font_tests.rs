use pdf_core::font::FontData;
use pdf_core::font::FontFamily;
use pdf_core::font::FontFamilyBuilder;
use pdf_core::font::FontStyle;
use pdf_core::font::FontWeight;
use pdf_core::glyphs::find_spare_id;
use pdf_core::glyphs::has_cff_tag;
use pdf_core::names::directory_is_fine;
use pdf_core::names::name_table_fits;
use pdf_core::names::name_tables_are_fine;
use pdf_core::units::Fixed;
use pdf_core::PdfError;

fn fx(v: f64) -> Fixed {
    Fixed::from_micros((v * 1_000_000.0).round() as i64)
}

fn be16(v: u16) -> [u8; 2] {
    v.to_be_bytes()
}

/// A small TrueType font: glyph 0 and one glyph for each character given,
/// numbered from `first_gid` on, each with its advance width.
fn build_font(chars: &[(char, u16)], first_gid: u16, units_per_em: u16) -> Vec<u8> {
    let num_glyphs = first_gid + chars.len() as u16;
    let mut advances = vec![0u16; num_glyphs as usize];
    for (i, (_, adv)) in chars.iter().enumerate() {
        advances[first_gid as usize + i] = *adv;
    }

    let mut head = Vec::new();
    head.extend_from_slice(&[0, 1, 0, 0]);
    head.extend_from_slice(&[0, 1, 0, 0]);
    head.extend_from_slice(&[0, 0, 0, 0]);
    head.extend_from_slice(&[0x5F, 0x0F, 0x3C, 0xF5]);
    head.extend_from_slice(&be16(0));
    head.extend_from_slice(&be16(units_per_em));
    head.extend_from_slice(&[0u8; 16]);
    head.extend_from_slice(&[0u8; 8]);
    head.extend_from_slice(&be16(0));
    head.extend_from_slice(&be16(8));
    head.extend_from_slice(&be16(2));
    head.extend_from_slice(&be16(0));
    head.extend_from_slice(&be16(0));
    assert_eq!(head.len(), 54);

    let mut hhea = Vec::new();
    hhea.extend_from_slice(&[0, 1, 0, 0]);
    hhea.extend_from_slice(&750i16.to_be_bytes());
    hhea.extend_from_slice(&(-250i16).to_be_bytes());
    hhea.extend_from_slice(&be16(0));
    hhea.extend_from_slice(&be16(1000));
    hhea.extend_from_slice(&[0u8; 22]);
    hhea.extend_from_slice(&be16(num_glyphs));
    assert_eq!(hhea.len(), 36);

    let mut maxp = Vec::new();
    maxp.extend_from_slice(&[0, 1, 0, 0]);
    maxp.extend_from_slice(&be16(num_glyphs));
    maxp.extend_from_slice(&[0u8; 26]);
    assert_eq!(maxp.len(), 32);

    let mut hmtx = Vec::new();
    for adv in &advances {
        hmtx.extend_from_slice(&be16(*adv));
        hmtx.extend_from_slice(&be16(0));
    }

    let mut glyf = Vec::new();
    let mut loca = Vec::new();
    for _ in 0..num_glyphs {
        loca.extend_from_slice(&be16((glyf.len() / 2) as u16));
        glyf.extend_from_slice(&[0u8; 12]);
    }
    loca.extend_from_slice(&be16((glyf.len() / 2) as u16));

    let mut sorted: Vec<(u16, u16)> = chars
        .iter()
        .enumerate()
        .map(|(i, (c, _))| (*c as u32 as u16, first_gid + i as u16))
        .collect();
    sorted.sort();
    let seg_count = sorted.len() as u16 + 1;
    let mut sub = Vec::new();
    sub.extend_from_slice(&be16(4));
    sub.extend_from_slice(&be16(16 + 8 * seg_count));
    sub.extend_from_slice(&be16(0));
    sub.extend_from_slice(&be16(seg_count * 2));
    sub.extend_from_slice(&be16(0));
    sub.extend_from_slice(&be16(0));
    sub.extend_from_slice(&be16(0));
    for (code, _) in &sorted {
        sub.extend_from_slice(&be16(*code));
    }
    sub.extend_from_slice(&be16(0xFFFF));
    sub.extend_from_slice(&be16(0));
    for (code, _) in &sorted {
        sub.extend_from_slice(&be16(*code));
    }
    sub.extend_from_slice(&be16(0xFFFF));
    for (code, gid) in &sorted {
        sub.extend_from_slice(&be16(gid.wrapping_sub(*code)));
    }
    sub.extend_from_slice(&be16(1));
    for _ in 0..seg_count {
        sub.extend_from_slice(&be16(0));
    }
    let mut cmap = Vec::new();
    cmap.extend_from_slice(&be16(0));
    cmap.extend_from_slice(&be16(1));
    cmap.extend_from_slice(&be16(3));
    cmap.extend_from_slice(&be16(1));
    cmap.extend_from_slice(&12u32.to_be_bytes());
    cmap.extend_from_slice(&sub);

    let mut tables: Vec<(&[u8; 4], Vec<u8>)> = vec![
        (b"cmap", cmap),
        (b"glyf", glyf),
        (b"head", head),
        (b"hhea", hhea),
        (b"hmtx", hmtx),
        (b"loca", loca),
        (b"maxp", maxp),
    ];
    tables.sort_by(|a, b| a.0.cmp(b.0));
    let mut out = Vec::new();
    out.extend_from_slice(&[0, 1, 0, 0]);
    out.extend_from_slice(&be16(tables.len() as u16));
    out.extend_from_slice(&be16(64));
    out.extend_from_slice(&be16(2));
    out.extend_from_slice(&be16(tables.len() as u16 * 16 - 64));
    let mut offset = 12 + 16 * tables.len();
    let mut body = Vec::new();
    for (tag, data) in &tables {
        out.extend_from_slice(&tag[..]);
        out.extend_from_slice(&[0u8; 4]);
        out.extend_from_slice(&(offset as u32).to_be_bytes());
        out.extend_from_slice(&(data.len() as u32).to_be_bytes());
        body.extend_from_slice(data);
        while body.len() % 4 != 0 {
            body.push(0);
        }
        offset = 12 + 16 * tables.len() + body.len();
    }
    out.extend_from_slice(&body);
    out
}

#[test]
fn test_font_from_ttf() {
    // A buffer of zeros is no font.
    assert!(matches!(FontData::from_ttf("test", &vec![0u8; 100]), Err(PdfError::FontParseError(_))));
    let font = FontData::from_ttf("test", &build_font(&[('A', 500)], 5, 1000)).unwrap();
    assert_eq!(font.name(), "test");
    assert!(font.used_chars().is_empty());
}

#[test]
fn test_add_chars() {
    let mut font = FontData::without_face("test", &vec![0u8; 100]);
    font.add_chars("Hello");
    assert_eq!(font.used_chars().len(), 4); // H, e, l, o (l appears twice)
    assert!(font.used_chars().contains(&'H'));
    assert!(font.used_chars().contains(&'e'));
    assert!(font.used_chars().contains(&'l'));
    assert!(font.used_chars().contains(&'o'));
}

#[test]
fn test_generate_widths_array() {
    let mut font = FontData::without_face("test", &vec![0u8; 100]);
    font.add_chars("AB");
    let widths = font.generate_widths_array();
    // Without a face no width is known.
    assert!(widths.as_array().unwrap().is_empty());
}

#[test]
fn test_add_chars_thai() {
    let mut font = FontData::without_face("test", &vec![0u8; 100]);
    font.add_chars("สวัสดี");
    assert_eq!(font.used_chars().len(), 5);
    assert!(font.used_chars().contains(&'ส'));
    assert!(font.used_chars().contains(&'ว'));
    assert!(font.used_chars().contains(&'ั'));
    assert!(font.used_chars().contains(&'ด'));
    assert!(font.used_chars().contains(&'ี'));
}

#[test]
fn test_units_per_em() {
    let font = FontData::without_face("test", &vec![0u8; 100]);
    assert_eq!(font.units_per_em(), 1000); // Default value when no face
}

#[test]
fn test_ascender_descender() {
    let font = FontData::without_face("test", &vec![0u8; 100]);
    assert_eq!(font.ascender(), 800); // Default value
    assert_eq!(font.descender(), -200); // Default value
}

#[test]
fn test_text_width() {
    let font = FontData::without_face("test", &vec![0u8; 100]);
    assert_eq!(font.text_width("Hello"), 0); // No face, so no glyph advances
}

#[test]
fn test_text_width_empty() {
    let font = FontData::without_face("test", &vec![0u8; 100]);
    assert_eq!(font.text_width(""), 0);
}

#[test]
fn test_text_width_points() {
    let font = FontData::without_face("test", &vec![0u8; 100]);
    let width_12 = font.text_width_points("Hello", fx(12.0));
    let width_24 = font.text_width_points("Hello", fx(24.0));
    assert_eq!(width_12, fx(0.0));
    assert_eq!(width_24, fx(0.0));
}

#[test]
fn test_encode_text_hex_empty() {
    let font = FontData::without_face("test", &vec![0u8; 100]);
    assert_eq!(font.encode_text_hex(""), "<>");
}

#[test]
fn test_encode_text_hex_no_face() {
    let font = FontData::without_face("test", &vec![0u8; 100]);
    // Without a face, all characters map to GID 0
    assert_eq!(font.encode_text_hex("A"), "<0000>");
    assert_eq!(font.encode_text_hex("AB"), "<00000000>");
}

#[test]
fn test_to_pdf_objects() {
    let mut font = FontData::without_face("test", &vec![0u8; 100]);
    font.add_chars("Hello");
    let objects = font.to_pdf_objects().expect("Failed to generate PDF objects");
    assert!(!objects.type0_font.is_empty());
    assert!(!objects.cid_font.is_empty());
    assert!(!objects.font_descriptor.is_empty());
    assert!(!objects.font_file_stream.content.is_empty());
    assert!(!objects.tounicode_stream.content.is_empty());
}

#[test]
fn test_to_pdf_objects_empty_chars() {
    let font = FontData::without_face("test", &vec![0u8; 100]);
    let objects = font.to_pdf_objects().expect("Failed to generate PDF objects");
    assert!(!objects.type0_font.is_empty());
    assert!(!objects.cid_font.is_empty());
}

#[test]
fn test_generate_tounicode_cmap() {
    let mut font = FontData::without_face("test", &vec![0u8; 100]);
    font.add_chars("AB");
    let cmap = font.generate_tounicode_cmap();
    assert!(cmap.contains("/CIDInit"));
    assert!(cmap.contains("begincmap"));
    assert!(cmap.contains("endcmap"));
    // Without a face, all characters map to GID 0
    assert!(cmap.contains("<0000> <0041>")); // A -> GID 0
    assert!(cmap.contains("<0000> <0042>")); // B -> GID 0
}

#[test]
fn test_generate_tounicode_cmap_empty() {
    let font = FontData::without_face("test", &vec![0u8; 100]);
    let cmap = font.generate_tounicode_cmap();
    assert!(cmap.contains("/CIDInit"));
    assert!(cmap.contains("begincmap"));
    assert!(cmap.contains("endcmap"));
}

#[test]
fn test_generate_tounicode_cmap_thai() {
    let mut font = FontData::without_face("test", &vec![0u8; 100]);
    font.add_chars("สวัสดี");
    let cmap = font.generate_tounicode_cmap();
    assert!(cmap.contains("<0000> <0E2A>")); // ส -> GID 0
    assert!(cmap.contains("<0000> <0E27>")); // ว -> GID 0
}

#[test]
fn test_has_glyph_no_face() {
    let font = FontData::without_face("test", &vec![0u8; 100]);
    assert!(!font.has_glyph('A'));
    assert!(!font.has_glyph('ส'));
}

#[test]
fn face_answers_come_from_the_font_file() {
    let font = FontData::from_ttf("f", &build_font(&[('A', 500), ('B', 620)], 5, 2048)).unwrap();
    assert_eq!(font.glyph_id('A'), Some(5));
    assert_eq!(font.glyph_id('B'), Some(6));
    assert_eq!(font.glyph_id('C'), None);
    assert!(font.has_glyph('A'));
    assert!(!font.has_glyph('C'));
    assert_eq!(font.glyph_advance('A'), Some(500));
    assert_eq!(font.glyph_advance('B'), Some(620));
    assert_eq!(font.units_per_em(), 2048);
    assert_eq!(font.ascender(), 750);
    assert_eq!(font.descender(), -250);
    assert_eq!(font.text_width("ABxA"), 1620);
    // 1620 units at 2048 per em, set at 10 points
    assert_eq!(font.text_width_points("ABxA", fx(10.0)), Fixed::from_micros(7_910_156));
    assert_eq!(font.encode_text_hex("AB?"), "<000500060000>");
}

#[test]
fn subset_renumbers_glyphs_in_order_of_code_points() {
    let mut font = FontData::from_ttf("f", &build_font(&[('A', 500), ('B', 620), ('C', 700)], 5, 1000)).unwrap();
    font.add_chars("CA?");
    assert_eq!(font.used_chars(), &vec!['?', 'A', 'C']);
    // Before the subset is made, glyph ids are those of the full font.
    assert_eq!(font.encode_text_hex_remapped("CA?"), "<000700050000>");
    let full_len = font.ttf_data().len();
    font.create_subset().unwrap();
    // '?' has no glyph and stays 0; 'A' comes first, then 'C'.
    assert_eq!(font.encode_text_hex_remapped("CA?"), "<000200010000>");
    assert_eq!(font.encode_text_hex("CA?"), "<000700050000>");
    // The array lists the subset's glyph ids with the advances of the full font.
    assert_eq!(font.glyph_widths(), vec![(0, 0), (1, 500), (2, 700)]);
    let objects = font.to_pdf_objects().unwrap();
    let file = objects.font_file_stream.content;
    assert_ne!(file.len(), full_len);
    // The embedded file is a font of three glyphs with the advances kept.
    let sub = FontData::from_ttf("sub", &file).unwrap();
    assert_eq!(sub.units_per_em(), 1000);
    let cmap = font.generate_tounicode_cmap();
    assert!(cmap.contains("3 beginbfchar\n<0000> <003F>\n<0001> <0041>\n<0002> <0043>\nendbfchar\n"));
}

#[test]
fn subset_is_skipped_without_used_characters() {
    let mut font = FontData::from_ttf("f", &build_font(&[('A', 500)], 5, 1000)).unwrap();
    font.create_subset().unwrap();
    assert_eq!(font.encode_text_hex_remapped("A"), "<0005>");
    let objects = font.to_pdf_objects().unwrap();
    assert_eq!(&objects.font_file_stream.content, font.ttf_data());
}

#[test]
fn widths_are_ascending_without_subset() {
    let mut font = FontData::from_ttf("f", &build_font(&[('b', 300), ('a', 400), ('c', 500)], 3, 1000)).unwrap();
    font.add_chars("cab?");
    // glyph ids 3 (b), 4 (a), 5 (c); '?' has none
    assert_eq!(font.glyph_widths(), vec![(3, 300), (4, 400), (5, 500)]);
}

#[test]
fn character_map_is_cut_into_blocks_of_a_hundred() {
    let mut font = FontData::without_face("test", &vec![0u8; 100]);
    let text: String = (0x4E00u32..0x4E00 + 250).map(|c| char::from_u32(c).unwrap()).collect();
    font.add_chars(&text);
    let cmap = font.generate_tounicode_cmap();
    assert_eq!(cmap.matches("beginbfchar").count(), 3);
    assert!(cmap.contains("100 beginbfchar\n<0000> <4E00>\n"));
    assert!(cmap.contains("50 beginbfchar\n<0000> <4EC8>\n"));
    assert_eq!(cmap.matches("> <").count(), 251);
    assert!(cmap.starts_with("/CIDInit /ProcSet findresource begin\n12 dict begin\nbegincmap\n"));
    assert!(cmap.ends_with("endcmap\nCMapName currentdict /CMap defineresource pop\nend\nend\n"));
}

#[test]
fn family_picks_variants_in_the_documented_order() {
    let regular = build_font(&[('A', 500)], 1, 1000);
    let bold = build_font(&[('A', 600)], 1, 1000);
    let family = FontFamilyBuilder::new().regular(regular.clone()).bold(bold).build("f").unwrap();
    assert_eq!(family.get_variant(FontWeight::Regular, FontStyle::Normal).unwrap().name(), "f");
    assert_eq!(family.get_variant(FontWeight::Bold, FontStyle::Normal).unwrap().name(), "f-bold");
    assert_eq!(family.get_variant(FontWeight::Bold, FontStyle::Italic).unwrap().name(), "f-bold");
    assert_eq!(family.get_variant(FontWeight::Regular, FontStyle::Italic).unwrap().name(), "f");
    assert!(family.has_variant(FontWeight::Bold, FontStyle::Italic));
    assert_eq!(family.get_variant_name("f", FontWeight::Bold, FontStyle::Italic), "f-bold-italic");
    assert_eq!(family.get_variant_name("f", FontWeight::Regular, FontStyle::Italic), "f-italic");
    assert_eq!(family.get_variant_name("f", FontWeight::Regular, FontStyle::Normal), "f");
    let empty = FontFamily { regular: None, bold: None, italic: None, bold_italic: None };
    assert!(!empty.has_variant(FontWeight::Regular, FontStyle::Normal));
}

#[test]
fn a_variant_is_changed_in_its_place() {
    let regular = build_font(&[('A', 500)], 1, 1000);
    let bold = build_font(&[('A', 600)], 1, 1000);
    let mut family = FontFamilyBuilder::new().regular(regular).bold(bold).build("f").unwrap();
    family.get_variant_mut(FontWeight::Bold, FontStyle::Italic).unwrap().add_chars("A");
    family.get_variant_mut(FontWeight::Regular, FontStyle::Italic).unwrap().add_chars("AB");
    assert_eq!(family.bold.as_ref().unwrap().used_chars(), &vec!['A']);
    assert_eq!(family.regular.as_ref().unwrap().used_chars(), &vec!['A', 'B']);
    let mut empty = FontFamily { regular: None, bold: None, italic: None, bold_italic: None };
    assert!(empty.get_variant_mut(FontWeight::Bold, FontStyle::Normal).is_none());
}

#[test]
fn builder_needs_a_regular_variant_and_fonts_that_parse() {
    let font = build_font(&[('A', 500)], 1, 1000);
    assert!(matches!(FontFamilyBuilder::new().bold(font.clone()).build("f"), Err(PdfError::FontParseError(_))));
    assert!(matches!(FontFamilyBuilder::default().build("f"), Err(PdfError::FontParseError(_))));
    assert!(matches!(
        FontFamilyBuilder::new().regular(font.clone()).italic(vec![1, 2, 3]).build("f"),
        Err(PdfError::FontParseError(_))
    ));
    let family = FontFamilyBuilder::new()
        .regular(font.clone())
        .italic(font.clone())
        .bold_italic(font)
        .build("f")
        .unwrap();
    assert!(family.bold.is_none());
    assert_eq!(family.italic.unwrap().name(), "f-italic");
    assert_eq!(family.bold_italic.unwrap().name(), "f-bold-italic");
}

#[test]
fn a_spare_glyph_id_is_one_that_the_file_does_not_write() {
    assert_eq!(find_spare_id(&[], &[]), Some(0));
    assert_eq!(find_spare_id(&[], &[0]), Some(1));
    assert_eq!(find_spare_id(&[7], &[0, 1, 2]), Some(3));
    // the pairs of bytes write 1, 256 and 2
    assert_eq!(find_spare_id(&[0, 1, 0, 2], &[0]), Some(3));
    assert_eq!(find_spare_id(&[0, 1, 0, 2], &[0, 3, 4]), Some(5));
    assert_eq!(find_spare_id(&[0, 0, 0, 1], &[]), Some(2));
    let mut all: Vec<u8> = Vec::new();
    for id in 0..=u16::MAX {
        all.push((id >> 8) as u8);
        all.push((id & 0xFF) as u8);
    }
    assert_eq!(find_spare_id(&all, &[]), None);
    // pairs of bytes count wherever they stand: FF FF lies across FE FF and FF 00
    all.truncate(all.len() - 2);
    assert_eq!(find_spare_id(&all, &[0]), None);
    // a file of zeros and ones writes four ids; the kept ones fill the gap up to 0x0100
    let kept: Vec<u16> = (2..=0x00FF).collect();
    assert_eq!(find_spare_id(&[0, 0, 1, 1, 0], &kept), Some(0x0102));
}

#[test]
fn the_tag_of_cff_outlines_is_found_anywhere() {
    assert!(has_cff_tag(b"CFF "));
    assert!(has_cff_tag(b"..CFF .."));
    assert!(!has_cff_tag(b"CFF2"));
    assert!(!has_cff_tag(b"CFF"));
    assert!(!has_cff_tag(b"CF F "));
    assert!(!has_cff_tag(b""));
}

#[test]
fn fonts_that_name_cff_outlines_are_not_subsetted() {
    let mut data = build_font(&[('A', 500), ('B', 600)], 4, 1000);
    data.extend_from_slice(b"CFF ");
    let mut font = FontData::from_ttf("f", &data).unwrap();
    font.add_chars("B");
    // the font is left whole: no subset, and the glyph ids of the full font
    font.create_subset().unwrap();
    assert_eq!(font.encode_text_hex_remapped("B"), "<0005>");
    assert_eq!(font.glyph_widths(), vec![(5, 600)]);
    let objects = font.to_pdf_objects().unwrap();
    assert_eq!(objects.font_file_stream.content, data);
    assert!(font.generate_tounicode_cmap().contains("1 beginbfchar\n<0005> <0042>\nendbfchar\n"));
}

#[test]
fn a_subset_that_cannot_be_made_again_goes() {
    let data = build_font(&[('A', 500), ('B', 600)], 4, 1000);
    let mut font = FontData::from_ttf("f", &data).unwrap();
    font.add_chars("A");
    font.create_subset().unwrap();
    assert_eq!(font.encode_text_hex_remapped("A"), "<0001>");
    // without more characters the subset is made anew and is the same
    font.create_subset().unwrap();
    assert_eq!(font.encode_text_hex_remapped("A"), "<0001>");
    // a font without used characters keeps what it has
    let mut idle = FontData::from_ttf("g", &data).unwrap();
    idle.create_subset().unwrap();
    assert_eq!(idle.to_pdf_objects().unwrap().font_file_stream.content, data);
}

fn name_table(records: &[(u16, u16)]) -> Vec<u8> {
    let mut t = Vec::new();
    t.extend(0u16.to_be_bytes());
    t.extend((records.len() as u16).to_be_bytes());
    t.extend((6 + 12 * records.len() as u16).to_be_bytes());
    for (length, offset) in records {
        t.extend([0, 3, 0, 1, 4, 9, 0, 1]);
        t.extend(length.to_be_bytes());
        t.extend(offset.to_be_bytes());
    }
    t
}

fn file_with_table(tag: &[u8; 4], table: &[u8]) -> Vec<u8> {
    let mut file = vec![0, 1, 0, 0, 0, 1, 0, 0, 0, 0, 0, 0];
    file.extend(tag);
    file.extend([0, 0, 0, 0]);
    file.extend(28u32.to_be_bytes());
    file.extend((table.len() as u32).to_be_bytes());
    file.extend(table);
    file
}

#[test]
fn name_records_stay_within_sixteen_bits() {
    assert!(name_table_fits(&[]));
    assert!(name_table_fits(&name_table(&[])));
    assert!(name_table_fits(&name_table(&[(10, 0), (20, 10)])));
    assert!(name_table_fits(&name_table(&[(0xFFFF, 0)])));
    assert!(name_table_fits(&name_table(&[(1, 0xFFFE)])));
    // offset and length together beyond 65535
    assert!(!name_table_fits(&name_table(&[(2, 0xFFFE)])));
    assert!(!name_table_fits(&name_table(&[(10, 0), (0x8000, 0x8000)])));
    // the lengths together beyond 65535
    assert!(!name_table_fits(&name_table(&[(0x8000, 0), (0x8000, 0)])));
    assert!(name_table_fits(&name_table(&[(0x8000, 0), (0x7FFF, 0)])));
    // more records than twelve bytes each can be counted for
    assert!(name_table_fits(&name_table(&vec![(0, 0); 5460])));
    assert!(!name_table_fits(&name_table(&vec![(0, 0); 5461])));
    // a table of another version, or cut short, is not rewritten
    let mut other = name_table(&[(2, 0xFFFE)]);
    other[1] = 1;
    assert!(name_table_fits(&other));
    let long = name_table(&[(2, 0xFFFE)]);
    assert!(name_table_fits(&long[..long.len() - 1]));
}

#[test]
fn name_tables_are_found_through_the_directory() {
    let bad = name_table(&[(2, 0xFFFE)]);
    let good = name_table(&[(2, 4)]);
    assert!(name_tables_are_fine(&[]));
    assert!(name_tables_are_fine(&file_with_table(b"name", &good)));
    assert!(!name_tables_are_fine(&file_with_table(b"name", &bad)));
    assert!(name_tables_are_fine(&file_with_table(b"post", &bad)));
    // a table that does not lie within the file is not read
    let mut cut = file_with_table(b"name", &bad);
    cut.pop();
    assert!(name_tables_are_fine(&cut));
    // the directory of the first font of a collection
    let mut collection = b"ttcf".to_vec();
    collection.extend([0, 1, 0, 0, 0, 0, 0, 1]);
    collection.extend(16u32.to_be_bytes());
    let mut font = file_with_table(b"name", &bad);
    font[20..24].copy_from_slice(&(16u32 + 28).to_be_bytes());
    collection.extend(font);
    assert!(!name_tables_are_fine(&collection));
    assert!(directory_is_fine(&collection, 0));
    assert!(!directory_is_fine(&collection, 16));
}

#[test]
fn a_font_with_name_records_out_of_range_is_left_whole() {
    // the font of the other tests with a table `name` added to its directory
    let plain = build_font(&[('A', 500)], 1, 1000);
    let tables = u16::from_be_bytes([plain[4], plain[5]]) as usize;
    let mut data = plain[..12].to_vec();
    data[5] += 1;
    for i in 0..tables {
        let mut record = plain[12 + 16 * i..28 + 16 * i].to_vec();
        let offset = u32::from_be_bytes([record[8], record[9], record[10], record[11]]) + 16;
        record[8..12].copy_from_slice(&offset.to_be_bytes());
        data.extend(record);
    }
    let bad = name_table(&[(2, 0xFFFE)]);
    data.extend(b"name");
    data.extend([0, 0, 0, 0]);
    data.extend((plain.len() as u32 + 16).to_be_bytes());
    data.extend((bad.len() as u32).to_be_bytes());
    data.extend(&plain[12 + 16 * tables..]);
    data.extend(&bad);
    assert!(!name_tables_are_fine(&data));
    let mut font = FontData::from_ttf("f", &data).unwrap();
    font.add_chars("A");
    font.create_subset().unwrap();
    assert_eq!(font.encode_text_hex_remapped("A"), "<0001>");
    assert_eq!(font.to_pdf_objects().unwrap().font_file_stream.content, data);
}
