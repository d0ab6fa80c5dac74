use pdf_core::codec::decode_image;
use pdf_core::codec::layout_for;
use pdf_core::codec::PixelLayout;
use pdf_core::codec::SampleKind;
use pdf_core::image::calculate_scaled_dimensions;
use pdf_core::image::detect_format;
use pdf_core::image::generate_image_operators;
use pdf_core::image::get_dimensions;
use pdf_core::image::get_jpeg_info;
use pdf_core::image::get_png_dimensions;
use pdf_core::image::ImageDimensions;
use pdf_core::image::ImageFormat;
use pdf_core::image::ImageScaleMode;
use pdf_core::image::ImageXObject;
use pdf_core::units::Fixed;
use pdf_core::PdfError;

fn fx(v: f64) -> Fixed {
    Fixed::from_micros((v * 1_000_000.0).round() as i64)
}

#[test]
fn test_detect_jpeg() {
    let jpeg_header = vec![0xFF, 0xD8, 0xFF, 0xE0, 0x00, 0x10, 0x4A, 0x46];
    assert_eq!(detect_format(&jpeg_header).unwrap(), ImageFormat::Jpeg);
}

#[test]
fn test_detect_png() {
    let png_header = vec![0x89, 0x50, 0x4E, 0x47, 0x0D, 0x0A, 0x1A, 0x0A];
    assert_eq!(detect_format(&png_header).unwrap(), ImageFormat::Png);
}

#[test]
fn test_detect_unknown() {
    let unknown = vec![0x00, 0x00, 0x00, 0x00, 0x00, 0x00, 0x00, 0x00];
    assert!(detect_format(&unknown).is_err());
}

#[test]
fn test_png_dimensions() {
    // Minimal valid PNG header with 100x50 dimensions
    let mut png = vec![0x89, 0x50, 0x4E, 0x47, 0x0D, 0x0A, 0x1A, 0x0A];
    png.extend_from_slice(&[0x00, 0x00, 0x00, 0x0D]); // IHDR length
    png.extend_from_slice(b"IHDR");
    png.extend_from_slice(&100u32.to_be_bytes()); // width
    png.extend_from_slice(&50u32.to_be_bytes()); // height

    let dims = get_png_dimensions(&png).unwrap();
    assert_eq!(dims.width, 100);
    assert_eq!(dims.height, 50);
}

#[test]
fn test_generate_image_operators() {
    let ops = generate_image_operators("Im1", fx(100.0), fx(200.0), fx(50.0), fx(75.0));
    let ops_str = String::from_utf8(ops).unwrap();

    assert!(ops_str.contains("q"));
    assert!(ops_str.contains("50 0 0 75 100 200 cm"));
    assert!(ops_str.contains("/Im1 Do"));
    assert!(ops_str.contains("Q"));
    assert_eq!(ops_str, "q\n50 0 0 75 100 200 cm\n/Im1 Do\nQ\n");
}

#[test]
fn test_image_xobject_to_pdf_stream() {
    let xobject = ImageXObject {
        width: 100,
        height: 50,
        color_space: "DeviceRGB".to_string(),
        bits_per_component: 8,
        filter: "DCTDecode".to_string(),
        data: vec![1, 2, 3, 4, 5],
    };

    let stream = xobject.to_pdf_stream();
    let dict = stream.dict;

    assert_eq!(dict.get(b"Type").unwrap().as_name().unwrap(), b"XObject");
    assert_eq!(dict.get(b"Subtype").unwrap().as_name().unwrap(), b"Image");
    assert_eq!(dict.get(b"Width").unwrap().as_i64().unwrap(), 100);
    assert_eq!(dict.get(b"Height").unwrap().as_i64().unwrap(), 50);
    // ColorSpace is stored as a name without the leading slash
    assert_eq!(dict.get(b"ColorSpace").unwrap().as_name().unwrap(), b"DeviceRGB");
    assert_eq!(dict.get(b"BitsPerComponent").unwrap().as_i64().unwrap(), 8);
    assert_eq!(dict.get(b"Filter").unwrap().as_name().unwrap(), b"DCTDecode");
    assert_eq!(dict.get(b"Length").unwrap().as_i64().unwrap(), 5);
    assert_eq!(stream.content, vec![1, 2, 3, 4, 5]);
}

#[test]
fn test_detect_format_too_short() {
    let data = vec![0x00, 0x00, 0x00];
    assert!(detect_format(&data).is_err());
}

#[test]
fn test_detect_format_jpeg_variants() {
    // JPEG SOI marker is FF D8 FF
    // Third byte can vary (E0, E1, E2, etc.)
    let jpeg1 = vec![0xFF, 0xD8, 0xFF, 0xE0, 0x00, 0x10, 0x4A, 0x46];
    let jpeg2 = vec![0xFF, 0xD8, 0xFF, 0xE1, 0x00, 0x10, 0x4A, 0x46];
    let jpeg3 = vec![0xFF, 0xD8, 0xFF, 0xFE, 0x00, 0x10, 0x4A, 0x46];

    assert_eq!(detect_format(&jpeg1).unwrap(), ImageFormat::Jpeg);
    assert_eq!(detect_format(&jpeg2).unwrap(), ImageFormat::Jpeg);
    assert_eq!(detect_format(&jpeg3).unwrap(), ImageFormat::Jpeg);
}

#[test]
fn test_detect_format_not_jpeg() {
    // Starts with FF but not JPEG
    let data = vec![0xFF, 0x00, 0xFF, 0x00, 0x00, 0x00, 0x00, 0x00];
    assert!(detect_format(&data).is_err());
}

#[test]
fn test_detect_format_not_png() {
    // Starts with 0x89 but not PNG
    let data = vec![0x89, 0x00, 0x00, 0x00, 0x00, 0x00, 0x00, 0x00];
    assert!(detect_format(&data).is_err());
}

#[test]
fn test_get_jpeg_info_invalid() {
    // Invalid JPEG data
    let data = vec![0xFF, 0xD8, 0xFF, 0x00, 0x00, 0x00, 0x00, 0x00];
    assert!(get_jpeg_info(&data).is_err());
}

#[test]
fn test_get_jpeg_info_too_short() {
    let data = vec![0xFF, 0xD8, 0xFF];
    assert!(get_jpeg_info(&data).is_err());
}

#[test]
fn test_get_png_dimensions_too_short() {
    let data = vec![0x89, 0x50, 0x4E, 0x47, 0x0D, 0x0A, 0x1A, 0x0A];
    assert!(get_png_dimensions(&data).is_err());
}

#[test]
fn test_get_png_dimensions_no_ihdr() {
    let mut data = vec![0x89, 0x50, 0x4E, 0x47, 0x0D, 0x0A, 0x1A, 0x0A];
    data.extend_from_slice(&[0x00, 0x00, 0x00, 0x0D]); // IHDR length
    data.extend_from_slice(b"NOTI"); // Not IHDR
    assert!(get_png_dimensions(&data).is_err());
}

fn small_jpeg() -> Vec<u8> {
    vec![
        0xFF, 0xD8, // SOI
        0xFF, 0xC0, // SOF0
        0x00, 0x11, // Length
        0x08, // Precision
        0x00, 0x64, // Height (100)
        0x00, 0xC8, // Width (200)
        0x03, // Components
        0x01, 0x22, 0x00, 0x02, 0x11, 0x01, 0x03, 0x11, 0x01, 0xFF, 0xD9, // EOI
    ]
}

#[test]
fn test_get_dimensions_jpeg() {
    // Create minimal JPEG with known dimensions
    let jpeg = small_jpeg();

    let dims = get_dimensions(&jpeg).unwrap();
    assert_eq!(dims.width, 200);
    assert_eq!(dims.height, 100);
}

#[test]
fn test_get_dimensions_png() {
    let mut png = vec![0x89, 0x50, 0x4E, 0x47, 0x0D, 0x0A, 0x1A, 0x0A];
    png.extend_from_slice(&0x0000000Du32.to_be_bytes());
    png.extend_from_slice(b"IHDR");
    png.extend_from_slice(&150u32.to_be_bytes()); // Width
    png.extend_from_slice(&75u32.to_be_bytes()); // Height
    png.extend_from_slice(&[8, 2, 0, 0, 0]);
    png.extend_from_slice(&0x00000000u32.to_be_bytes()); // CRC placeholder

    let dims = get_dimensions(&png).unwrap();
    assert_eq!(dims.width, 150);
    assert_eq!(dims.height, 75);
}

#[test]
fn test_image_xobject_clone() {
    let xobject = ImageXObject {
        width: 100,
        height: 50,
        color_space: "DeviceRGB".to_string(),
        bits_per_component: 8,
        filter: "DCTDecode".to_string(),
        data: vec![1, 2, 3, 4, 5],
    };

    let cloned = xobject.clone();
    assert_eq!(cloned.width, xobject.width);
    assert_eq!(cloned.height, xobject.height);
    assert_eq!(cloned.color_space, xobject.color_space);
    assert_eq!(cloned.bits_per_component, xobject.bits_per_component);
    assert_eq!(cloned.filter, xobject.filter);
    assert_eq!(cloned.data, xobject.data);
}

#[test]
fn test_image_xobject_debug() {
    let xobject = ImageXObject {
        width: 100,
        height: 50,
        color_space: "DeviceRGB".to_string(),
        bits_per_component: 8,
        filter: "DCTDecode".to_string(),
        data: vec![1, 2, 3],
    };

    let debug_str = format!("{xobject:?}");
    assert!(debug_str.contains("ImageXObject"));
    assert!(debug_str.contains("100"));
    assert!(debug_str.contains("50"));
}

#[test]
fn test_generate_image_operators_zero_size() {
    let ops = generate_image_operators("Im1", fx(0.0), fx(0.0), fx(0.0), fx(0.0));
    let ops_str = String::from_utf8(ops).unwrap();

    assert!(ops_str.contains("q"));
    assert!(ops_str.contains("0 0 0 0 0 0 cm"));
    assert!(ops_str.contains("/Im1 Do"));
    assert!(ops_str.contains("Q"));
}

#[test]
fn test_generate_image_operators_negative_position() {
    let ops = generate_image_operators("Im1", fx(-50.0), fx(-100.0), fx(100.0), fx(200.0));
    let ops_str = String::from_utf8(ops).unwrap();

    assert!(ops_str.contains("-50 -100"));
    assert!(ops_str.contains("100 0 0 200"));
}

#[test]
fn test_generate_image_operators_large_size() {
    let ops = generate_image_operators("Im1", fx(0.0), fx(0.0), fx(1000.0), fx(2000.0));
    let ops_str = String::from_utf8(ops).unwrap();

    assert!(ops_str.contains("1000 0 0 2000"));
}

#[test]
fn test_image_format_equality() {
    assert_eq!(ImageFormat::Jpeg, ImageFormat::Jpeg);
    assert_eq!(ImageFormat::Png, ImageFormat::Png);
    assert_ne!(ImageFormat::Jpeg, ImageFormat::Png);
}

#[test]
fn test_image_dimensions() {
    let dims = ImageDimensions { width: 1920, height: 1080 };

    assert_eq!(dims.width, 1920);
    assert_eq!(dims.height, 1080);
}

#[test]
fn test_image_xobject_with_gray_colorspace() {
    let xobject = ImageXObject {
        width: 100,
        height: 50,
        color_space: "DeviceGray".to_string(),
        bits_per_component: 8,
        filter: "FlateDecode".to_string(),
        data: vec![1, 2, 3],
    };

    let stream = xobject.to_pdf_stream();
    let dict = stream.dict;

    assert_eq!(dict.get(b"ColorSpace").unwrap().as_name().unwrap(), b"DeviceGray");
    assert_eq!(dict.get(b"Filter").unwrap().as_name().unwrap(), b"FlateDecode");
}

#[test]
fn test_image_xobject_empty_data() {
    let xobject = ImageXObject {
        width: 0,
        height: 0,
        color_space: "DeviceRGB".to_string(),
        bits_per_component: 8,
        filter: "DCTDecode".to_string(),
        data: vec![],
    };

    let stream = xobject.to_pdf_stream();
    assert_eq!(stream.content.len(), 0);
}

#[test]
fn test_image_scale_mode_default() {
    assert_eq!(ImageScaleMode::default(), ImageScaleMode::Stretch);
}

#[test]
fn test_image_scale_mode_equality() {
    assert_eq!(ImageScaleMode::Stretch, ImageScaleMode::Stretch);
    assert_eq!(ImageScaleMode::FitWidth, ImageScaleMode::FitWidth);
    assert_eq!(ImageScaleMode::FitHeight, ImageScaleMode::FitHeight);
    assert_eq!(ImageScaleMode::FitBox, ImageScaleMode::FitBox);
    assert_ne!(ImageScaleMode::Stretch, ImageScaleMode::FitBox);
}

#[test]
fn test_calculate_scaled_dimensions_stretch() {
    // Stretch mode should return exact target dimensions
    let (w, h) = calculate_scaled_dimensions(800, 600, fx(100.0), fx(200.0), ImageScaleMode::Stretch);
    assert_eq!(w, fx(100.0));
    assert_eq!(h, fx(200.0));
}

#[test]
fn test_calculate_scaled_dimensions_fit_width() {
    // 800x600 image (4:3 aspect) scaled to width 100 should have height 75
    let (w, h) = calculate_scaled_dimensions(800, 600, fx(100.0), fx(200.0), ImageScaleMode::FitWidth);
    assert_eq!(w, fx(100.0));
    assert_eq!(h, fx(75.0));
}

#[test]
fn test_calculate_scaled_dimensions_fit_height() {
    // 800x600 image (4:3 aspect) scaled to height 150 should have width 200
    let (w, h) = calculate_scaled_dimensions(800, 600, fx(100.0), fx(150.0), ImageScaleMode::FitHeight);
    assert_eq!(w, fx(200.0));
    assert_eq!(h, fx(150.0));
}

#[test]
fn test_calculate_scaled_dimensions_fit_box_width_limited() {
    // 800x600 image in 100x200 box - width is the limiting factor
    let (w, h) = calculate_scaled_dimensions(800, 600, fx(100.0), fx(200.0), ImageScaleMode::FitBox);
    assert_eq!(w, fx(100.0));
    assert_eq!(h, fx(75.0));
}

#[test]
fn test_calculate_scaled_dimensions_fit_box_height_limited() {
    // 600x800 image in 200x100 box - height is the limiting factor
    let (w, h) = calculate_scaled_dimensions(600, 800, fx(200.0), fx(100.0), ImageScaleMode::FitBox);
    assert_eq!(w, fx(75.0));
    assert_eq!(h, fx(100.0));
}

#[test]
fn test_calculate_scaled_dimensions_fit_box_square() {
    // 400x400 image in 100x100 box - both ratios equal
    let (w, h) = calculate_scaled_dimensions(400, 400, fx(100.0), fx(100.0), ImageScaleMode::FitBox);
    assert_eq!(w, fx(100.0));
    assert_eq!(h, fx(100.0));
}

#[test]
fn scaled_dimensions_of_an_image_without_width_are_zero() {
    let (w, h) = calculate_scaled_dimensions(0, 600, fx(100.0), fx(200.0), ImageScaleMode::FitWidth);
    assert_eq!((w, h), (fx(100.0), fx(0.0)));
}

#[test]
fn detect_format_goes_by_the_first_bytes_alone() {
    assert_eq!(detect_format(&[0xFF, 0xD8, 0xFF]).unwrap(), ImageFormat::Jpeg);
    assert!(matches!(detect_format(&[0xFF, 0xD8]), Err(PdfError::ImageError(_))));
    assert!(matches!(detect_format(&[]), Err(PdfError::ImageError(_))));
}

#[test]
fn jpeg_walk_skips_segments_and_reads_the_frame_header() {
    let mut jpeg = vec![0xFF, 0xD8];
    jpeg.extend_from_slice(&[0xFF, 0xE0, 0x00, 0x04, 0xAA, 0xBB]); // a segment of length 4
    jpeg.extend_from_slice(&[0xFF, 0xC4, 0x00, 0x02]); // C4 is no frame header
    jpeg.extend_from_slice(&[0xFF, 0xC2, 0x00, 0x0B, 0x08, 0x01, 0x02, 0x03, 0x04, 0x01]);
    jpeg.extend_from_slice(&[0, 0, 0, 0, 0, 0]);
    let info = get_jpeg_info(&jpeg).unwrap();
    assert_eq!((info.width, info.height, info.num_components), (0x0304, 0x0102, 1));
    let x = ImageXObject::from_jpeg(&jpeg).unwrap();
    assert_eq!(x.color_space, "DeviceGray");
    assert_eq!(x.filter, "DCTDecode");
    assert_eq!(x.bits_per_component, 8);
    assert_eq!(x.data, jpeg);
    // A segment shorter than its own length field ends the walk.
    let bad = vec![0xFF, 0xD8, 0xFF, 0xE0, 0x00, 0x01, 0, 0, 0, 0, 0, 0, 0, 0, 0, 0];
    assert!(matches!(get_jpeg_info(&bad), Err(PdfError::ImageError(_))));
}

fn png_bytes(color: image::ColorType, width: u32, height: u32, samples: &[u8]) -> Vec<u8> {
    let mut out = Vec::new();
    image::write_buffer_with_format(
        &mut std::io::Cursor::new(&mut out),
        samples,
        width,
        height,
        color,
        image::ImageFormat::Png,
    )
    .unwrap();
    out
}

fn inflate(data: &[u8]) -> Vec<u8> {
    let mut out = Vec::new();
    std::io::Read::read_to_end(&mut flate2::read::ZlibDecoder::new(data), &mut out).unwrap();
    out
}

#[test]
fn png_with_alpha_is_laid_over_white() {
    // two pixels: opaque red, and half transparent black
    let png = png_bytes(image::ColorType::Rgba8, 2, 1, &[255, 0, 0, 255, 0, 0, 0, 128]);
    let x = ImageXObject::from_png(&png).unwrap();
    assert_eq!((x.width, x.height), (2, 1));
    assert_eq!(x.color_space, "DeviceRGB");
    assert_eq!(x.filter, "FlateDecode");
    // 0 * 128 + 255 * 127 = 32385, divided by 255 gives 127
    assert_eq!(inflate(&x.data), vec![255, 0, 0, 127, 127, 127]);
}

#[test]
fn grey_png_stays_grey() {
    let png = png_bytes(image::ColorType::L8, 2, 2, &[0, 64, 128, 255]);
    let x = ImageXObject::from_png(&png).unwrap();
    assert_eq!(x.color_space, "DeviceGray");
    assert_eq!(inflate(&x.data), vec![0, 64, 128, 255]);
    let la = png_bytes(image::ColorType::La8, 1, 2, &[100, 255, 100, 0]);
    let x = ImageXObject::from_png(&la).unwrap();
    assert_eq!(x.color_space, "DeviceGray");
    assert_eq!(inflate(&x.data), vec![100, 255]);
    let rgb = png_bytes(image::ColorType::Rgb8, 1, 1, &[1, 2, 3]);
    let x = ImageXObject::from_png(&rgb).unwrap();
    assert_eq!(x.color_space, "DeviceRGB");
    assert_eq!(inflate(&x.data), vec![1, 2, 3]);
}

#[test]
fn data_that_is_no_image_is_refused() {
    assert!(matches!(ImageXObject::from_png(&[1, 2, 3, 4]), Err(PdfError::ImageError(_))));
    assert!(matches!(ImageXObject::from_data(&[1, 2, 3, 4]), Err(PdfError::ImageError(_))));
    assert!(matches!(ImageXObject::from_jpeg(&[]), Err(PdfError::ImageError(_))));
}

#[test]
fn each_kind_of_samples_has_its_layout() {
    assert_eq!(layout_for(SampleKind::L8), PixelLayout::Gray);
    assert_eq!(layout_for(SampleKind::L16), PixelLayout::Gray);
    assert_eq!(layout_for(SampleKind::La8), PixelLayout::GrayAlpha);
    assert_eq!(layout_for(SampleKind::La16), PixelLayout::GrayAlpha);
    assert_eq!(layout_for(SampleKind::Rgba8), PixelLayout::Rgba);
    assert_eq!(layout_for(SampleKind::Rgba16), PixelLayout::Rgba);
    assert_eq!(layout_for(SampleKind::Rgb8), PixelLayout::Rgb);
    assert_eq!(layout_for(SampleKind::Rgb16), PixelLayout::Rgb);
    assert_eq!(layout_for(SampleKind::Rgb32F), PixelLayout::Rgb);
    assert_eq!(layout_for(SampleKind::Rgba32F), PixelLayout::Rgb);
    assert_eq!(layout_for(SampleKind::Other), PixelLayout::Rgb);
}

#[test]
fn sixteen_bits_become_eight() {
    // one grey pixel of 16 bits, 0x8080, written high byte first by the encoder
    let png = png_bytes(image::ColorType::L16, 1, 1, &0x8080u16.to_ne_bytes());
    let img = decode_image(&png).unwrap();
    assert_eq!((img.width, img.height, img.layout), (1, 1, PixelLayout::Gray));
    assert_eq!(img.samples, vec![0x80]);
    let x = ImageXObject::from_png(&png).unwrap();
    assert_eq!(x.color_space, "DeviceGray");
    assert_eq!(x.bits_per_component, 8);
    assert_eq!(inflate(&x.data), vec![0x80]);
    // two bytes per channel, three channels
    let rgb = png_bytes(image::ColorType::Rgb16, 1, 1, &[0xFF, 0xFF, 0, 0, 0xFF, 0xFF]);
    let img = decode_image(&rgb).unwrap();
    assert_eq!(img.layout, PixelLayout::Rgb);
    assert_eq!(img.samples, vec![255, 0, 255]);
}

#[test]
fn only_png_files_are_decoded() {
    let png = png_bytes(image::ColorType::Rgba8, 1, 1, &[9, 8, 7, 255]);
    let img = decode_image(&png).unwrap();
    assert_eq!(img.layout, PixelLayout::Rgba);
    assert_eq!(img.samples, vec![9, 8, 7, 255]);
    let mut jpeg = Vec::new();
    image::write_buffer_with_format(
        &mut std::io::Cursor::new(&mut jpeg),
        &[0u8; 64],
        8,
        8,
        image::ColorType::L8,
        image::ImageFormat::Jpeg,
    )
    .unwrap();
    assert!(decode_image(&jpeg).is_none());
    assert!(decode_image(&png[..20]).is_none());
    // a JPEG file is embedded as it is
    let x = ImageXObject::from_data(&jpeg).unwrap();
    assert_eq!(x.filter, "DCTDecode");
    assert_eq!(x.data, jpeg);
}
