//! Images: recognising JPEG and PNG data, reading sizes, building image
//! XObjects and the operators that draw them.

use vstd::prelude::*;
use vstd::string::StringExecFns;
use vstd::utf8::encode_utf8;
use vstd::string::StringSliceAdditionalSpecFns;
use crate::codec::{
    decode_image, image_decoded, zlib_compress, zlib_compressed, DecodedImage, DecodedView,
    PixelLayout,
};
use crate::object::{copy_bytes, entry, length_value, nm, Dictionary, Entries, Object, Stream, Value};
use crate::units::{decimal_text, scale_micros, Fixed};
use crate::PdfError;

verus! {

/// The image formats that can be embedded.
#[derive(Debug, Clone, Copy, PartialEq, Eq, Structural)]
pub enum ImageFormat {
    Jpeg,
    Png,
}

/// How an image is fitted to the rectangle it is given.
#[derive(Debug, Clone, Copy, PartialEq, Eq, Structural)]
pub enum ImageScaleMode {
    /// Takes the rectangle's width and height as they are.
    Stretch,
    /// Keeps the aspect ratio, driven by the width.
    FitWidth,
    /// Keeps the aspect ratio, driven by the height.
    FitHeight,
    /// Keeps the aspect ratio and stays inside the rectangle.
    FitBox,
}

impl Default for ImageScaleMode {
    fn default() -> (m: ImageScaleMode)
        ensures
            m == ImageScaleMode::Stretch,
    {
        ImageScaleMode::Stretch
    }
}

/// Width and height of an image in pixels.
#[derive(Debug, Clone, Copy)]
pub struct ImageDimensions {
    pub width: u32,
    pub height: u32,
}

/// What the frame header of a JPEG file says.
#[derive(Debug, Clone, Copy)]
pub struct JpegInfo {
    pub width: u32,
    pub height: u32,
    pub num_components: u8,
}

/// An image as it is embedded: its size, colour space, filter and payload.
#[derive(Debug, Clone)]
pub struct ImageXObject {
    pub width: u32,
    pub height: u32,
    /// `DeviceRGB` or `DeviceGray`.
    pub color_space: String,
    pub bits_per_component: u8,
    /// `DCTDecode` for JPEG data, `FlateDecode` for zlib data.
    pub filter: String,
    pub data: Vec<u8>,
}

/// Whether the data starts as a JPEG file does.
pub open spec fn is_jpeg(data: Seq<u8>) -> bool {
    data.len() >= 3 && data[0] == 0xFF && data[1] == 0xD8 && data[2] == 0xFF
}

/// Whether the data starts with the PNG signature.
pub open spec fn is_png(data: Seq<u8>) -> bool {
    data.len() >= 8 && data[0] == 0x89 && data[1] == 0x50 && data[2] == 0x4E && data[3] == 0x47
        && data[4] == 0x0D && data[5] == 0x0A && data[6] == 0x1A && data[7] == 0x0A
}

/// The format that the first bytes announce.
pub open spec fn format_of(data: Seq<u8>) -> Option<ImageFormat> {
    if is_jpeg(data) {
        Some(ImageFormat::Jpeg)
    } else if is_png(data) {
        Some(ImageFormat::Png)
    } else {
        None
    }
}

/// Tells JPEG from PNG data by the first bytes.
pub fn detect_format(data: &[u8]) -> (r: Result<ImageFormat, PdfError>)
    ensures
        match r {
            Ok(f) => format_of(data@) == Some(f),
            Err(e) => format_of(data@) is None && e is ImageError,
        },
{
    if data.len() >= 3 && data[0] == 0xFF && data[1] == 0xD8 && data[2] == 0xFF {
        return Ok(ImageFormat::Jpeg);
    }
    if data.len() >= 8 && data[0] == 0x89 && data[1] == 0x50 && data[2] == 0x4E && data[3] == 0x47
        && data[4] == 0x0D && data[5] == 0x0A && data[6] == 0x1A && data[7] == 0x0A {
        return Ok(ImageFormat::Png);
    }
    if data.len() < 8 {
        Err(PdfError::ImageError("Image data too short".to_owned()))
    } else {
        Err(PdfError::ImageError("Unknown image format".to_owned()))
    }
}

/// Whether a marker byte starts a frame header: `C0` to `CF` without `C4`,
/// `C8` and `CC`.
pub open spec fn is_frame_marker(marker: u8) -> bool {
    0xC0 <= marker <= 0xCF && marker != 0xC4 && marker != 0xC8 && marker != 0xCC
}

/// The 16-bit number written big-endian in two bytes.
pub open spec fn be16(hi: u8, lo: u8) -> int {
    hi as int * 256 + lo as int
}

/// The 32-bit number written big-endian in four bytes.
pub open spec fn be32(a: u8, b: u8, c: u8, d: u8) -> int {
    ((a as int * 256 + b as int) * 256 + c as int) * 256 + d as int
}

/// The first frame header found when the segments of a JPEG file are walked
/// from position `i`: width, height and number of components.
pub open spec fn jpeg_scan(data: Seq<u8>, i: int) -> Option<(int, int, u8)>
    decreases data.len() - i,
{
    if i < 0 || i + 10 >= data.len() {
        None
    } else if data[i] != 0xFF {
        jpeg_scan(data, i + 1)
    } else if is_frame_marker(data[i + 1]) {
        Some((be16(data[i + 7], data[i + 8]), be16(data[i + 5], data[i + 6]), data[i + 9]))
    } else {
        let length = be16(data[i + 2], data[i + 3]);
        if length < 2 || i + 2 + length + 10 >= data.len() {
            None
        } else {
            jpeg_scan(data, i + 2 + length)
        }
    }
}

fn read_be16(hi: u8, lo: u8) -> (r: u32)
    ensures
        r == be16(hi, lo),
{
    (hi as u32) * 256 + (lo as u32)
}

/// Reads width, height and number of components from the first frame
/// header of a JPEG file; the walk starts behind the two bytes that open it.
pub fn get_jpeg_info(data: &[u8]) -> (r: Result<JpegInfo, PdfError>)
    ensures
        match r {
            Ok(info) => jpeg_scan(data@, 2) == Some(
                (info.width as int, info.height as int, info.num_components),
            ),
            Err(e) => jpeg_scan(data@, 2) is None && e is ImageError,
        },
{
    let n = data.len();
    let mut i: usize = 2;
    while n > 10 && i < n - 10
        invariant
            2 <= i,
            n == data.len(),
            jpeg_scan(data@, 2) == jpeg_scan(data@, i as int),
        decreases n - i,
    {
        if data[i] != 0xFF {
            i += 1;
            continue;
        }
        let marker = data[i + 1];
        if 0xC0 <= marker && marker <= 0xCF && marker != 0xC4 && marker != 0xC8 && marker != 0xCC {
            let height = read_be16(data[i + 5], data[i + 6]);
            let width = read_be16(data[i + 7], data[i + 8]);
            return Ok(JpegInfo { width, height, num_components: data[i + 9] });
        }
        let length = read_be16(data[i + 2], data[i + 3]) as usize;
        if length < 2 {
            return Err(PdfError::ImageError("Could not parse JPEG info".to_owned()));
        }
        if length + 12 >= n - i {
            return Err(PdfError::ImageError("Could not parse JPEG info".to_owned()));
        }
        i = i + 2 + length;
    }
    Err(PdfError::ImageError("Could not parse JPEG info".to_owned()))
}

/// Whether the data is long enough for a PNG header and names it `IHDR`.
pub open spec fn has_png_header(data: Seq<u8>) -> bool {
    data.len() >= 24 && data[12] == 0x49 && data[13] == 0x48 && data[14] == 0x44 && data[15]
        == 0x52
}

/// Reads width and height from the header chunk of a PNG file.
pub fn get_png_dimensions(data: &[u8]) -> (r: Result<ImageDimensions, PdfError>)
    ensures
        match r {
            Ok(d) => has_png_header(data@) && d.width == be32(
                data@[16],
                data@[17],
                data@[18],
                data@[19],
            ) && d.height == be32(data@[20], data@[21], data@[22], data@[23]),
            Err(e) => !has_png_header(data@) && e is ImageError,
        },
{
    if data.len() < 24 {
        return Err(PdfError::ImageError("PNG data too short".to_owned()));
    }
    if data[12] != 0x49 || data[13] != 0x48 || data[14] != 0x44 || data[15] != 0x52 {
        return Err(PdfError::ImageError("Invalid PNG: IHDR not found".to_owned()));
    }
    let width: u32 = ((data[16] as u32 * 256 + data[17] as u32) * 256 + data[18] as u32) * 256
        + data[19] as u32;
    let height: u32 = ((data[20] as u32 * 256 + data[21] as u32) * 256 + data[22] as u32) * 256
        + data[23] as u32;
    Ok(ImageDimensions { width, height })
}

/// The size of a JPEG or PNG image, read without decoding it.
pub fn get_dimensions(data: &[u8]) -> (r: Result<ImageDimensions, PdfError>)
    ensures
        match r {
            Ok(d) => match format_of(data@) {
                Some(ImageFormat::Jpeg) => jpeg_scan(data@, 2) matches Some(info) && info.0
                    == d.width && info.1 == d.height,
                Some(ImageFormat::Png) => has_png_header(data@) && d.width == be32(
                    data@[16],
                    data@[17],
                    data@[18],
                    data@[19],
                ) && d.height == be32(data@[20], data@[21], data@[22], data@[23]),
                None => false,
            },
            Err(e) => e is ImageError && (match format_of(data@) {
                Some(ImageFormat::Jpeg) => jpeg_scan(data@, 2) is None,
                Some(ImageFormat::Png) => !has_png_header(data@),
                None => true,
            }),
        },
{
    match detect_format(data)? {
        ImageFormat::Jpeg => {
            let info = get_jpeg_info(data)?;
            Ok(ImageDimensions { width: info.width, height: info.height })
        },
        ImageFormat::Png => get_png_dimensions(data),
    }
}


/// The colour space of a JPEG image with the given number of components.
pub open spec fn jpeg_color_space(components: u8) -> Seq<char> {
    if components == 1 {
        "DeviceGray"@
    } else {
        "DeviceRGB"@
    }
}

/// A sample laid over white with the given opacity:
/// `p * a / 255 + 255 * (1 - a / 255)`, rounded down.
pub open spec fn blend(p: u8, a: u8) -> u8 {
    ((p * a + 255 * (255 - a)) / 255) as u8
}

/// The number of samples per pixel in a layout.
pub open spec fn channels(layout: PixelLayout) -> int {
    match layout {
        PixelLayout::Gray => 1,
        PixelLayout::GrayAlpha => 2,
        PixelLayout::Rgb => 3,
        PixelLayout::Rgba => 4,
    }
}

/// Whether a decoded image holds as many samples as its size asks for.
pub open spec fn samples_fit(img: DecodedView) -> bool {
    img.samples.len() == img.width * img.height * channels(img.layout)
}

/// The samples of the image laid over white: grey images stay grey, colour
/// images become RGB, and opacity is blended away.
pub open spec fn opaque_samples(img: DecodedView) -> Seq<u8> {
    let s = img.samples;
    let pixels = img.width * img.height;
    match img.layout {
        PixelLayout::Gray => s,
        PixelLayout::Rgb => s,
        PixelLayout::GrayAlpha => Seq::new(
            pixels as nat,
            |i: int| blend(s[2 * i], s[2 * i + 1]),
        ),
        PixelLayout::Rgba => Seq::new(
            (3 * pixels) as nat,
            |i: int| blend(s[4 * (i / 3) + i % 3], s[4 * (i / 3) + 3]),
        ),
    }
}

/// The colour space of what `opaque_samples` gives.
pub open spec fn opaque_color_space(layout: PixelLayout) -> Seq<char> {
    match layout {
        PixelLayout::Gray => "DeviceGray"@,
        PixelLayout::GrayAlpha => "DeviceGray"@,
        PixelLayout::Rgb => "DeviceRGB"@,
        PixelLayout::Rgba => "DeviceRGB"@,
    }
}

fn blend_sample(p: u8, a: u8) -> (r: u8)
    ensures
        r == blend(p, a),
{
    assert(0 <= p * a <= 255 * a) by (nonlinear_arith)
        requires
            0 <= p <= 255,
            0 <= a <= 255,
    ;
    let v: u32 = (p as u32) * (a as u32) + 255 * (255 - a as u32);
    (v / 255) as u8
}

/// The dictionary of the stream that holds an image.
pub open spec fn xobject_entries(
    width: u32,
    height: u32,
    color_space: Seq<char>,
    bits_per_component: u8,
    filter: Seq<char>,
    len: nat,
) -> Entries {
    seq![
        (nm("Type"), Value::Name(nm("XObject"))),
        (nm("Subtype"), Value::Name(nm("Image"))),
        (nm("Width"), Value::Integer(width as i64)),
        (nm("Height"), Value::Integer(height as i64)),
        (nm("ColorSpace"), Value::Name(encode_utf8(color_space))),
        (nm("BitsPerComponent"), Value::Integer(bits_per_component as i64)),
        (nm("Filter"), Value::Name(encode_utf8(filter))),
        (nm("Length"), Value::Integer(length_value(len))),
    ]
}

/// The size in pixels of the image that `data` is embedded as, and the
/// stream that holds it: JPEG data as it is, any other image decoded, laid
/// over white and compressed. `None` where the data is neither.
pub open spec fn embedded_image(data: Seq<u8>) -> Option<(u32, u32, Value)> {
    match jpeg_scan(data, 2) {
        Some(info) => Some(
            (
                info.0 as u32,
                info.1 as u32,
                Value::Stream(
                    xobject_entries(
                        info.0 as u32,
                        info.1 as u32,
                        jpeg_color_space(info.2),
                        8,
                        "DCTDecode"@,
                        data.len(),
                    ),
                    data,
                ),
            ),
        ),
        None => match image_decoded(data) {
            Some(img) => if samples_fit(img) {
                let payload = zlib_compressed(opaque_samples(img));
                Some(
                    (
                        img.width,
                        img.height,
                        Value::Stream(
                            xobject_entries(
                                img.width,
                                img.height,
                                opaque_color_space(img.layout),
                                8,
                                "FlateDecode"@,
                                payload.len(),
                            ),
                            payload,
                        ),
                    ),
                )
            } else {
                None
            },
            None => None,
        },
    }
}

impl ImageXObject {
    /// The image that `data` is embedded as: a JPEG file as it is, any
    /// other image decoded, laid over white and compressed.
    pub fn from_data(data: &[u8]) -> (r: Result<ImageXObject, PdfError>)
        ensures
            match r {
                Ok(x) => embedded_image(data@) == Some((x.width, x.height, x.stream_value())),
                Err(e) => embedded_image(data@) is None && e is ImageError,
            },
    {
        match ImageXObject::from_jpeg(data) {
            Ok(x) => Ok(x),
            Err(_) => match ImageXObject::from_png(data) {
                Ok(x) => Ok(x),
                Err(_) => Err(
                    PdfError::ImageError("Failed to create image XObject".to_owned()),
                ),
            },
        }
    }
}

impl ImageXObject {
    /// Whether `self` is the image that embeds the JPEG file `data` as it is.
    pub open spec fn is_jpeg_of(&self, data: Seq<u8>) -> bool {
        &&& jpeg_scan(data, 2) matches Some(info)
        &&& self.width == info.0
        &&& self.height == info.1
        &&& self.color_space@ == jpeg_color_space(info.2)
        &&& self.bits_per_component == 8
        &&& self.filter@ == "DCTDecode"@
        &&& self.data@ == data
    }

    /// Whether `self` embeds the decoded image `img`, compressed with zlib.
    pub open spec fn is_flate_of(&self, img: DecodedView) -> bool {
        &&& self.width == img.width
        &&& self.height == img.height
        &&& self.color_space@ == opaque_color_space(img.layout)
        &&& self.bits_per_component == 8
        &&& self.filter@ == "FlateDecode"@
        &&& self.data@ == zlib_compressed(opaque_samples(img))
    }

    /// The image that embeds a JPEG file as it is.
    pub fn from_jpeg(data: &[u8]) -> (r: Result<ImageXObject, PdfError>)
        ensures
            match r {
                Ok(x) => x.is_jpeg_of(data@),
                Err(e) => jpeg_scan(data@, 2) is None && e is ImageError,
            },
    {
        let info = get_jpeg_info(data)?;
        let color_space = if info.num_components == 1 {
            String::from_str("DeviceGray")
        } else {
            String::from_str("DeviceRGB")
        };
        Ok(
            ImageXObject {
                width: info.width,
                height: info.height,
                color_space,
                bits_per_component: 8,
                filter: String::from_str("DCTDecode"),
                data: copy_bytes(data),
            },
        )
    }

    /// The image that embeds decoded samples: laid over white and
    /// compressed with zlib. Fails where the samples do not fit the size.
    pub fn from_decoded(img: &DecodedImage) -> (r: Result<ImageXObject, PdfError>)
        ensures
            match r {
                Ok(x) => samples_fit(img@) && x.is_flate_of(img@),
                Err(e) => !samples_fit(img@) && e is ImageError,
            },
    {
        let per: u128 = match img.layout {
            PixelLayout::Gray => 1,
            PixelLayout::GrayAlpha => 2,
            PixelLayout::Rgb => 3,
            PixelLayout::Rgba => 4,
        };
        assert(img.width * img.height <= 0xFFFF_FFFF * 0xFFFF_FFFF) by (nonlinear_arith)
            requires
                0 <= img.width <= 0xFFFF_FFFF,
                0 <= img.height <= 0xFFFF_FFFF,
        ;
        let pixels: u128 = (img.width as u128) * (img.height as u128);
        let expected: u128 = pixels * per;
        if img.samples.len() as u128 != expected {
            return Err(
                PdfError::ImageError("Decoded image has an unexpected size".to_owned()),
            );
        }
        let n: usize = pixels as usize;
        let s = &img.samples;
        let total: usize = s.len();
        let mut raw: Vec<u8> = Vec::new();
        match img.layout {
            PixelLayout::Gray | PixelLayout::Rgb => {
                raw = copy_bytes(s.as_slice());
            },
            PixelLayout::GrayAlpha => {
                let mut i: usize = 0;
                while i < n
                    invariant
                        i <= n,
                        total == 2 * n,
                        s@.len() == 2 * n,
                        s@ == img@.samples,
                        raw@.len() == i,
                        forall|j: int| 0 <= j < i ==> raw@[j] == blend(s@[2 * j], s@[2 * j + 1]),
                    decreases n - i,
                {
                    raw.push(blend_sample(s[2 * i], s[2 * i + 1]));
                    i += 1;
                }
            },
            PixelLayout::Rgba => {
                let mut i: usize = 0;
                while i < n
                    invariant
                        i <= n,
                        total == 4 * n,
                        s@.len() == 4 * n,
                        s@ == img@.samples,
                        raw@.len() == 3 * i,
                        forall|j: int|
                            0 <= j < 3 * i ==> raw@[j] == blend(
                                s@[4 * (j / 3) + j % 3],
                                s@[4 * (j / 3) + 3],
                            ),
                    decreases n - i,
                {
                    let a = s[4 * i + 3];
                    raw.push(blend_sample(s[4 * i], a));
                    raw.push(blend_sample(s[4 * i + 1], a));
                    raw.push(blend_sample(s[4 * i + 2], a));
                    i += 1;
                }
            },
        }
        assert(raw@ =~= opaque_samples(img@));
        let color_space = match img.layout {
            PixelLayout::Gray | PixelLayout::GrayAlpha => String::from_str("DeviceGray"),
            PixelLayout::Rgb | PixelLayout::Rgba => String::from_str("DeviceRGB"),
        };
        Ok(
            ImageXObject {
                width: img.width,
                height: img.height,
                color_space,
                bits_per_component: 8,
                filter: String::from_str("FlateDecode"),
                data: zlib_compress(raw.as_slice()),
            },
        )
    }

    /// The image that embeds a PNG file: decoded, laid over white and
    /// compressed with zlib.
    pub fn from_png(data: &[u8]) -> (r: Result<ImageXObject, PdfError>)
        ensures
            match r {
                Ok(x) => image_decoded(data@) matches Some(img) && samples_fit(img)
                    && x.is_flate_of(img),
                Err(e) => e is ImageError && (match image_decoded(data@) {
                    Some(img) => !samples_fit(img),
                    None => true,
                }),
            },
    {
        match decode_image(data) {
            Some(img) => ImageXObject::from_decoded(&img),
            None => Err(PdfError::ImageError("Failed to decode image".to_owned())),
        }
    }

    /// The dictionary of the stream that holds this image.
    pub open spec fn stream_entries(&self) -> Entries {
        xobject_entries(
            self.width,
            self.height,
            self.color_space@,
            self.bits_per_component,
            self.filter@,
            self.data@.len(),
        )
    }

    /// The stream that holds this image.
    pub open spec fn stream_value(&self) -> Value {
        Value::Stream(self.stream_entries(), self.data@)
    }

    /// The stream object that holds this image.
    pub fn to_pdf_stream(&self) -> (r: Stream)
        ensures
            r.dict@ == self.stream_entries(),
            r.content@ == self.data@,
    {
        let n: u64 = self.data.len() as u64;
        let len: i64 = if n <= 0x7fff_ffff_ffff_ffff {
            n as i64
        } else {
            i64::MAX
        };
        let mut e: Vec<(Vec<u8>, Object)> = Vec::new();
        e.push(entry("Type", Object::name("XObject")));
        e.push(entry("Subtype", Object::name("Image")));
        e.push(entry("Width", Object::Integer(self.width as i64)));
        e.push(entry("Height", Object::Integer(self.height as i64)));
        e.push(entry("ColorSpace", Object::name(self.color_space.as_str())));
        e.push(entry("BitsPerComponent", Object::Integer(self.bits_per_component as i64)));
        e.push(entry("Filter", Object::name(self.filter.as_str())));
        e.push(entry("Length", Object::Integer(len)));
        let dict = Dictionary::from_entries(e);
        assert(dict@ =~= self.stream_entries());
        Stream { dict, content: copy_bytes(self.data.as_slice()) }
    }
}

/// The size at which an image of `original_width` by `original_height`
/// pixels is shown in a rectangle of `target_width` by `target_height`.
pub open spec fn scaled_dimensions(
    original_width: u32,
    original_height: u32,
    target_width: Fixed,
    target_height: Fixed,
    mode: ImageScaleMode,
) -> (i64, i64) {
    let by_width = (
        target_width.micros,
        scale_micros(target_width.micros, original_height, original_width),
    );
    let by_height = (
        scale_micros(target_height.micros, original_width, original_height),
        target_height.micros,
    );
    match mode {
        ImageScaleMode::Stretch => (target_width.micros, target_height.micros),
        ImageScaleMode::FitWidth => by_width,
        ImageScaleMode::FitHeight => by_height,
        ImageScaleMode::FitBox => if target_width.micros * original_height <= target_height.micros
            * original_width {
            by_width
        } else {
            by_height
        },
    }
}

/// The size at which an image is shown: the rectangle itself when
/// stretching; else the aspect ratio is kept and the width, the height, or
/// the smaller of the two ratios decides.
pub fn calculate_scaled_dimensions(
    original_width: u32,
    original_height: u32,
    target_width: Fixed,
    target_height: Fixed,
    mode: ImageScaleMode,
) -> (r: (Fixed, Fixed))
    ensures
        (r.0.micros, r.1.micros) == scaled_dimensions(
            original_width,
            original_height,
            target_width,
            target_height,
            mode,
        ),
{
    match mode {
        ImageScaleMode::Stretch => (target_width, target_height),
        ImageScaleMode::FitWidth => (
            target_width,
            target_width.scale(original_height, original_width),
        ),
        ImageScaleMode::FitHeight => (
            target_height.scale(original_width, original_height),
            target_height,
        ),
        ImageScaleMode::FitBox => {
            assert(-0x8000_0000_0000_0000 * 0x1_0000_0000 <= target_width.micros * original_height
                <= 0x8000_0000_0000_0000 * 0x1_0000_0000) by (nonlinear_arith)
                requires
                    -0x8000_0000_0000_0000 <= target_width.micros < 0x8000_0000_0000_0000,
                    0 <= original_height < 0x1_0000_0000,
            ;
            assert(-0x8000_0000_0000_0000 * 0x1_0000_0000 <= target_height.micros * original_width
                <= 0x8000_0000_0000_0000 * 0x1_0000_0000) by (nonlinear_arith)
                requires
                    -0x8000_0000_0000_0000 <= target_height.micros < 0x8000_0000_0000_0000,
                    0 <= original_width < 0x1_0000_0000,
            ;
            let by_width: i128 = (target_width.micros as i128) * (original_height as i128);
            let by_height: i128 = (target_height.micros as i128) * (original_width as i128);
            if by_width <= by_height {
                (target_width, target_width.scale(original_height, original_width))
            } else {
                (target_height.scale(original_width, original_height), target_height)
            }
        },
    }
}

/// The operators that draw the image `image_name` at `x`, `y` with the
/// given size.
pub open spec fn image_operators(
    image_name: Seq<u8>,
    x: Fixed,
    y: Fixed,
    width: Fixed,
    height: Fixed,
) -> Seq<u8> {
    nm("q\n") + decimal_text(width.micros as int) + nm(" 0 0 ") + decimal_text(
        height.micros as int,
    ) + nm(" ") + decimal_text(x.micros as int) + nm(" ") + decimal_text(y.micros as int) + nm(
        " cm\n/",
    ) + image_name + nm(" Do\nQ\n")
}

/// The content stream operators that draw an image: save the graphics
/// state, set the matrix, draw, restore.
pub fn generate_image_operators(image_name: &str, x: Fixed, y: Fixed, width: Fixed, height: Fixed) -> (r:
    Vec<u8>)
    ensures
        r@ == image_operators(nm(image_name), x, y, width, height),
{
    let mut out: Vec<u8> = Vec::new();
    crate::text::push_text(&mut out, "q\n");
    width.write_decimal(&mut out);
    crate::text::push_text(&mut out, " 0 0 ");
    height.write_decimal(&mut out);
    crate::text::push_text(&mut out, " ");
    x.write_decimal(&mut out);
    crate::text::push_text(&mut out, " ");
    y.write_decimal(&mut out);
    crate::text::push_text(&mut out, " cm\n/");
    crate::text::push_text(&mut out, image_name);
    crate::text::push_text(&mut out, " Do\nQ\n");
    assert(out@ =~= image_operators(nm(image_name), x, y, width, height));
    out
}

} // verus!
