//! Compression through `flate2` and the decoding of PNG files through
//! `image`.

use image::codecs::png::PngDecoder;
use image::ColorType;
use image::DynamicImage;
use image::ImageDecoder;
use std::io::Cursor;
use vstd::prelude::*;

verus! {

/// How the samples of a decoded image are laid out, pixel by pixel.
#[derive(Debug, Clone, Copy, PartialEq, Eq, Structural)]
pub enum PixelLayout {
    /// One grey sample.
    Gray,
    /// A grey sample and its opacity.
    GrayAlpha,
    /// Red, green and blue.
    Rgb,
    /// Red, green, blue and opacity.
    Rgba,
}

/// A decoded image with eight bits per sample.
pub struct DecodedImage {
    pub width: u32,
    pub height: u32,
    pub layout: PixelLayout,
    pub samples: Vec<u8>,
}

/// The mathematical value of a [`DecodedImage`].
pub struct DecodedView {
    pub width: u32,
    pub height: u32,
    pub layout: PixelLayout,
    pub samples: Seq<u8>,
}

impl View for DecodedImage {
    type V = DecodedView;

    open spec fn view(&self) -> DecodedView {
        DecodedView {
            width: self.width,
            height: self.height,
            layout: self.layout,
            samples: self.samples@,
        }
    }
}

/// How a decoder says that the samples of an image are stored: the
/// colour types of `image`, and `Other` for one that it may add.
#[derive(Debug, Clone, Copy, PartialEq, Eq, Structural)]
pub enum SampleKind {
    L8,
    La8,
    Rgb8,
    Rgba8,
    L16,
    La16,
    Rgb16,
    Rgba16,
    Rgb32F,
    Rgba32F,
    Other,
}

/// The layout in which an image of a kind is embedded: grey stays grey,
/// grey with alpha keeps its alpha, RGB with alpha keeps its alpha, and
/// every other kind becomes RGB. Sixteen bits become eight.
pub open spec fn layout_of(kind: SampleKind) -> PixelLayout {
    match kind {
        SampleKind::L8 | SampleKind::L16 => PixelLayout::Gray,
        SampleKind::La8 | SampleKind::La16 => PixelLayout::GrayAlpha,
        SampleKind::Rgba8 | SampleKind::Rgba16 => PixelLayout::Rgba,
        _ => PixelLayout::Rgb,
    }
}

/// The layout in which an image of a kind is embedded.
pub fn layout_for(kind: SampleKind) -> (r: PixelLayout)
    ensures
        r == layout_of(kind),
{
    match kind {
        SampleKind::L8 | SampleKind::L16 => PixelLayout::Gray,
        SampleKind::La8 | SampleKind::La16 => PixelLayout::GrayAlpha,
        SampleKind::Rgba8 | SampleKind::Rgba16 => PixelLayout::Rgba,
        _ => PixelLayout::Rgb,
    }
}

/// The zlib stream that `flate2` writes for `data` at its default level.
pub uninterp spec fn zlib_compressed(data: Seq<u8>) -> Seq<u8>;

/// What `flate2` hands out when `data` is read as a zlib stream to its
/// end; `None` where the read reports an error.
pub uninterp spec fn zlib_decompressed(data: Seq<u8>) -> Option<Seq<u8>>;

/// Width, height and colour type that `image`'s PNG decoder states for
/// `data`; `None` where it cannot be made for `data`.
pub uninterp spec fn png_shape(data: Seq<u8>) -> Option<(u32, u32, SampleKind)>;

/// The samples of the PNG file `data` in a layout, eight bits each, as
/// `image` converts them; `None` where decoding reports an error.
pub uninterp spec fn png_samples(data: Seq<u8>, layout: PixelLayout) -> Option<Seq<u8>>;

/// What a PNG file is decoded to: width and height as the decoder states
/// them, the layout that belongs to its colour type, and the samples in
/// that layout. `None` where the decoder cannot be made or reports an
/// error.
pub open spec fn image_decoded(data: Seq<u8>) -> Option<DecodedView> {
    match png_shape(data) {
        Some((width, height, kind)) => match png_samples(data, layout_of(kind)) {
            Some(samples) => Some(DecodedView { width, height, layout: layout_of(kind), samples }),
            None => None,
        },
        None => None,
    }
}

/// Writes `data` through `flate2::write::ZlibEncoder` at
/// `Compression::default()` into a vector and finishes the stream. The
/// bytes that come back are named, not described.
#[verifier::external_body]
pub(crate) fn zlib_compress(data: &[u8]) -> (r: Vec<u8>)
    ensures
        r@ == zlib_compressed(data@),
{
    let mut encoder = flate2::write::ZlibEncoder::new(Vec::new(), flate2::Compression::default());
    let _ = std::io::Write::write_all(&mut encoder, data);
    encoder.finish().unwrap_or_default()
}

/// Reads `data` to its end through `flate2::read::ZlibDecoder`; `None` where
/// the read reports an error. Nothing is claimed of which data the
/// decoder refuses. The bytes that come back are named, not described.
#[verifier::external_body]
pub(crate) fn zlib_decompress(data: &[u8]) -> (r: Option<Vec<u8>>)
    ensures
        match r {
            Some(bytes) => zlib_decompressed(data@) == Some(bytes@),
            None => zlib_decompressed(data@) is None,
        },
{
    let mut out = Vec::new();
    let mut decoder = flate2::read::ZlibDecoder::new(data);
    std::io::Read::read_to_end(&mut decoder, &mut out).ok().map(|_| out)
}

/// Makes `image::codecs::png::PngDecoder::new` over `data` and asks it
/// for `dimensions()` and `color_type()`; `None` where the decoder cannot
/// be made. The colour type comes back under the same name. The result
/// is named, not described.
#[verifier::external_body]
pub(crate) fn read_png_shape(data: &[u8]) -> (r: Option<(u32, u32, SampleKind)>)
    ensures
        r == png_shape(data@),
{
    let decoder = PngDecoder::new(Cursor::new(data)).ok()?;
    let kind = match decoder.color_type() {
        ColorType::L8 => SampleKind::L8,
        ColorType::La8 => SampleKind::La8,
        ColorType::Rgb8 => SampleKind::Rgb8,
        ColorType::Rgba8 => SampleKind::Rgba8,
        ColorType::L16 => SampleKind::L16,
        ColorType::La16 => SampleKind::La16,
        ColorType::Rgb16 => SampleKind::Rgb16,
        ColorType::Rgba16 => SampleKind::Rgba16,
        ColorType::Rgb32F => SampleKind::Rgb32F,
        ColorType::Rgba32F => SampleKind::Rgba32F,
        _ => SampleKind::Other,
    };
    Some((decoder.dimensions().0, decoder.dimensions().1, kind))
}

/// Makes `image::codecs::png::PngDecoder::new` over `data`, decodes with
/// `image::DynamicImage::from_decoder` and converts with the method of
/// the layout asked for: `to_luma8`, `to_luma_alpha8`, `to_rgb8` or
/// `to_rgba8`. `None` where a step reports an error. The samples that
/// come back are named, not described.
#[verifier::external_body]
pub(crate) fn read_png_samples(data: &[u8], layout: PixelLayout) -> (r: Option<Vec<u8>>)
    ensures
        match r {
            Some(samples) => png_samples(data@, layout) == Some(samples@),
            None => png_samples(data@, layout) is None,
        },
{
    let img = DynamicImage::from_decoder(PngDecoder::new(Cursor::new(data)).ok()?).ok()?;
    Some(match layout {
        PixelLayout::Gray => img.to_luma8().into_raw(),
        PixelLayout::GrayAlpha => img.to_luma_alpha8().into_raw(),
        PixelLayout::Rgb => img.to_rgb8().into_raw(),
        PixelLayout::Rgba => img.to_rgba8().into_raw(),
    })
}

/// Decodes a PNG file to samples of eight bits in the layout that belongs
/// to its colour type.
pub fn decode_image(data: &[u8]) -> (r: Option<DecodedImage>)
    ensures
        match r {
            Some(img) => image_decoded(data@) == Some(img@),
            None => image_decoded(data@) is None,
        },
{
    match read_png_shape(data) {
        Some((width, height, kind)) => {
            let layout = layout_for(kind);
            match read_png_samples(data, layout) {
                Some(samples) => Some(DecodedImage { width, height, layout, samples }),
                None => None,
            }
        },
        None => None,
    }
}

} // verus!
