//! Still images as plain values, and their passage through the image and the
//! symbol-reading libraries.

use vstd::prelude::*;
use crate::error::CodecError;

verus! {

/// A raster of one byte of luminance per pixel, row by row.
#[derive(Debug)]
pub struct GrayFrame {
    pub width: u32,
    pub height: u32,
    pub pixels: Vec<u8>,
}

/// The file that the image library writes for a raster in the Portable
/// Network Graphics format, if it writes one.
pub uninterp spec fn png_encoding(width: int, height: int, pixels: Seq<u8>) -> Option<Seq<u8>>;

/// Width, height and luminance of the image that the image library reads from
/// a file in the Portable Network Graphics format, if it reads one.
pub uninterp spec fn png_luma(file: Seq<u8>) -> Option<(int, int, Seq<u8>)>;

/// What the symbol-reading library finds in a raster: for each grid that it
/// detects, in its order, the bytes that the grid decodes to, if it decodes.
pub uninterp spec fn qr_payloads(width: int, height: int, pixels: Seq<u8>) -> Seq<Option<Seq<u8>>>;

/// The raster is not empty and has as many pixels as its width and height
/// ask for.
pub open spec fn has_extent(frame: GrayFrame) -> bool {
    &&& frame.width > 0
    &&& frame.height > 0
    &&& frame.pixels@.len() == frame.width * frame.height
}

/// The decoded symbols as sequences of bytes.
pub open spec fn payloads_view(symbols: Seq<Option<Vec<u8>>>) -> Seq<Option<Seq<u8>>> {
    Seq::new(
        symbols.len(),
        |i: int|
            match symbols[i] {
                Some(bytes) => Some(bytes@),
                None => None,
            },
    )
}

/// `image::ImageBuffer::write_to` with `image::ImageFormat::Png`, on the
/// buffer that `image::ImageBuffer::from_raw` makes of the raster, into
/// memory. `None` where either refuses, which neither does where the raster
/// has an extent and a pixel for each place in it.
#[verifier::external_body]
pub(crate) fn png_encode(frame: &GrayFrame) -> (r: Option<Vec<u8>>)
    ensures
        has_extent(*frame) ==> r is Some,
        match r {
            Some(file) => png_encoding(frame.width as int, frame.height as int, frame.pixels@)
                == Some(file@),
            None => png_encoding(frame.width as int, frame.height as int, frame.pixels@) is None,
        },
{
    let image = image::GrayImage::from_raw(frame.width, frame.height, frame.pixels.clone())?;
    let mut file = Vec::new();
    image.write_to(&mut std::io::Cursor::new(&mut file), image::ImageFormat::Png).ok()?;
    Some(file)
}

/// `image::ImageReader::decode` on a reader over the bytes with its format
/// set to `image::ImageFormat::Png`, the image then taken as 8-bit luminance
/// by `image::DynamicImage::into_luma8`. `None` where decoding fails.
#[verifier::external_body]
pub(crate) fn png_decode(file: &[u8]) -> (r: Option<GrayFrame>)
    ensures
        match r {
            Some(frame) => png_luma(file@) == Some(
                (frame.width as int, frame.height as int, frame.pixels@),
            ),
            None => png_luma(file@) is None,
        },
{
    let mut reader = image::ImageReader::new(std::io::Cursor::new(file));
    reader.set_format(image::ImageFormat::Png);
    let image = reader.decode().ok()?.into_luma8();
    Some(GrayFrame { width: image.width(), height: image.height(), pixels: image.into_raw() })
}

/// `rqrr::PreparedImage::prepare` on the buffer that
/// `image::ImageBuffer::from_raw` makes of the raster, `detect_grids` on the
/// result, and `rqrr::Grid::decode_to` on each grid into a buffer of its own:
/// the bytes of each grid that decodes, in the order of detection. No grid
/// where the raster's pixels are fewer than its width and height ask for.
#[verifier::external_body]
pub(crate) fn scan_symbols(frame: &GrayFrame) -> (symbols: Vec<Option<Vec<u8>>>)
    ensures
        payloads_view(symbols@) == qr_payloads(
            frame.width as int,
            frame.height as int,
            frame.pixels@,
        ),
{
    let Some(image) = image::GrayImage::from_raw(frame.width, frame.height, frame.pixels.clone())
    else {
        return Vec::new();
    };
    let mut prepared = rqrr::PreparedImage::prepare(image);
    let grids = prepared.detect_grids();
    grids.iter().map(|grid| {
        let mut bytes = Vec::new();
        grid.decode_to(&mut bytes).ok().map(|_| bytes)
    }).collect()
}

/// Width, height and pixels of a raster.
pub open spec fn raster_of(frame: GrayFrame) -> (int, int, Seq<u8>) {
    (frame.width as int, frame.height as int, frame.pixels@)
}

/// The still image of a raster, in the lossless container format. A raster
/// that is not empty and has a pixel for each of its places has one.
pub fn write_png(frame: &GrayFrame) -> (r: Result<Vec<u8>, CodecError>)
    ensures
        has_extent(*frame) ==> r is Ok,
        crate::error::bytes_outcome(r) == match png_encoding(
            frame.width as int,
            frame.height as int,
            frame.pixels@,
        ) {
            Some(file) => Ok::<Seq<u8>, CodecError>(file),
            None => Err::<Seq<u8>, CodecError>(CodecError::ImageEncodeError),
        },
{
    match png_encode(frame) {
        Some(file) => Ok(file),
        None => Err(CodecError::ImageEncodeError),
    }
}

/// The raster of a still image in the lossless container format, as 8-bit
/// luminance.
pub fn read_png(file: &[u8]) -> (r: Result<GrayFrame, CodecError>)
    ensures
        match r {
            Ok(frame) => png_luma(file@) == Some(raster_of(frame)),
            Err(e) => e == CodecError::ImageDecodeError && png_luma(file@) is None,
        },
{
    match png_decode(file) {
        Some(frame) => Ok(frame),
        None => Err(CodecError::ImageDecodeError),
    }
}

} // verus!
