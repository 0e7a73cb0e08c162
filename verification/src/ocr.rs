//! The boundary to the external OCR capability.
//!
//! A text chunk is handed to the engine as a losslessly encoded raster
//! image; the engine is a black box whose answer the pipeline cleans and
//! never trusts beyond what it states itself.

use vstd::prelude::*;

use crate::grid::PixelGrid;
use crate::ReadError;

verus! {

/// Pixel count up to which a TIFF encoding is guaranteed to succeed: the
/// format keeps every file offset in 32 bits, and an uncompressed image of
/// at most `2^31` pixels stays far below that limit, the overhead being a
/// fixed tag set plus one strip record per megabyte of rows.
pub const MAX_RASTER_PIXELS: usize = 0x8000_0000;

/// What the TIFF encoding of a grayscale image holds, as a function of the
/// pixel data and dimensions alone.  The encoder writes a fixed tag set in a
/// fixed order; multi-byte fields use the build target's byte order, so the
/// function is fixed within any one build.
pub uninterp spec fn tiff_encoding(data: Seq<u8>, width: int, height: int) -> Seq<u8>;

/// An external text-recognition engine: consumes a losslessly encoded
/// raster image and returns the recognized UTF-8 text.  A failure is scoped
/// to the one chunk being read.  Nothing is assumed of the answer: callers
/// state what they guarantee for every possible answer.
pub trait OcrEngine {
    fn recognize(&mut self, raster: &Vec<u8>) -> Result<String, ReadError>;
}

/// Relies on image's `ImageBuffer::write_to` with the TIFF output format: a
/// lossless encoding that is a function of the pixel data and dimensions
/// alone.  Writing into a memory buffer, the encoder fails only for an image
/// with a zero dimension or one whose encoding would push a file offset past
/// the format's 32-bit range, so it succeeds on every image of positive
/// dimensions with fewer than `MAX_RASTER_PIXELS` pixels.
#[verifier::external_body]
pub(crate) fn encode_tiff(grid: &PixelGrid) -> (r: Result<Vec<u8>, ReadError>)
    requires
        grid.wf(),
        grid.width <= u32::MAX,
        grid.height <= u32::MAX,
    ensures
        match r {
            Ok(bytes) => bytes@ == tiff_encoding(
                grid.data@,
                grid.width as int,
                grid.height as int,
            ),
            Err(e) => e == ReadError::ImageEncode,
        },
        grid.width > 0 && grid.height > 0 && grid.width * grid.height < MAX_RASTER_PIXELS ==> r
            is Ok,
{
    let img = match image::GrayImage::from_raw(
        grid.width as u32,
        grid.height as u32,
        grid.data.clone(),
    ) {
        Some(img) => img,
        None => return Err(ReadError::ImageEncode),
    };
    let mut buf: Vec<u8> = Vec::new();
    let mut cursor = std::io::Cursor::new(&mut buf);
    match img.write_to(&mut cursor, image::ImageOutputFormat::Tiff) {
        Ok(()) => Ok(buf),
        Err(_) => Err(ReadError::ImageEncode),
    }
}

} // verus!
