//! Image preprocessing: decode, convert to grayscale, resize.
//!
//! Every hash algorithm works on a small fixed-size grayscale buffer. The
//! decoding and resampling themselves are done by the `image` crate; the
//! result is handed to the verified code as a plain row-major byte buffer.

use vstd::prelude::*;

verus! {

/// Failure to turn a byte buffer into a grayscale image: the bytes are not a
/// supported image format, or are a corrupt file of one.
#[derive(Debug, Clone, Copy, PartialEq, Eq, Structural)]
pub enum DecodeError {
    InvalidImage,
}

/// Whether `bytes` decode as a supported image format. Success of the
/// decoder depends on the bytes alone; the conversion and resampling that
/// follow a successful decode never fail.
pub uninterp spec fn decodes(bytes: Seq<u8>) -> bool;

/// The grayscale pixel buffer that decoding `bytes` and resampling to
/// `height` rows by `width` columns produces, row-major, one byte per pixel.
/// The result depends on the arguments alone.
pub uninterp spec fn gray_of(bytes: Seq<u8>, height: u32, width: u32) -> Seq<u8>;

/// Decode an image from raw file bytes and normalize it to a grayscale
/// buffer of exactly `height` rows by `width` columns, using a Lanczos
/// resampling filter to preserve structural content.
///
/// Relies on `image::load_from_memory` (format detection and decoding; it
/// returns a value exactly when the bytes are a decodable image, and fails
/// by returning an error, never by panicking), `DynamicImage::grayscale`,
/// `DynamicImage::resize_exact` with the `Lanczos3` filter (the result has
/// exactly the requested dimensions), and `DynamicImage::into_luma8` (one
/// byte per pixel, row-major); none of the three can fail. All of these
/// compute from their arguments alone.
#[verifier::external_body]
pub fn preprocess(bytes: &Vec<u8>, height: u32, width: u32) -> (result: Result<
    Vec<u8>,
    DecodeError,
>)
    requires
        1 <= height,
        1 <= width,
        width * height < 0x1_0000_0000,
    ensures
        result is Ok <==> decodes(bytes@),
        match result {
            Ok(pixels) => pixels@.len() == width * height && pixels@ == gray_of(
                bytes@,
                height,
                width,
            ),
            Err(e) => e == DecodeError::InvalidImage,
        },
{
    match image::load_from_memory(bytes.as_slice()) {
        Ok(img) => Ok(
            img.grayscale().resize_exact(
                width,
                height,
                image::imageops::FilterType::Lanczos3,
            ).into_luma8().into_raw(),
        ),
        Err(_) => Err(DecodeError::InvalidImage),
    }
}

} // verus!
