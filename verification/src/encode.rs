//! Rasters to PNG files in memory, by the `image` crate.

use vstd::prelude::*;
use crate::error::BoardError;

verus! {

/// `image::ImageError`, carried as an opaque value.
#[verifier::external_type_specification]
#[verifier::external_body]
pub struct ExImageError(image::ImageError);

/// What `image::write_buffer_with_format` makes of a greyscale raster of
/// `width` by `height` pixels of eight bits, row by row: the bytes of the PNG
/// file that it writes, or nothing where it refuses. The encoder reads
/// nothing but these three, so the answer is theirs alone; which bytes make
/// up a file is left to the encoder.
pub uninterp spec fn gray_png(width: int, height: int, pixels: Seq<u8>) -> Option<Seq<u8>>;

/// `image::write_buffer_with_format` for eight-bit greyscale and PNG, into
/// memory. The claims are that the outcome is the one that [`gray_png`]
/// names, a file or a refusal, and that a raster without a column or without
/// a row is refused, as the PNG writer does before it writes anything. No
/// raster is promised a file. It panics unless there is exactly one byte to a
/// pixel, which the precondition rules out.
#[verifier::external_body]
pub(crate) fn encode_gray_png(width: u32, height: u32, pixels: &Vec<u8>) -> (outcome: Result<
    Vec<u8>,
    image::ImageError,
>)
    requires
        pixels@.len() == width * height,
    ensures
        match outcome {
            Ok(bytes) => gray_png(width as int, height as int, pixels@) == Some(bytes@),
            Err(_) => gray_png(width as int, height as int, pixels@) is None,
        },
        width == 0 || height == 0 ==> outcome is Err,
{
    let mut bytes: Vec<u8> = Vec::new();
    let written = image::write_buffer_with_format(
        &mut std::io::Cursor::new(&mut bytes),
        pixels,
        width,
        height,
        image::ExtendedColorType::L8,
        image::ImageFormat::Png,
    );
    match written {
        Ok(()) => Ok(bytes),
        Err(refusal) => Err(refusal),
    }
}

/// What a rendering comes to once the encoder has answered: its file, or
/// [`BoardError::Encoding`] in place of whatever it objected to.
pub fn rendered(outcome: Result<Vec<u8>, image::ImageError>) -> (file: Result<Vec<u8>, BoardError>)
    ensures
        match outcome {
            Ok(bytes) => file == Ok::<Vec<u8>, BoardError>(bytes),
            Err(_) => file == Err::<Vec<u8>, BoardError>(BoardError::Encoding),
        },
{
    match outcome {
        Ok(bytes) => Ok(bytes),
        Err(_) => Err(BoardError::Encoding),
    }
}

} // verus!
