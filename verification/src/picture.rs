//! Encoding the drawn cards as PNG images, with the `image` crate.

use vstd::prelude::*;
use image::ImageEncoder;

verus! {

/// The error type of the `image` crate.
#[verifier::external_type_specification]
#[verifier::external_body]
pub struct ExImageError(image::ImageError);

/// The PNG file that the `image` crate writes for the 8-bit RGBA pixels
/// `pixels` of a `width` x `height` image, with its default settings.
pub uninterp spec fn png_rgba8(pixels: Seq<u8>, width: u32, height: u32) -> Seq<u8>;

/// Calls `image::RgbaImage::from_vec` and then `PngEncoder::write_image` of
/// the `image` crate. Claimed: with exactly four bytes per pixel (the
/// length that both calls check, panicking otherwise) the encoding succeeds
/// exactly when neither dimension is zero (the `png` crate refuses a zero
/// width or height when it writes the header; its other errors come from the
/// writer, and writing to a `Vec` does not fail), and an `Ok` holds the PNG
/// file, named `png_rgba8` of the pixels and dimensions.
#[verifier::external_body]
fn encode_png_rgba8(pixels: &[u8], width: u32, height: u32) -> (r: Result<Vec<u8>, image::ImageError>)
    requires
        pixels@.len() == 4 * width * height,
    ensures
        r is Ok <==> (width > 0 && height > 0),
        r matches Ok(png) ==> png@ == png_rgba8(pixels@, width, height),
{
    let img = image::RgbaImage::from_vec(width, height, pixels.to_vec()).expect("Cannot create RgbaImage from vec");
    let mut buf = Vec::new();
    let encoder = image::codecs::png::PngEncoder::new(&mut buf);
    encoder.write_image(&img, width, height, image::ColorType::Rgba8)?;
    Ok(buf)
}

/// The PNG file of the RGBA pixels `card_buf` of a `width` x `height` card;
/// an error for a card of zero width or height.
pub fn to_png_buffer(card_buf: &[u8], width: u32, height: u32) -> (r: Result<Vec<u8>, image::ImageError>)
    requires
        card_buf@.len() == 4 * width * height,
    ensures
        r is Ok <==> (width > 0 && height > 0),
        r matches Ok(png) ==> png@ == png_rgba8(card_buf@, width, height),
{
    encode_png_rgba8(card_buf, width, height)
}

} // verus!
