//! Image operations: decode, transform, re-encode.
//!
//! Decoding and encoding of image container formats, and the pass-through
//! transforms (grayscale, inversion, identity re-encoding, median filtering),
//! are delegated to the external image-processing library behind the trusted
//! wrappers below. The percentile clipping and hot-pixel suppression logic in
//! between operates on the decoded flat channel buffer and is verified.

use vstd::prelude::*;
use crate::clip::PixelsError;
use crate::clip::clip;
use crate::clip::clip_seq;
use crate::clip::high_bound_spec;
use crate::clip::low_bound_spec;
use crate::clip::percentile_pair_error;
use crate::clip::suppress_hot_pixels;
use crate::clip::suppress_spec;
use crate::clip::validate_percentile_pair;
use crate::percentile::Percentile;

verus! {

/// What decoding yields for given image bytes: `None` when they do not
/// decode, otherwise the width, height, and flat 8-bit RGB channel buffer
/// (interleaved, row-major) of the decoded image.
pub uninterp spec fn decoded_rgb8(bytes: Seq<u8>) -> Option<(u32, u32, Seq<u8>)>;

/// What PNG-encoding a width/height/RGB8-buffer triple yields: `None` when
/// the buffer does not fit the dimensions or the encoder fails.
pub uninterp spec fn encoded_png(width: u32, height: u32, pixels: Seq<u8>) -> Option<Seq<u8>>;

/// The PNG re-encoding of the grayscale conversion of the given image bytes.
pub uninterp spec fn grayscale_png_of(bytes: Seq<u8>) -> Option<Seq<u8>>;

/// The PNG re-encoding of the color inversion of the given image bytes.
pub uninterp spec fn inverted_png_of(bytes: Seq<u8>) -> Option<Seq<u8>>;

/// The PNG re-encoding of the given image bytes, unchanged.
pub uninterp spec fn reencoded_png_of(bytes: Seq<u8>) -> Option<Seq<u8>>;

/// The PNG re-encoding of the median filter (square kernel of the given
/// radius) applied to the given image bytes.
pub uninterp spec fn median_filtered_png_of(bytes: Seq<u8>, radius: u32) -> Option<Seq<u8>>;

/// Relies on `image::load_from_memory` followed by `DynamicImage::to_rgb8`:
/// decoding is a deterministic function of the bytes, and the RGB8 buffer of
/// the decoded image holds exactly `3 * width * height` bytes.
#[verifier::external_body]
fn decode_rgb8(bytes: &Vec<u8>) -> (r: Result<(u32, u32, Vec<u8>), PixelsError>)
    ensures
        r is Ok <==> decoded_rgb8(bytes@) is Some,
        r matches Ok(t) ==> Some((t.0, t.1, t.2@)) == decoded_rgb8(bytes@) && t.2@.len() == 3 * (
        t.0 as int) * (t.1 as int),
        r matches Err(e) ==> e matches PixelsError::Decode(_),
{
    match image::load_from_memory(bytes.as_slice()) {
        Ok(img) => {
            let rgb = img.to_rgb8();
            let (w, h) = rgb.dimensions();
            Ok((w, h, rgb.into_raw()))
        },
        Err(e) => Err(PixelsError::Decode(format!("{}", e))),
    }
}

/// Relies on `ImageBuffer::from_raw` (which rejects a buffer that does not
/// fit the dimensions) and `DynamicImage::write_to` with PNG output, both
/// deterministic functions of their arguments.
#[verifier::external_body]
fn encode_png_rgb8(width: u32, height: u32, pixels: Vec<u8>) -> (r: Result<Vec<u8>, PixelsError>)
    ensures
        r is Ok <==> encoded_png(width, height, pixels@) is Some,
        r matches Ok(b) ==> Some(b@) == encoded_png(width, height, pixels@),
        r matches Err(e) ==> e matches PixelsError::BufferMismatch || e
            matches PixelsError::Encode(_),
{
    let buf: image::ImageBuffer<image::Rgb<u8>, Vec<u8>> =
        match image::ImageBuffer::from_raw(width, height, pixels) {
        Some(b) => b,
        None => return Err(PixelsError::BufferMismatch),
    };
    let mut out = std::io::Cursor::new(Vec::new());
    match image::DynamicImage::ImageRgb8(buf).write_to(&mut out, image::ImageOutputFormat::Png) {
        Ok(()) => Ok(out.into_inner()),
        Err(e) => Err(PixelsError::Encode(format!("{}", e))),
    }
}

/// Relies on `image::load_from_memory`, `DynamicImage::grayscale` and
/// `DynamicImage::write_to` with PNG output: a deterministic function of the
/// bytes.
#[verifier::external_body]
fn grayscale_png(bytes: &Vec<u8>) -> (r: Result<Vec<u8>, PixelsError>)
    ensures
        r is Ok <==> grayscale_png_of(bytes@) is Some,
        r matches Ok(b) ==> Some(b@) == grayscale_png_of(bytes@),
        r matches Err(e) ==> e matches PixelsError::Decode(_) || e matches PixelsError::Encode(_),
{
    let img = match image::load_from_memory(bytes.as_slice()) {
        Ok(i) => i,
        Err(e) => return Err(PixelsError::Decode(format!("{}", e))),
    };
    let mut out = std::io::Cursor::new(Vec::new());
    match img.grayscale().write_to(&mut out, image::ImageOutputFormat::Png) {
        Ok(()) => Ok(out.into_inner()),
        Err(e) => Err(PixelsError::Encode(format!("{}", e))),
    }
}

/// Relies on `image::load_from_memory`, `DynamicImage::invert` and
/// `DynamicImage::write_to` with PNG output: a deterministic function of the
/// bytes.
#[verifier::external_body]
fn inverted_png(bytes: &Vec<u8>) -> (r: Result<Vec<u8>, PixelsError>)
    ensures
        r is Ok <==> inverted_png_of(bytes@) is Some,
        r matches Ok(b) ==> Some(b@) == inverted_png_of(bytes@),
        r matches Err(e) ==> e matches PixelsError::Decode(_) || e matches PixelsError::Encode(_),
{
    let mut img = match image::load_from_memory(bytes.as_slice()) {
        Ok(i) => i,
        Err(e) => return Err(PixelsError::Decode(format!("{}", e))),
    };
    img.invert();
    let mut out = std::io::Cursor::new(Vec::new());
    match img.write_to(&mut out, image::ImageOutputFormat::Png) {
        Ok(()) => Ok(out.into_inner()),
        Err(e) => Err(PixelsError::Encode(format!("{}", e))),
    }
}

/// Relies on `image::load_from_memory` and `DynamicImage::write_to` with PNG
/// output: a deterministic function of the bytes.
#[verifier::external_body]
fn reencoded_png(bytes: &Vec<u8>) -> (r: Result<Vec<u8>, PixelsError>)
    ensures
        r is Ok <==> reencoded_png_of(bytes@) is Some,
        r matches Ok(b) ==> Some(b@) == reencoded_png_of(bytes@),
        r matches Err(e) ==> e matches PixelsError::Decode(_) || e matches PixelsError::Encode(_),
{
    let img = match image::load_from_memory(bytes.as_slice()) {
        Ok(i) => i,
        Err(e) => return Err(PixelsError::Decode(format!("{}", e))),
    };
    let mut out = std::io::Cursor::new(Vec::new());
    match img.write_to(&mut out, image::ImageOutputFormat::Png) {
        Ok(()) => Ok(out.into_inner()),
        Err(e) => Err(PixelsError::Encode(format!("{}", e))),
    }
}

/// Relies on `image::load_from_memory`, `imageproc::filter::median_filter`
/// (a deterministic function of image and radii) and `DynamicImage::write_to`
/// with PNG output. The radius bound keeps the filter's internal kernel-size
/// arithmetic, `(2 * radius + 1)` squared, inside `u32`.
#[verifier::external_body]
fn median_filtered_png(bytes: &Vec<u8>, radius: u32) -> (r: Result<Vec<u8>, PixelsError>)
    requires
        radius <= 0x7FFF,
    ensures
        r is Ok <==> median_filtered_png_of(bytes@, radius) is Some,
        r matches Ok(b) ==> Some(b@) == median_filtered_png_of(bytes@, radius),
        r matches Err(e) ==> e matches PixelsError::Decode(_) || e matches PixelsError::Encode(_),
{
    let img = match image::load_from_memory(bytes.as_slice()) {
        Ok(i) => i,
        Err(e) => return Err(PixelsError::Decode(format!("{}", e))),
    };
    let filtered = imageproc::filter::median_filter(&img.to_rgb8(), radius, radius);
    let mut out = std::io::Cursor::new(Vec::new());
    match image::DynamicImage::ImageRgb8(filtered).write_to(&mut out, image::ImageOutputFormat::Png)
        {
        Ok(()) => Ok(out.into_inner()),
        Err(e) => Err(PixelsError::Encode(format!("{}", e))),
    }
}

/// Decodes the image, clips every channel byte into the bounds selected by
/// the optional low/high percentiles, and re-encodes the result as PNG.
///
/// Percentiles are validated before any other work: each supplied one must
/// lie in `[0, 100]`, and a supplied pair must be ordered.
pub fn clip_pixels_with_percentiles(
    image_data: &Vec<u8>,
    low_percentile: Option<Percentile>,
    high_percentile: Option<Percentile>,
) -> (r: Result<Vec<u8>, PixelsError>)
    ensures
        percentile_pair_error(low_percentile, high_percentile) matches Some(pe) ==> (r matches Err(
            e,
        ) && e == pe),
        percentile_pair_error(low_percentile, high_percentile) is None && decoded_rgb8(image_data@)
            is None ==> (r matches Err(e) && e matches PixelsError::Decode(_)),
        percentile_pair_error(low_percentile, high_percentile) is None ==> (decoded_rgb8(
            image_data@,
        ) matches Some(t) ==> {
            let clipped = clip_seq(
                t.2,
                low_bound_spec(t.2, low_percentile),
                high_bound_spec(t.2, high_percentile),
            );
            &&& (encoded_png(t.0, t.1, clipped) matches Some(b) ==> (r matches Ok(o) && o@ == b))
            &&& (encoded_png(t.0, t.1, clipped) is None ==> (r matches Err(e) && (e
                matches PixelsError::BufferMismatch || e matches PixelsError::Encode(_))))
        }),
{
    if let Err(e) = validate_percentile_pair(low_percentile, high_percentile) {
        return Err(e);
    }
    let (width, height, pixels) = match decode_rgb8(image_data) {
        Ok(t) => t,
        Err(e) => return Err(e),
    };
    // the percentile pair was already validated, so clip cannot reject it
    let clipped = match clip(&pixels, low_percentile, high_percentile) {
        Ok(v) => v,
        Err(_) => vstd::pervasive::unreached(),
    };
    encode_png_rgb8(width, height, clipped)
}

/// Decodes the image, caps every channel byte at the cutoff of the given
/// percentile, and re-encodes the result as PNG.
///
/// The percentile must lie in `[0, 100]`, and the decoded image must have at
/// least one pixel.
pub fn remove_hot_pixels_with_percentile(image_data: &Vec<u8>, percentile: Percentile) -> (r:
    Result<Vec<u8>, PixelsError>)
    ensures
        !percentile.in_range() ==> (r matches Err(e) && e == PixelsError::PercentileOutOfRange),
        percentile.in_range() && decoded_rgb8(image_data@) is None ==> (r matches Err(e) && e
            matches PixelsError::Decode(_)),
        percentile.in_range() ==> (decoded_rgb8(image_data@) matches Some(t) ==> {
            let capped = suppress_spec(t.2, percentile);
            &&& (t.2.len() == 0 ==> (r matches Err(e) && e == PixelsError::EmptyBuffer))
            &&& (t.2.len() > 0 ==> (encoded_png(t.0, t.1, capped) matches Some(b) ==> (r
                matches Ok(o) && o@ == b)))
            &&& (t.2.len() > 0 ==> (encoded_png(t.0, t.1, capped) is None ==> (r matches Err(e)
                && (e matches PixelsError::BufferMismatch || e matches PixelsError::Encode(_)))))
        }),
{
    if !percentile.check_in_range() {
        return Err(PixelsError::PercentileOutOfRange);
    }
    let (width, height, pixels) = match decode_rgb8(image_data) {
        Ok(t) => t,
        Err(e) => return Err(e),
    };
    let capped = match suppress_hot_pixels(&pixels, percentile) {
        Ok(v) => v,
        Err(e) => return Err(e),
    };
    encode_png_rgb8(width, height, capped)
}

/// Re-encodes the image as a grayscale PNG; a pass-through to the external
/// image library.
pub fn to_grayscale(image: &Vec<u8>) -> (r: Result<Vec<u8>, PixelsError>)
    ensures
        r is Ok <==> grayscale_png_of(image@) is Some,
        r matches Ok(b) ==> Some(b@) == grayscale_png_of(image@),
{
    grayscale_png(image)
}

/// Re-encodes the image as a PNG with every color inverted; a pass-through
/// to the external image library.
pub fn invert_colors(image: &Vec<u8>) -> (r: Result<Vec<u8>, PixelsError>)
    ensures
        r is Ok <==> inverted_png_of(image@) is Some,
        r matches Ok(b) ==> Some(b@) == inverted_png_of(image@),
{
    inverted_png(image)
}

/// Re-encodes the image as PNG unchanged; a pass-through to the external
/// image library.
pub fn to_png(image: &Vec<u8>) -> (r: Result<Vec<u8>, PixelsError>)
    ensures
        r is Ok <==> reencoded_png_of(image@) is Some,
        r matches Ok(b) ==> Some(b@) == reencoded_png_of(image@),
{
    reencoded_png(image)
}

/// Applies a median filter with a square kernel of the given radius and
/// re-encodes as PNG; the filtering itself is a pass-through to the external
/// image library. A zero radius is rejected; the upper bound on the radius
/// keeps the filter's kernel-size arithmetic inside `u32`.
pub fn median_blur(image: &Vec<u8>, kernel_radius: u32) -> (r: Result<Vec<u8>, PixelsError>)
    requires
        kernel_radius <= 0x7FFF,
    ensures
        kernel_radius == 0 ==> (r matches Err(e) && e == PixelsError::InvalidKernelRadius),
        kernel_radius > 0 ==> (r is Ok <==> median_filtered_png_of(image@, kernel_radius) is Some),
        r matches Ok(b) ==> Some(b@) == median_filtered_png_of(image@, kernel_radius),
{
    if kernel_radius == 0 {
        return Err(PixelsError::InvalidKernelRadius);
    }
    median_filtered_png(image, kernel_radius)
}

} // verus!
