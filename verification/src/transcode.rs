//! The thumbnail transcode policy: resize to a fixed maximum height with a
//! Lanczos filter, then re-encode — PNG for PNG sources, JPEG for every
//! other source. Same pixels and same source extension give byte-identical
//! output, which the cache's idempotent-write invariant relies on.

use vstd::prelude::*;
use vstd::string::StringSliceAdditionalSpecFns;

use crate::errors::MeshError;
use crate::text::{lower_bytes, to_lower_bytes};
use crate::MAX_THUMB_HEIGHT;

verus! {

#[verifier::external_type_specification]
#[verifier::external_body]
pub struct ExDynamicImage(image::DynamicImage);

/// The width of a decoded image, in pixels.
pub uninterp spec fn image_width(img: image::DynamicImage) -> u32;

/// The height of a decoded image, in pixels.
pub uninterp spec fn image_height(img: image::DynamicImage) -> u32;

/// The pixel contents of a decoded image.
pub uninterp spec fn image_pixels(img: image::DynamicImage) -> Seq<u32>;

/// The pixel contents after a Lanczos resample of the given pixels from
/// one size to another. `image::imageops::resize` computes it from its
/// arguments alone.
pub uninterp spec fn lanczos_resized(
    pix: Seq<u32>,
    old_w: u32,
    old_h: u32,
    new_w: u32,
    new_h: u32,
) -> Seq<u32>;

/// The PNG stream that encodes the given pixels at the fixed compression
/// level and with per-pixel filtering off, as an RGBA8 buffer.
pub uninterp spec fn png_encoded(pix: Seq<u32>, w: u32, h: u32) -> Seq<u8>;

/// The JPEG stream that encodes the given pixels at the fixed quality
/// factor.
pub uninterp spec fn jpeg_encoded(pix: Seq<u32>, w: u32, h: u32) -> Seq<u8>;

/// Relies on `image::DynamicImage::width` and `height`: a decoded image
/// reports its own pixel dimensions.
#[verifier::external_body]
fn image_dims(img: &image::DynamicImage) -> (r: (u32, u32))
    ensures
        r.0 == image_width(*img),
        r.1 == image_height(*img),
{
    (img.width(), img.height())
}

/// Relies on `image::DynamicImage::resize_exact` with the Lanczos filter:
/// the result has exactly the requested dimensions and its pixels are a
/// function of the source pixels and both sizes alone.
#[verifier::external_body]
fn resize_lanczos(img: &image::DynamicImage, new_w: u32, new_h: u32) -> (r: image::DynamicImage)
    ensures
        image_width(r) == new_w,
        image_height(r) == new_h,
        image_pixels(r) == lanczos_resized(
            image_pixels(*img),
            image_width(*img),
            image_height(*img),
            new_w,
            new_h,
        ),
{
    img.resize_exact(new_w, new_h, image::imageops::FilterType::Lanczos3)
}

/// Relies on `image::codecs::png::PngEncoder::write_image` at compression
/// level 7 with filtering off, over the image's RGBA8 buffer: the stream
/// is a function of the pixels and dimensions alone, and encoding succeeds
/// exactly when both dimensions are nonzero — the fixed RGBA8 settings are
/// always accepted, the buffer written always has the byte length the
/// encoder expects (both come from the same image), and writing into the
/// in-memory buffer cannot fail.
#[verifier::external_body]
fn encode_png(img: &image::DynamicImage) -> (r: Result<Vec<u8>, MeshError>)
    ensures
        r is Ok <==> (image_width(*img) >= 1 && image_height(*img) >= 1),
        r matches Ok(b) ==> b@ == png_encoded(
            image_pixels(*img),
            image_width(*img),
            image_height(*img),
        ),
        r matches Err(e) ==> e == MeshError::EncodeError,
{
    let mut buf: Vec<u8> = Vec::new();
    let encoder = image::codecs::png::PngEncoder::new_with_quality(
        &mut buf,
        image::codecs::png::CompressionType::Level(7),
        image::codecs::png::FilterType::NoFilter,
    );
    let rgba = img.to_rgba8();
    let color = image::ExtendedColorType::Rgba8;
    match image::ImageEncoder::write_image(encoder, &rgba, img.width(), img.height(), color) {
        Ok(()) => Ok(buf),
        Err(_) => Err(MeshError::EncodeError),
    }
}

/// Relies on `image::codecs::jpeg::JpegEncoder::encode_image` at the fixed
/// quality factor 70: the stream is a function of the pixels and
/// dimensions alone, and encoding succeeds exactly when both dimensions
/// lie in 1..=65535 — anything else is its one error, and writing into the
/// in-memory buffer cannot fail.
#[verifier::external_body]
fn encode_jpeg(img: &image::DynamicImage) -> (r: Result<Vec<u8>, MeshError>)
    ensures
        r is Ok <==> (1 <= image_width(*img) <= 65535 && 1 <= image_height(*img) <= 65535),
        r matches Ok(b) ==> b@ == jpeg_encoded(
            image_pixels(*img),
            image_width(*img),
            image_height(*img),
        ),
        r matches Err(e) ==> e == MeshError::EncodeError,
{
    let mut buf: Vec<u8> = Vec::new();
    let mut encoder = image::codecs::jpeg::JpegEncoder::new_with_quality(&mut buf, 70);
    match encoder.encode_image(img) {
        Ok(()) => Ok(buf),
        Err(_) => Err(MeshError::EncodeError),
    }
}

/// The output dimensions for a source of the given size: sources at or
/// below the maximum height pass through; taller ones are scaled so the
/// height becomes the maximum, the width scaled by the same factor and
/// rounded to the nearest integer.
pub open spec fn spec_target_dims(w: u32, h: u32) -> (u32, u32) {
    if h <= MAX_THUMB_HEIGHT {
        (w, h)
    } else {
        ((((600 * (w as int) + h) / (2 * (h as int))) as u32), MAX_THUMB_HEIGHT)
    }
}

/// Computes the thumbnail dimensions for a source of the given size,
/// preserving the aspect ratio.
pub fn target_dims(w: u32, h: u32) -> (r: (u32, u32))
    ensures
        r == spec_target_dims(w, h),
{
    if h <= MAX_THUMB_HEIGHT {
        (w, h)
    } else {
        let num: u64 = 600u64 * (w as u64) + (h as u64);
        let den: u64 = 2u64 * (h as u64);
        let tw: u64 = num / den;
        proof {
            assert((600 * (w as int) + h) < 2 * (h as int) * ((w as int) + 1)) by (nonlinear_arith)
                requires
                    h > 300,
                    w >= 0,
            ;
            assert((600 * (w as int) + h) / (2 * (h as int)) <= w as int) by (nonlinear_arith)
                requires
                    h > 300,
                    w >= 0,
                    (600 * (w as int) + h) < 2 * (h as int) * ((w as int) + 1),
            ;
        }
        (tw as u32, MAX_THUMB_HEIGHT)
    }
}

/// Whether a source extension selects the PNG encode branch: extensions
/// are matched case-insensitively, and everything that is not `png` —
/// unknown and unsupported extensions included — falls back to JPEG.
pub open spec fn is_png_extension(ext: Seq<u8>) -> bool {
    lower_bytes(ext) == seq![112u8, 110u8, 103u8]
}

/// Decides the encode branch for a source extension.
pub fn takes_png_branch(source_extension: &str) -> (r: bool)
    ensures
        r == is_png_extension(source_extension.spec_bytes()),
{
    let lower = to_lower_bytes(source_extension.as_bytes());
    let r = lower.len() == 3 && lower[0] == 112 && lower[1] == 110 && lower[2] == 103;
    proof {
        if r {
            assert(lower@ =~= seq![112u8, 110u8, 103u8]);
        } else {
            assert(lower@ != seq![112u8, 110u8, 103u8]);
        }
    }
    r
}

/// Whether a transcode of a source with these dimensions and extension
/// succeeds: the target dimensions must be ones the chosen encoder
/// accepts — nonzero for PNG, and within 1..=65535 for JPEG.
pub open spec fn transcode_accepts(w: u32, h: u32, ext: Seq<u8>) -> bool {
    let dims = spec_target_dims(w, h);
    if is_png_extension(ext) {
        dims.0 >= 1 && dims.1 >= 1
    } else {
        1 <= dims.0 <= 65535 && 1 <= dims.1 <= 65535
    }
}

/// The bytes a transcode produces for the given source pixels, source
/// dimensions and source extension.
pub open spec fn transcoded_bytes(pix: Seq<u32>, w: u32, h: u32, ext: Seq<u8>) -> Seq<u8> {
    let dims = spec_target_dims(w, h);
    let resized = lanczos_resized(pix, w, h, dims.0, dims.1);
    if is_png_extension(ext) {
        png_encoded(resized, dims.0, dims.1)
    } else {
        jpeg_encoded(resized, dims.0, dims.1)
    }
}

/// Resizes a decoded image under the fixed size policy and re-encodes it
/// under the fixed format policy for its source extension.
///
/// The output is a pure function of the pixels, the source dimensions and
/// the extension: transcoding the same source twice gives byte-identical
/// blobs, and success is decided by the dimensions and extension alone.
/// Failures are per-file `EncodeError`s and never any other error.
pub fn transcode(img: &image::DynamicImage, source_extension: &str) -> (r: Result<
    Vec<u8>,
    MeshError,
>)
    ensures
        r is Ok <==> transcode_accepts(
            image_width(*img),
            image_height(*img),
            source_extension.spec_bytes(),
        ),
        r matches Ok(b) ==> b@ == transcoded_bytes(
            image_pixels(*img),
            image_width(*img),
            image_height(*img),
            source_extension.spec_bytes(),
        ),
        r matches Err(e) ==> e == MeshError::EncodeError,
{
    let dims = image_dims(img);
    let target = target_dims(dims.0, dims.1);
    let resized = resize_lanczos(img, target.0, target.1);
    if takes_png_branch(source_extension) {
        encode_png(&resized)
    } else {
        encode_jpeg(&resized)
    }
}

} // verus!
