use crate::blob::Blob;
use vstd::prelude::*;

verus! {

// Each transcode stage is one pure function from encoded bytes to encoded
// bytes: decode with the source codec, re-encode with the destination codec.
// The image in between is never exposed. What each stage returns is a
// function of the input bytes alone, so it is given a name; the pipeline
// contracts speak of these names.

/// What decoding PNG bytes and re-encoding them as PNG returns;
/// `None` on bytes that are not a PNG image.
pub uninterp spec fn png_to_png_of(data: Seq<u8>) -> Option<Seq<u8>>;

/// What decoding PNG bytes and encoding them as JPEG returns.
pub uninterp spec fn png_to_jpg_of(data: Seq<u8>) -> Option<Seq<u8>>;

/// What decoding PNG bytes and encoding them as lossless WebP returns.
pub uninterp spec fn png_to_webp_of(data: Seq<u8>) -> Option<Seq<u8>>;

/// What decoding JPEG bytes and encoding them as PNG returns.
pub uninterp spec fn jpg_to_png_of(data: Seq<u8>) -> Option<Seq<u8>>;

/// What decoding JPEG bytes and encoding them as WebP returns.
pub uninterp spec fn jpg_to_webp_of(data: Seq<u8>) -> Option<Seq<u8>>;

/// What decoding WebP bytes and encoding them as PNG returns.
pub uninterp spec fn webp_to_png_of(data: Seq<u8>) -> Option<Seq<u8>>;

/// What decoding WebP bytes and encoding them as JPEG returns.
pub uninterp spec fn webp_to_jpg_of(data: Seq<u8>) -> Option<Seq<u8>>;

/// Relies on image's `load_from_memory_with_format` (PNG) and
/// `DynamicImage::write_to` (PNG): both depend on the bytes alone.
#[verifier::external_body]
pub(crate) fn png_to_png(data: &Blob) -> (r: Option<Blob>)
    ensures
        r is Some <==> png_to_png_of(data@) is Some,
        r is Some ==> r->0@ == png_to_png_of(data@)->0,
{
    let img = match image::load_from_memory_with_format(data.as_slice(), image::ImageFormat::Png) {
        Ok(i) => i,
        Err(_) => return None,
    };
    let mut out = std::io::Cursor::new(Vec::new());
    match img.write_to(&mut out, image::ImageFormat::Png) {
        Ok(()) => Some(Blob::new(out.into_inner())),
        Err(_) => None,
    }
}

/// Relies on image's `load_from_memory_with_format` (PNG) and
/// `DynamicImage::write_to` (JPEG, on the RGB8 view): both depend on the
/// bytes alone.
#[verifier::external_body]
pub(crate) fn png_to_jpg(data: &Blob) -> (r: Option<Blob>)
    ensures
        r is Some <==> png_to_jpg_of(data@) is Some,
        r is Some ==> r->0@ == png_to_jpg_of(data@)->0,
{
    let img = match image::load_from_memory_with_format(data.as_slice(), image::ImageFormat::Png) {
        Ok(i) => i,
        Err(_) => return None,
    };
    let mut out = std::io::Cursor::new(Vec::new());
    match image::DynamicImage::ImageRgb8(img.to_rgb8()).write_to(&mut out, image::ImageFormat::Jpeg)
    {
        Ok(()) => Some(Blob::new(out.into_inner())),
        Err(_) => None,
    }
}

/// Relies on image's `load_from_memory_with_format` (PNG) and
/// `DynamicImage::write_to` (lossless WebP): both depend on the bytes alone.
#[verifier::external_body]
pub(crate) fn png_to_webp(data: &Blob) -> (r: Option<Blob>)
    ensures
        r is Some <==> png_to_webp_of(data@) is Some,
        r is Some ==> r->0@ == png_to_webp_of(data@)->0,
{
    let img = match image::load_from_memory_with_format(data.as_slice(), image::ImageFormat::Png) {
        Ok(i) => i,
        Err(_) => return None,
    };
    let mut out = std::io::Cursor::new(Vec::new());
    match img.write_to(&mut out, image::ImageFormat::WebP) {
        Ok(()) => Some(Blob::new(out.into_inner())),
        Err(_) => None,
    }
}

/// Relies on image's `load_from_memory_with_format` (JPEG) and
/// `DynamicImage::write_to` (PNG): both depend on the bytes alone.
#[verifier::external_body]
pub(crate) fn jpg_to_png(data: &Blob) -> (r: Option<Blob>)
    ensures
        r is Some <==> jpg_to_png_of(data@) is Some,
        r is Some ==> r->0@ == jpg_to_png_of(data@)->0,
{
    let img = match image::load_from_memory_with_format(data.as_slice(), image::ImageFormat::Jpeg) {
        Ok(i) => i,
        Err(_) => return None,
    };
    let mut out = std::io::Cursor::new(Vec::new());
    match img.write_to(&mut out, image::ImageFormat::Png) {
        Ok(()) => Some(Blob::new(out.into_inner())),
        Err(_) => None,
    }
}

/// Relies on image's `load_from_memory_with_format` (JPEG) and
/// `DynamicImage::write_to` (lossless WebP): both depend on the bytes alone.
#[verifier::external_body]
pub(crate) fn jpg_to_webp(data: &Blob) -> (r: Option<Blob>)
    ensures
        r is Some <==> jpg_to_webp_of(data@) is Some,
        r is Some ==> r->0@ == jpg_to_webp_of(data@)->0,
{
    let img = match image::load_from_memory_with_format(data.as_slice(), image::ImageFormat::Jpeg) {
        Ok(i) => i,
        Err(_) => return None,
    };
    let mut out = std::io::Cursor::new(Vec::new());
    match img.write_to(&mut out, image::ImageFormat::WebP) {
        Ok(()) => Some(Blob::new(out.into_inner())),
        Err(_) => None,
    }
}

/// Relies on image's `load_from_memory_with_format` (WebP) and
/// `DynamicImage::write_to` (PNG): both depend on the bytes alone.
#[verifier::external_body]
pub(crate) fn webp_to_png(data: &Blob) -> (r: Option<Blob>)
    ensures
        r is Some <==> webp_to_png_of(data@) is Some,
        r is Some ==> r->0@ == webp_to_png_of(data@)->0,
{
    let img = match image::load_from_memory_with_format(data.as_slice(), image::ImageFormat::WebP) {
        Ok(i) => i,
        Err(_) => return None,
    };
    let mut out = std::io::Cursor::new(Vec::new());
    match img.write_to(&mut out, image::ImageFormat::Png) {
        Ok(()) => Some(Blob::new(out.into_inner())),
        Err(_) => None,
    }
}

/// Relies on image's `load_from_memory_with_format` (WebP) and
/// `DynamicImage::write_to` (JPEG, on the RGB8 view): both depend on the
/// bytes alone.
#[verifier::external_body]
pub(crate) fn webp_to_jpg(data: &Blob) -> (r: Option<Blob>)
    ensures
        r is Some <==> webp_to_jpg_of(data@) is Some,
        r is Some ==> r->0@ == webp_to_jpg_of(data@)->0,
{
    let img = match image::load_from_memory_with_format(data.as_slice(), image::ImageFormat::WebP) {
        Ok(i) => i,
        Err(_) => return None,
    };
    let mut out = std::io::Cursor::new(Vec::new());
    match image::DynamicImage::ImageRgb8(img.to_rgb8()).write_to(&mut out, image::ImageFormat::Jpeg)
    {
        Ok(()) => Some(Blob::new(out.into_inner())),
        Err(_) => None,
    }
}

} // verus!
