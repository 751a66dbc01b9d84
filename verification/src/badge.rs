//! The badge image placed on a certificate: decoding it, separating colour
//! from transparency, and compressing each stream for the PDF.

use vstd::prelude::*;

verus! {

#[verifier::external_type_specification]
#[verifier::external_body]
pub struct ExImageError(image::ImageError);

#[verifier::external_type_specification]
#[verifier::external_body]
pub struct ExIoError(std::io::Error);

/// The zlib stream that default-level compression makes of `data`.
pub uninterp spec fn zlib_compressed(data: Seq<u8>) -> Seq<u8>;

/// Decodes an image and converts it to 8-bit RGB: width, height and pixel
/// bytes. The outer error is that of guessing the format, the inner one that
/// of decoding.
///
/// Trusted: `image::ImageReader::new` over a `std::io::Cursor`, then
/// `with_guessed_format`, `decode`, `DynamicImage::to_rgb8`, `dimensions` and
/// `into_raw`. Format guessing and decoding first consult the crate's
/// process-wide registries of format and decoder hooks, so the same bytes
/// need not give the same image, and the image is not named. What holds of
/// every success is stated: `DynamicImage::from_decoder` accepts a pixel
/// buffer only through `ImageBuffer::from_raw`, which requires at least three
/// bytes a pixel, and a conversion to RGB allocates exactly that many. A
/// decoder's buffer may be longer, so the length is not stated exactly.
#[verifier::external_body]
fn decode_rgb8(png: &[u8]) -> (r: Result<Result<(u32, u32, Vec<u8>), image::ImageError>, std::io::Error>)
    ensures
        r matches Ok(Ok((w, h, px))) ==> px@.len() >= 3 * (w as int) * (h as int),
{
    let reader = match image::ImageReader::new(std::io::Cursor::new(png)).with_guessed_format() {
        Ok(reader) => reader,
        Err(err) => return Err(err),
    };
    match reader.decode() {
        Ok(img) => {
            let rgb = img.to_rgb8();
            let (w, h) = rgb.dimensions();
            Ok(Ok((w, h, rgb.into_raw())))
        },
        Err(err) => Ok(Err(err)),
    }
}

/// Decodes an image and converts it to 8-bit RGBA: width, height and pixel
/// bytes. The outer error is that of guessing the format, the inner one that
/// of decoding.
///
/// Trusted: as `decode_rgb8`, with `DynamicImage::to_rgba8` in place of
/// `to_rgb8`; a success holds at least four bytes a pixel.
#[verifier::external_body]
fn decode_rgba8(png: &[u8]) -> (r: Result<Result<(u32, u32, Vec<u8>), image::ImageError>, std::io::Error>)
    ensures
        r matches Ok(Ok((w, h, px))) ==> px@.len() >= 4 * (w as int) * (h as int),
{
    let reader = match image::ImageReader::new(std::io::Cursor::new(png)).with_guessed_format() {
        Ok(reader) => reader,
        Err(err) => return Err(err),
    };
    match reader.decode() {
        Ok(img) => {
            let rgba = img.to_rgba8();
            let (w, h) = rgba.dimensions();
            Ok(Ok((w, h, rgba.into_raw())))
        },
        Err(err) => Ok(Err(err)),
    }
}

/// Compresses `data` into a zlib stream at the default level. The outer
/// result is that of writing the data, the inner one that of finishing.
///
/// Trusted: `flate2::write::ZlibEncoder::new` over a `Vec<u8>` with
/// `flate2::Compression::default()`, then `write_all` and `finish`. Both
/// succeed: the encoder's output goes into a `Vec`, whose writes never fail,
/// and the miniz_oxide compressor fails only on parameters that the default
/// level never gives. The stream is given the name `zlib_compressed`.
#[verifier::external_body]
fn zlib_compress(data: &[u8]) -> (r: Result<Result<Vec<u8>, std::io::Error>, std::io::Error>)
    ensures
        match r {
            Ok(Ok(v)) => v@ == zlib_compressed(data@),
            _ => false,
        },
{
    let mut encoder = flate2::write::ZlibEncoder::new(Vec::new(), flate2::Compression::default());
    match std::io::Write::write_all(&mut encoder, data) {
        Ok(()) => {},
        Err(err) => return Err(err),
    }
    Ok(encoder.finish())
}

/// Why a badge could not be prepared, with the underlying error.
#[derive(Debug)]
pub enum BadgeError {
    /// The image format could not be determined.
    Format(std::io::Error),
    /// The image could not be decoded.
    Decode(image::ImageError),
}

/// A badge ready for the PDF: its size, its compressed colour stream and,
/// where transparency is kept, its compressed transparency stream.
#[derive(Debug)]
pub struct BadgeImage {
    pub width: u32,
    pub height: u32,
    pub rgb_stream: Vec<u8>,
    pub alpha_stream: Option<Vec<u8>>,
}

/// The colour bytes of the first `pixels` RGBA pixels of `raw`.
pub open spec fn color_channels(raw: Seq<u8>, pixels: nat) -> Seq<u8>
    decreases pixels,
{
    if pixels == 0 {
        Seq::empty()
    } else {
        let p = (pixels - 1) as nat;
        color_channels(raw, p) + raw.subrange(4 * p as int, 4 * p as int + 3)
    }
}

/// The transparency bytes of the first `pixels` RGBA pixels of `raw`.
pub open spec fn alpha_channel(raw: Seq<u8>, pixels: nat) -> Seq<u8>
    decreases pixels,
{
    if pixels == 0 {
        Seq::empty()
    } else {
        let p = (pixels - 1) as nat;
        alpha_channel(raw, p).push(raw[4 * p as int + 3])
    }
}

/// Splits RGBA pixel bytes into the RGB bytes and the alpha bytes of every
/// whole four-byte pixel; bytes after the last whole pixel are left out.
pub fn split_rgba(raw: &[u8]) -> (r: (Vec<u8>, Vec<u8>))
    ensures
        r.0@ == color_channels(raw@, (raw@.len() / 4) as nat),
        r.1@ == alpha_channel(raw@, (raw@.len() / 4) as nat),
{
    let pixels = raw.len() / 4;
    let mut rgb: Vec<u8> = Vec::new();
    let mut alpha: Vec<u8> = Vec::new();
    let len = raw.len();
    assert(4 * pixels <= len) by (nonlinear_arith)
        requires
            pixels == len / 4,
    ;
    for p in 0..pixels
        invariant
            pixels == raw@.len() / 4,
            len == raw@.len(),
            4 * pixels <= raw@.len(),
            rgb@ == color_channels(raw@, p as nat),
            alpha@ == alpha_channel(raw@, p as nat),
    {
        let base = 4 * p;
        rgb.push(raw[base]);
        rgb.push(raw[base + 1]);
        rgb.push(raw[base + 2]);
        alpha.push(raw[base + 3]);
        assert(rgb@ =~= color_channels(raw@, (p + 1) as nat));
    }
    (rgb, alpha)
}

/// `data` compressed into a zlib stream at the default level.
fn compress(data: &[u8]) -> (stream: Vec<u8>)
    ensures
        stream@ == zlib_compressed(data@),
{
    match zlib_compress(data) {
        Ok(Ok(stream)) => stream,
        _ => {
            proof {
                assert(false);
            }
            Vec::new()
        },
    }
}

/// A badge without transparency, from decoded RGB pixels: the pixels
/// compressed as they are.
pub open spec fn rgb_badge(badge: BadgeImage, width: u32, height: u32, pixels: Seq<u8>) -> bool {
    &&& badge.width == width
    &&& badge.height == height
    &&& badge.rgb_stream@ == zlib_compressed(pixels)
    &&& badge.alpha_stream is None
}

/// A badge with transparency, from decoded RGBA pixels: colour and alpha
/// bytes of every whole pixel, each compressed.
pub open spec fn rgba_badge(badge: BadgeImage, width: u32, height: u32, pixels: Seq<u8>) -> bool {
    &&& badge.width == width
    &&& badge.height == height
    &&& badge.rgb_stream@ == zlib_compressed(color_channels(pixels, (pixels.len() / 4) as nat))
    &&& badge.alpha_stream matches Some(a)
    &&& a@ == zlib_compressed(alpha_channel(pixels, (pixels.len() / 4) as nat))
}

/// Prepares a badge without transparency from a decoded RGB image.
pub fn badge_from_rgb(width: u32, height: u32, pixels: &[u8]) -> (badge: BadgeImage)
    ensures
        rgb_badge(badge, width, height, pixels@),
{
    BadgeImage { width, height, rgb_stream: compress(pixels), alpha_stream: None }
}

/// Prepares a badge with transparency from a decoded RGBA image: colour and
/// alpha are split and compressed apart.
pub fn badge_from_rgba(width: u32, height: u32, pixels: &[u8]) -> (badge: BadgeImage)
    ensures
        rgba_badge(badge, width, height, pixels@),
{
    let (rgb, alpha) = split_rgba(pixels);
    BadgeImage { width, height, rgb_stream: compress(rgb.as_slice()), alpha_stream: Some(compress(alpha.as_slice())) }
}

/// Prepares a badge without transparency: the image decoded as RGB, then
/// compressed. What decoding gives is not determined by the bytes alone (see
/// `decode_rgb8`); whatever it gives, a badge that comes back is that of some
/// RGB image with at least three bytes a pixel, and only the two decoding
/// errors can come.
pub fn encode_badge_stream(png_bytes: &[u8]) -> (r: Result<BadgeImage, BadgeError>)
    ensures
        r matches Ok(badge) ==> exists|w: u32, h: u32, px: Seq<u8>|
            #[trigger] rgb_badge(badge, w, h, px) && px.len() >= 3 * (w as int) * (h as int),
        r matches Err(e) ==> e is Format || e is Decode,
{
    let (width, height, pixels) = match decode_rgb8(png_bytes) {
        Ok(Ok(decoded)) => decoded,
        Ok(Err(err)) => return Err(BadgeError::Decode(err)),
        Err(err) => return Err(BadgeError::Format(err)),
    };
    let badge = badge_from_rgb(width, height, pixels.as_slice());
    assert(rgb_badge(badge, width, height, pixels@));
    Ok(badge)
}

/// Prepares a badge with transparency: the image decoded as RGBA, then split
/// and compressed. As for `encode_badge_stream`, a badge that comes back is
/// that of some RGBA image with at least four bytes a pixel, and only the two
/// decoding errors can come.
pub fn encode_badge_streams(png_bytes: &[u8]) -> (r: Result<BadgeImage, BadgeError>)
    ensures
        r matches Ok(badge) ==> exists|w: u32, h: u32, px: Seq<u8>|
            #[trigger] rgba_badge(badge, w, h, px) && px.len() >= 4 * (w as int) * (h as int),
        r matches Err(e) ==> e is Format || e is Decode,
{
    let (width, height, pixels) = match decode_rgba8(png_bytes) {
        Ok(Ok(decoded)) => decoded,
        Ok(Err(err)) => return Err(BadgeError::Decode(err)),
        Err(err) => return Err(BadgeError::Format(err)),
    };
    let badge = badge_from_rgba(width, height, pixels.as_slice());
    assert(rgba_badge(badge, width, height, pixels@));
    Ok(badge)
}

} // verus!
