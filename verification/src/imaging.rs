use vstd::prelude::*;

use crate::decode::FrameParts;
use crate::natural::same_ignoring_case;
use image::codecs::gif::GifDecoder;
use image::codecs::png::PngDecoder;
use image::{AnimationDecoder, ImageDecoder, ImageError, ImageFormat, RgbaImage};
use std::io::Cursor;

verus! {

#[verifier::external_type_specification]
#[verifier::external_body]
pub struct ExImageError(ImageError);

#[verifier::external_type_specification]
pub struct ExImageFormat(ImageFormat);

/// The format `ImageFormat::from_extension` maps an extension to, in any ASCII case.
pub open spec fn image_format_of(ext: Seq<char>) -> Option<ImageFormat> {
    if same_ignoring_case(ext, "avif"@) {
        Some(ImageFormat::Avif)
    } else if same_ignoring_case(ext, "jpg"@) || same_ignoring_case(ext, "jpeg"@)
        || same_ignoring_case(ext, "jfif"@) {
        Some(ImageFormat::Jpeg)
    } else if same_ignoring_case(ext, "png"@) || same_ignoring_case(ext, "apng"@) {
        Some(ImageFormat::Png)
    } else if same_ignoring_case(ext, "gif"@) {
        Some(ImageFormat::Gif)
    } else if same_ignoring_case(ext, "webp"@) {
        Some(ImageFormat::WebP)
    } else if same_ignoring_case(ext, "tif"@) || same_ignoring_case(ext, "tiff"@) {
        Some(ImageFormat::Tiff)
    } else if same_ignoring_case(ext, "tga"@) {
        Some(ImageFormat::Tga)
    } else if same_ignoring_case(ext, "dds"@) {
        Some(ImageFormat::Dds)
    } else if same_ignoring_case(ext, "bmp"@) {
        Some(ImageFormat::Bmp)
    } else if same_ignoring_case(ext, "ico"@) {
        Some(ImageFormat::Ico)
    } else if same_ignoring_case(ext, "hdr"@) {
        Some(ImageFormat::Hdr)
    } else if same_ignoring_case(ext, "exr"@) {
        Some(ImageFormat::OpenExr)
    } else if same_ignoring_case(ext, "pbm"@) || same_ignoring_case(ext, "pam"@)
        || same_ignoring_case(ext, "ppm"@) || same_ignoring_case(ext, "pgm"@)
        || same_ignoring_case(ext, "pnm"@) {
        Some(ImageFormat::Pnm)
    } else if same_ignoring_case(ext, "ff"@) {
        Some(ImageFormat::Farbfeld)
    } else if same_ignoring_case(ext, "qoi"@) {
        Some(ImageFormat::Qoi)
    } else {
        None
    }
}

/// Calls `image::ImageFormat::from_extension`, which lowercases the extension and
/// maps it through a fixed table. Trusted: the result is that table's entry,
/// `image_format_of`.
#[verifier::external_body]
pub(crate) fn format_from_extension(ext: &str) -> (r: Option<ImageFormat>)
    ensures
        r == image_format_of(ext@),
{
    ImageFormat::from_extension(ext)
}

/// The still image that the image crate decodes from `bytes` in `format`, as
/// width, height and RGBA8 bytes; `None` where it refuses the data.
pub uninterp spec fn still_rgba(bytes: Seq<u8>, format: ImageFormat) -> Option<(u32, u32, Seq<u8>)>;

/// Decodes the bytes with `image::load_from_memory_with_format` and turns the image
/// into RGBA8 (`to_rgba8`, `dimensions`, `into_raw`); the intermediate image values
/// are only ever passed from one of these calls to the next, so the calls stay together.
/// Trusted: the outcome depends on the bytes and the format alone, as `still_rgba`
/// names it, and the buffer holds exactly four bytes per pixel (the decoder fills a
/// buffer of `total_bytes`, and a conversion writes one pixel per pixel); which error
/// comes back is not stated.
#[verifier::external_body]
pub(crate) fn load_rgba(bytes: &[u8], format: ImageFormat) -> (r: Result<
    (u32, u32, Vec<u8>),
    ImageError,
>)
    ensures
        match r {
            Ok(t) => still_rgba(bytes@, format) == Some((t.0, t.1, t.2@)) && t.2@.len() == 4
                * t.0 * t.1,
            Err(_) => still_rgba(bytes@, format) is None,
        },
{
    let rgba = image::load_from_memory_with_format(bytes, format)?.to_rgba8();
    let (width, height) = rgba.dimensions();
    Ok((width, height, rgba.into_raw()))
}

/// Byte `c` of pixel (`x`, `y`) in a row-major RGBA8 buffer `w` pixels wide.
pub open spec fn pixel_byte(px: Seq<u8>, w: int, x: int, y: int, c: int) -> u8 {
    px[4 * (y * w + x) + c]
}

/// The RGBA8 buffer of a `w2` x `h2` image whose pixel (x, y) is pixel `src(x, y)`
/// of the `w`-wide image `px`.
pub open spec fn remapped(
    px: Seq<u8>,
    w: int,
    w2: int,
    h2: int,
    src: spec_fn(int, int) -> (int, int),
) -> Seq<u8> {
    Seq::new(
        (4 * w2 * h2) as nat,
        |i: int|
            {
                let p = i / 4;
                let s = src(p % w2, p / w2);
                pixel_byte(px, w, s.0, s.1, i % 4)
            },
    )
}

/// Mirrored left to right.
pub open spec fn rgba_flipped_horizontally(w: u32, h: u32, px: Seq<u8>) -> Seq<u8> {
    remapped(px, w as int, w as int, h as int, |x: int, y: int| (w - 1 - x, y))
}

/// Mirrored top to bottom.
pub open spec fn rgba_flipped_vertically(w: u32, h: u32, px: Seq<u8>) -> Seq<u8> {
    remapped(px, w as int, w as int, h as int, |x: int, y: int| (x, h - 1 - y))
}

/// Turned half a turn.
pub open spec fn rgba_rotated_180(w: u32, h: u32, px: Seq<u8>) -> Seq<u8> {
    remapped(px, w as int, w as int, h as int, |x: int, y: int| (w - 1 - x, h - 1 - y))
}

/// Turned a quarter turn clockwise: `h` wide and `w` high.
pub open spec fn rgba_rotated_90(w: u32, h: u32, px: Seq<u8>) -> Seq<u8> {
    remapped(px, w as int, h as int, w as int, |x: int, y: int| (y, h - 1 - x))
}

/// Turned three quarter turns clockwise: `h` wide and `w` high.
pub open spec fn rgba_rotated_270(w: u32, h: u32, px: Seq<u8>) -> Seq<u8> {
    remapped(px, w as int, h as int, w as int, |x: int, y: int| (w - 1 - y, x))
}

/// Calls `image::imageops::flip_horizontal` on the RGBA8 image. Trusted: as its
/// source writes pixel (x, y) to (w - 1 - x, y) of a new buffer of the same size.
#[verifier::external_body]
pub(crate) fn flip_horizontal(width: u32, height: u32, px: Vec<u8>) -> (r: Vec<u8>)
    requires
        px@.len() >= 4 * width * height,
    ensures
        r@ == rgba_flipped_horizontally(width, height, px@),
{
    image::imageops::flip_horizontal(&RgbaImage::from_raw(width, height, px).unwrap()).into_raw()
}

/// Calls `image::imageops::flip_vertical` on the RGBA8 image. Trusted: as its
/// source writes pixel (x, y) to (x, h - 1 - y) of a new buffer of the same size.
#[verifier::external_body]
pub(crate) fn flip_vertical(width: u32, height: u32, px: Vec<u8>) -> (r: Vec<u8>)
    requires
        px@.len() >= 4 * width * height,
    ensures
        r@ == rgba_flipped_vertically(width, height, px@),
{
    image::imageops::flip_vertical(&RgbaImage::from_raw(width, height, px).unwrap()).into_raw()
}

/// Calls `image::imageops::rotate180` on the RGBA8 image. Trusted: as its source
/// writes pixel (x, y) to (w - 1 - x, h - 1 - y) of a new buffer of the same size.
#[verifier::external_body]
pub(crate) fn rotate_180(width: u32, height: u32, px: Vec<u8>) -> (r: Vec<u8>)
    requires
        px@.len() >= 4 * width * height,
    ensures
        r@ == rgba_rotated_180(width, height, px@),
{
    image::imageops::rotate180(&RgbaImage::from_raw(width, height, px).unwrap()).into_raw()
}

/// Calls `image::imageops::rotate90` on the RGBA8 image. Trusted: as its source
/// writes pixel (x, y) to (h - 1 - y, x) of a new `h` x `w` buffer.
#[verifier::external_body]
pub(crate) fn rotate_90(width: u32, height: u32, px: Vec<u8>) -> (r: Vec<u8>)
    requires
        px@.len() >= 4 * width * height,
    ensures
        r@ == rgba_rotated_90(width, height, px@),
{
    image::imageops::rotate90(&RgbaImage::from_raw(width, height, px).unwrap()).into_raw()
}

/// Calls `image::imageops::rotate270` on the RGBA8 image. Trusted: as its source
/// writes pixel (x, y) to (y, w - 1 - x) of a new `h` x `w` buffer.
#[verifier::external_body]
pub(crate) fn rotate_270(width: u32, height: u32, px: Vec<u8>) -> (r: Vec<u8>)
    requires
        px@.len() >= 4 * width * height,
    ensures
        r@ == rgba_rotated_270(width, height, px@),
{
    image::imageops::rotate270(&RgbaImage::from_raw(width, height, px).unwrap()).into_raw()
}

/// The frames of an animation as width, height and, for each frame, its pixels and
/// its delay as `numer / denom` milliseconds.
pub open spec fn parts_view(parts: Seq<FrameParts>) -> Seq<(Seq<u8>, u32, u32)> {
    Seq::new(parts.len(), |k: int| (parts[k].rgba@, parts[k].delay_numer, parts[k].delay_denom))
}

/// Every frame has a nonzero delay denominator and exactly four bytes per pixel.
pub open spec fn parts_sound(width: u32, height: u32, parts: Seq<FrameParts>) -> bool {
    forall|k: int|
        0 <= k < parts.len() ==> (#[trigger] parts[k]).delay_denom > 0 && parts[k].rgba@.len()
            == 4 * width * height
}

/// What the image crate's GIF decoder makes of `bytes`; `None` where it refuses them.
pub uninterp spec fn gif_decoded(bytes: Seq<u8>) -> Option<(u32, u32, Seq<(Seq<u8>, u32, u32)>)>;

/// What the image crate's APNG decoder makes of `bytes`; `None` where it refuses them.
pub uninterp spec fn apng_decoded(bytes: Seq<u8>) -> Option<(u32, u32, Seq<(Seq<u8>, u32, u32)>)>;

/// Reads a GIF through `GifDecoder::new`, `dimensions`, `into_frames` and
/// `collect_frames`, and splits each frame into its pixels (`into_buffer`, `into_raw`)
/// and its delay (`delay`, `numer_denom_ms`). The decoder and frame values are only
/// ever passed from one of these calls to the next, so the calls stay together.
/// Trusted: the outcome depends on the bytes alone, as `gif_decoded` names it; every
/// frame is composited onto a canvas of the decoder's size, so it holds exactly four
/// bytes per pixel, and `Ratio::new` keeps each delay denominator nonzero.
#[verifier::external_body]
pub(crate) fn gif_frame_parts(bytes: &[u8]) -> (r: Result<(u32, u32, Vec<FrameParts>), ImageError>)
    ensures
        match r {
            Ok(t) => gif_decoded(bytes@) == Some((t.0, t.1, parts_view(t.2@))) && parts_sound(
                t.0,
                t.1,
                t.2@,
            ),
            Err(_) => gif_decoded(bytes@) is None,
        },
{
    let decoder = GifDecoder::new(Cursor::new(bytes))?;
    let (width, height) = decoder.dimensions();
    let frames = decoder.into_frames().collect_frames()?;
    Ok((width, height, frames.into_iter().map(|f| {
        let (delay_numer, delay_denom) = f.delay().numer_denom_ms();
        FrameParts { rgba: f.into_buffer().into_raw(), delay_numer, delay_denom }
    }).collect()))
}

/// Reads an APNG through `PngDecoder::new`, `dimensions`, `apng`, `into_frames` and
/// `collect_frames`, and splits each frame as `gif_frame_parts` does. Trusted: the
/// outcome depends on the bytes alone, as `apng_decoded` names it; every frame is a
/// copy of the canvas, exactly four bytes per pixel, and each delay denominator is
/// nonzero.
#[verifier::external_body]
pub(crate) fn apng_frame_parts(bytes: &[u8]) -> (r: Result<(u32, u32, Vec<FrameParts>), ImageError>)
    ensures
        match r {
            Ok(t) => apng_decoded(bytes@) == Some((t.0, t.1, parts_view(t.2@))) && parts_sound(
                t.0,
                t.1,
                t.2@,
            ),
            Err(_) => apng_decoded(bytes@) is None,
        },
{
    let decoder = PngDecoder::new(Cursor::new(bytes))?;
    let (width, height) = decoder.dimensions();
    let frames = decoder.apng()?.into_frames().collect_frames()?;
    Ok((width, height, frames.into_iter().map(|f| {
        let (delay_numer, delay_denom) = f.delay().numer_denom_ms();
        FrameParts { rgba: f.into_buffer().into_raw(), delay_numer, delay_denom }
    }).collect()))
}

/// Whether the PNG header in `bytes` reads (`Some`), and then whether it marks an
/// animation: what `PngDecoder::new` followed by `is_apng` gives for these bytes.
pub uninterp spec fn png_apng_flag(bytes: Seq<u8>) -> Option<bool>;

/// Reads a PNG header through `PngDecoder::new` and asks `is_apng`.
/// Trusted: the outcome depends on the bytes alone, as `png_apng_flag` names it;
/// which error comes back is not stated.
#[verifier::external_body]
pub(crate) fn png_is_apng(bytes: &[u8]) -> (r: Result<bool, ImageError>)
    ensures
        match r {
            Ok(b) => png_apng_flag(bytes@) == Some(b),
            Err(_) => png_apng_flag(bytes@) is None,
        },
{
    PngDecoder::new(Cursor::new(bytes))?.is_apng()
}

/// The EXIF orientation tag of the primary image in the container `bytes`: `None`
/// where no EXIF data reads, no such field is present, or it holds no unsigned integer.
pub uninterp spec fn exif_orientation_tag(bytes: Seq<u8>) -> Option<u32>;

/// Reads the EXIF data with `exif::Reader::read_from_container`, looks the
/// orientation field of the primary image up with `get_field`, and reads its first
/// value with `get_uint(0)`. The EXIF types carry nothing else the library needs, so
/// the calls stay together. Trusted: the outcome depends on the bytes alone, as
/// `exif_orientation_tag` names it.
#[verifier::external_body]
pub(crate) fn exif_orientation_of(bytes: &[u8]) -> (r: Option<u32>)
    ensures
        r == exif_orientation_tag(bytes@),
{
    let exif = exif::Reader::new().read_from_container(&mut Cursor::new(bytes)).ok()?;
    exif.get_field(exif::Tag::Orientation, exif::In::PRIMARY)?.value.get_uint(0)
}

} // verus!
