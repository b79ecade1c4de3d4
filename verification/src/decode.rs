use vstd::prelude::*;

use crate::dirscan::path_extension;
use crate::imaging::{
    apng_decoded, apng_frame_parts, exif_orientation_tag, flip_horizontal, flip_vertical,
    format_from_extension, gif_decoded, gif_frame_parts, image_format_of, load_rgba,
    parts_sound, parts_view, png_apng_flag, png_is_apng, rgba_flipped_horizontally,
    rgba_flipped_vertically, rgba_rotated_180, rgba_rotated_270, rgba_rotated_90, rotate_180,
    rotate_270, rotate_90, still_rgba,
};
use crate::natural::{
    is_ascii_upper, lemma_lowercase_keeps_lower, lemma_same_ignoring_case_is_same_lowercase,
    lowercase, same_ignoring_case,
};

verus! {

/// Delays below this many nanoseconds are treated as authoring mistakes (many
/// GIF encoders emit 0 ms) and bumped up, matching common browser and viewer behaviour.
pub const MIN_FRAME_DELAY_NS: u64 = 20_000_000;

/// The delay that replaces one below `MIN_FRAME_DELAY_NS`.
pub const DEFAULT_FRAME_DELAY_NS: u64 = 100_000_000;

pub struct DecodedFrame {
    /// Tightly packed RGBA8 pixels, row-major.
    pub rgba: Vec<u8>,
    /// How long the frame stays on screen, in nanoseconds.
    pub delay_ns: u64,
}

pub struct DecodedImage {
    pub width: u32,
    pub height: u32,
    /// Always has at least one frame. More than one means animated.
    pub frames: Vec<DecodedFrame>,
}

impl DecodedImage {
    /// A decoded image holds at least one frame.
    pub open spec fn wf(&self) -> bool {
        self.frames.len() >= 1
    }

    pub fn is_animated(&self) -> (r: bool)
        ensures
            r == (self.frames.len() > 1),
    {
        self.frames.len() > 1
    }
}

pub open spec fn clamped_delay(ns: u64) -> u64 {
    if ns < MIN_FRAME_DELAY_NS {
        DEFAULT_FRAME_DELAY_NS
    } else {
        ns
    }
}

/// Replaces a delay below the minimum by the default one; every result is at
/// least the minimum.
pub fn clamp_delay(ns: u64) -> (r: u64)
    ensures
        r == clamped_delay(ns),
        r >= MIN_FRAME_DELAY_NS,
        ns >= MIN_FRAME_DELAY_NS ==> r == ns,
        ns < MIN_FRAME_DELAY_NS ==> r == DEFAULT_FRAME_DELAY_NS,
{
    if ns < MIN_FRAME_DELAY_NS {
        DEFAULT_FRAME_DELAY_NS
    } else {
        ns
    }
}

/// A frame delay of at least 20 ms is kept as it is, however long; only a shorter
/// one is replaced, by 100 ms.
pub proof fn lemma_clamping_keeps_long_delays(ns: u64)
    ensures
        ns >= 20_000_000 ==> clamped_delay(ns) == ns,
        ns < 20_000_000 ==> clamped_delay(ns) == 100_000_000,
{
}

/// The length, in nanoseconds, of a delay of `numer / denom` milliseconds: the
/// whole milliseconds, plus the remainder's nanoseconds rounded down.
pub open spec fn delay_nanos(numer: u32, denom: u32) -> nat {
    ((numer / denom) * 1_000_000 + ((numer % denom) * 1_000_000) / (denom as int)) as nat
}

/// Converts a frame delay of `numer / denom` milliseconds to nanoseconds.
pub fn delay_to_nanos(numer: u32, denom: u32) -> (r: u64)
    requires
        denom > 0,
    ensures
        r == delay_nanos(numer, denom),
{
    let ms: u64 = (numer / denom) as u64;
    let rest: u64 = (numer % denom) as u64;
    assert(ms <= u32::MAX);
    assert(rest < denom);
    assert(ms * 1_000_000 <= 4_294_967_295_000_000) by (nonlinear_arith)
        requires
            ms <= u32::MAX,
    ;
    assert(rest * 1_000_000 <= 4_294_967_295_000_000) by (nonlinear_arith)
        requires
            rest <= u32::MAX,
    ;
    let sub: u64 = (rest * 1_000_000) / (denom as u64);
    assert(sub <= rest * 1_000_000) by (nonlinear_arith)
        requires
            denom >= 1,
            sub == (rest * 1_000_000) / (denom as int),
            rest * 1_000_000 >= 0,
    ;
    ms * 1_000_000 + sub
}

/// One frame as the decoder handed it over: its pixels and its delay of
/// `delay_numer / delay_denom` milliseconds.
pub struct FrameParts {
    pub rgba: Vec<u8>,
    pub delay_numer: u32,
    pub delay_denom: u32,
}

pub enum DecodeError {
    /// The image crate refused the data.
    Image(image::ImageError),
    /// The path's extension names no format the image crate decodes.
    UnsupportedFormat,
    /// An animation held no frame.
    NoFrames,
}

/// Turns the frames of an animation into displayable frames, each delay
/// converted to nanoseconds and clamped; an animation without frames is an error.
pub fn collect_frames(parts: Vec<FrameParts>) -> (r: Result<Vec<DecodedFrame>, DecodeError>)
    requires
        forall|k: int| 0 <= k < parts@.len() ==> (#[trigger] parts@[k]).delay_denom > 0,
    ensures
        parts@.len() == 0 <==> r matches Err(DecodeError::NoFrames),
        r is Ok || r matches Err(DecodeError::NoFrames),
        r matches Ok(out) ==> {
            &&& out@.len() == parts@.len()
            &&& forall|k: int|
                0 <= k < out@.len() ==> {
                    &&& (#[trigger] out@[k]).rgba@ == parts@[k].rgba@
                    &&& out@[k].delay_ns == clamped_delay(
                        delay_nanos(parts@[k].delay_numer, parts@[k].delay_denom) as u64,
                    )
                }
        },
{
    let ghost input = parts@;
    let mut out: Vec<DecodedFrame> = Vec::new();
    for part in it: parts
        invariant
            it.seq() == input,
            out@.len() == it.index(),
            forall|k: int| 0 <= k < input.len() ==> (#[trigger] input[k]).delay_denom > 0,
            forall|k: int|
                0 <= k < out@.len() ==> {
                    &&& (#[trigger] out@[k]).rgba@ == input[k].rgba@
                    &&& out@[k].delay_ns == clamped_delay(
                        delay_nanos(input[k].delay_numer, input[k].delay_denom) as u64,
                    )
                },
    {
        let delay_ns = clamp_delay(delay_to_nanos(part.delay_numer, part.delay_denom));
        out.push(DecodedFrame { rgba: part.rgba, delay_ns });
    }
    if out.len() == 0 {
        return Err(DecodeError::NoFrames);
    }
    Ok(out)
}

} // verus!

verus! {

/// How to turn a stored image upright, by its EXIF orientation tag.
#[derive(PartialEq, Eq, Structural, Clone, Copy, Debug)]
pub enum Orientation {
    AsStored,
    FlipHorizontal,
    Rotate180,
    FlipVertical,
    Rotate90FlipHorizontal,
    Rotate90,
    Rotate270FlipHorizontal,
    Rotate270,
}

/// The transformation that EXIF orientation `tag` asks for; an absent or
/// unknown tag leaves the image as stored.
pub open spec fn orientation_for(tag: Option<u32>) -> Orientation {
    match tag {
        Some(2) => Orientation::FlipHorizontal,
        Some(3) => Orientation::Rotate180,
        Some(4) => Orientation::FlipVertical,
        Some(5) => Orientation::Rotate90FlipHorizontal,
        Some(6) => Orientation::Rotate90,
        Some(7) => Orientation::Rotate270FlipHorizontal,
        Some(8) => Orientation::Rotate270,
        _ => Orientation::AsStored,
    }
}

pub fn orientation_from_tag(tag: Option<u32>) -> (r: Orientation)
    ensures
        r == orientation_for(tag),
{
    match tag {
        Some(2) => Orientation::FlipHorizontal,
        Some(3) => Orientation::Rotate180,
        Some(4) => Orientation::FlipVertical,
        Some(5) => Orientation::Rotate90FlipHorizontal,
        Some(6) => Orientation::Rotate90,
        Some(7) => Orientation::Rotate270FlipHorizontal,
        Some(8) => Orientation::Rotate270,
        _ => Orientation::AsStored,
    }
}

/// The EXIF orientation tag of the primary image in the container, if it has one.
fn read_exif_orientation(bytes: &[u8]) -> (r: Option<u32>)
    ensures
        r == crate::imaging::exif_orientation_tag(bytes@),
{
    crate::imaging::exif_orientation_of(bytes)
}

/// The image (width, height, RGBA8 bytes) turned by `orientation`.
pub open spec fn oriented(w: u32, h: u32, px: Seq<u8>, orientation: Orientation) -> (
    u32,
    u32,
    Seq<u8>,
) {
    match orientation {
        Orientation::AsStored => (w, h, px),
        Orientation::FlipHorizontal => (w, h, rgba_flipped_horizontally(w, h, px)),
        Orientation::Rotate180 => (w, h, rgba_rotated_180(w, h, px)),
        Orientation::FlipVertical => (w, h, rgba_flipped_vertically(w, h, px)),
        Orientation::Rotate90FlipHorizontal => (
            h,
            w,
            rgba_flipped_horizontally(h, w, rgba_rotated_90(w, h, px)),
        ),
        Orientation::Rotate90 => (h, w, rgba_rotated_90(w, h, px)),
        Orientation::Rotate270FlipHorizontal => (
            h,
            w,
            rgba_flipped_horizontally(h, w, rgba_rotated_270(w, h, px)),
        ),
        Orientation::Rotate270 => (h, w, rgba_rotated_270(w, h, px)),
    }
}

/// Applies the transformation that turns the image upright.
fn apply_orientation(width: u32, height: u32, px: Vec<u8>, orientation: Orientation) -> (r: (
    u32,
    u32,
    Vec<u8>,
))
    requires
        px@.len() == 4 * width * height,
    ensures
        (r.0, r.1, r.2@) == oriented(width, height, px@, orientation),
        r.2@.len() == 4 * r.0 * r.1,
{
    match orientation {
        Orientation::AsStored => (width, height, px),
        Orientation::FlipHorizontal => (width, height, flip_horizontal(width, height, px)),
        Orientation::Rotate180 => (width, height, rotate_180(width, height, px)),
        Orientation::FlipVertical => (width, height, flip_vertical(width, height, px)),
        Orientation::Rotate90FlipHorizontal => {
            let turned = rotate_90(width, height, px);
            (height, width, flip_horizontal(height, width, turned))
        },
        Orientation::Rotate90 => (height, width, rotate_90(width, height, px)),
        Orientation::Rotate270FlipHorizontal => {
            let turned = rotate_270(width, height, px);
            (height, width, flip_horizontal(height, width, turned))
        },
        Orientation::Rotate270 => (height, width, rotate_270(width, height, px)),
    }
}

/// Turns the image upright by the EXIF orientation found in `bytes`.
fn apply_exif_orientation(width: u32, height: u32, px: Vec<u8>, bytes: &[u8]) -> (r: (
    u32,
    u32,
    Vec<u8>,
))
    requires
        px@.len() == 4 * width * height,
    ensures
        (r.0, r.1, r.2@) == oriented(
            width,
            height,
            px@,
            orientation_for(crate::imaging::exif_orientation_tag(bytes@)),
        ),
        r.2@.len() == 4 * r.0 * r.1,
{
    apply_orientation(width, height, px, orientation_from_tag(read_exif_orientation(bytes)))
}

/// The format the image crate reads a path with: the one its (nonempty) extension names.
pub open spec fn static_format(path: Seq<char>) -> Option<image::ImageFormat> {
    match path_extension(path) {
        Some(e) => if e.len() > 0 {
            image_format_of(e)
        } else {
            None
        },
        None => None,
    }
}

pub open spec fn static_format_known(path: Seq<char>) -> bool {
    static_format(path) is Some
}

/// Every frame is tightly packed: exactly four bytes per pixel of the image.
pub open spec fn frames_cover(img: DecodedImage) -> bool {
    forall|k: int|
        0 <= k < img.frames@.len() ==> (#[trigger] img.frames@[k]).rgba@.len() == 4 * img.width
            * img.height
}

/// The outcome of decoding a still image: an unknown format is refused, data the
/// image crate refuses is an image error, and otherwise the decoded image, turned
/// upright by its EXIF orientation, is the one frame, without delay.
pub open spec fn still_result(path: Seq<char>, bytes: Seq<u8>, r: Result<DecodedImage, DecodeError>) -> bool {
    match static_format(path) {
        None => r matches Err(DecodeError::UnsupportedFormat),
        Some(format) => match still_rgba(bytes, format) {
            None => r matches Err(DecodeError::Image(_)),
            Some(s) => r matches Ok(img) && {
                let o = oriented(s.0, s.1, s.2, orientation_for(exif_orientation_tag(bytes)));
                &&& img.width == o.0
                &&& img.height == o.1
                &&& img.frames@.len() == 1
                &&& img.frames@[0].rgba@ == o.2
                &&& img.frames@[0].delay_ns == 0
            },
        },
    }
}

/// `img` is the animation `a` (width, height, and each frame's pixels with its delay
/// as a fraction of milliseconds): one frame per source frame, in order, pixels kept,
/// each delay converted to nanoseconds and clamped.
pub open spec fn is_animation_of(img: DecodedImage, a: (u32, u32, Seq<(Seq<u8>, u32, u32)>)) -> bool {
    &&& img.width == a.0
    &&& img.height == a.1
    &&& img.frames@.len() == a.2.len()
    &&& forall|k: int|
        0 <= k < a.2.len() ==> {
            &&& (#[trigger] img.frames@[k]).rgba@ == a.2[k].0
            &&& img.frames@[k].delay_ns == clamped_delay(delay_nanos(a.2[k].1, a.2[k].2) as u64)
        }
}

/// The outcome of decoding an animation: data the decoder refuses is an image
/// error, an animation without frames is `NoFrames`, and otherwise its frames.
pub open spec fn animation_result(
    decoded: Option<(u32, u32, Seq<(Seq<u8>, u32, u32)>)>,
    r: Result<DecodedImage, DecodeError>,
) -> bool {
    match decoded {
        None => r matches Err(DecodeError::Image(_)),
        Some(a) => if a.2.len() == 0 {
            r matches Err(DecodeError::NoFrames)
        } else {
            r matches Ok(img) && is_animation_of(img, a)
        },
    }
}

/// The outcome of decoding a PNG: a bad header is an image error, an animated PNG
/// decodes as an animation, any other as a still image.
pub open spec fn png_result(path: Seq<char>, bytes: Seq<u8>, r: Result<DecodedImage, DecodeError>) -> bool {
    match png_apng_flag(bytes) {
        None => r matches Err(DecodeError::Image(_)),
        Some(true) => animation_result(apng_decoded(bytes), r),
        Some(false) => still_result(path, bytes, r),
    }
}

/// Decodes a still image of the format that the path's extension names, turns it
/// upright by its EXIF orientation, and gives it as one RGBA frame without delay.
pub fn decode_static(path: &str, bytes: &[u8]) -> (r: Result<DecodedImage, DecodeError>)
    ensures
        still_result(path@, bytes@, r),
        r matches Ok(img) ==> img.wf() && frames_cover(img),
{
    let ext = match crate::dirscan::path_extension_of(path) {
        Some(e) => e,
        None => return Err(DecodeError::UnsupportedFormat),
    };
    if ext.as_str().is_empty() {
        return Err(DecodeError::UnsupportedFormat);
    }
    let format = match format_from_extension(ext.as_str()) {
        Some(f) => f,
        None => return Err(DecodeError::UnsupportedFormat),
    };
    let (width, height, rgba) = match load_rgba(bytes, format) {
        Ok(t) => t,
        Err(e) => return Err(DecodeError::Image(e)),
    };
    let (width, height, rgba) = apply_exif_orientation(width, height, rgba, bytes);
    let frames = vec![DecodedFrame { rgba, delay_ns: 0 }];
    let img = DecodedImage { width, height, frames };
    assert(img.frames@[0].rgba@.len() == 4 * img.width * img.height);
    Ok(img)
}

/// Turns the frames of an animation into a decoded image of the given size.
pub fn decode_frames(width: u32, height: u32, parts: Vec<FrameParts>) -> (r: Result<
    DecodedImage,
    DecodeError,
>)
    requires
        forall|k: int| 0 <= k < parts@.len() ==> (#[trigger] parts@[k]).delay_denom > 0,
    ensures
        parts@.len() == 0 ==> r matches Err(DecodeError::NoFrames),
        parts@.len() > 0 ==> (r matches Ok(img) && is_animation_of(
            img,
            (width, height, parts_view(parts@)),
        )),
        r matches Ok(img) ==> img.wf() && (parts_sound(width, height, parts@) ==> frames_cover(
            img,
        )),
{
    let ghost input = parts@;
    match collect_frames(parts) {
        Ok(out) => {
            let img = DecodedImage { width, height, frames: out };
            proof {
                assert forall|k: int| 0 <= k < input.len() implies {
                    &&& (#[trigger] img.frames@[k]).rgba@ == parts_view(input)[k].0
                    &&& img.frames@[k].delay_ns == clamped_delay(
                        delay_nanos(parts_view(input)[k].1, parts_view(input)[k].2) as u64,
                    )
                } by {}
                if parts_sound(width, height, input) {
                    assert forall|k: int| 0 <= k < img.frames@.len() implies (
                    #[trigger] img.frames@[k]).rgba@.len() == 4 * img.width * img.height by {
                        assert(input[k].rgba@.len() == 4 * width * height);
                    }
                }
            }
            Ok(img)
        },
        Err(e) => Err(e),
    }
}

} // verus!

verus! {

/// Decodes an animated GIF into its frames.
pub fn decode_gif(bytes: &[u8]) -> (r: Result<DecodedImage, DecodeError>)
    ensures
        animation_result(gif_decoded(bytes@), r),
        r matches Ok(img) ==> img.wf() && frames_cover(img),
{
    let (width, height, parts) = match gif_frame_parts(bytes) {
        Ok(t) => t,
        Err(e) => return Err(DecodeError::Image(e)),
    };
    decode_frames(width, height, parts)
}

/// Decodes a PNG: an animated one into its frames, a still one as a still image.
pub fn decode_png(path: &str, bytes: &[u8]) -> (r: Result<DecodedImage, DecodeError>)
    ensures
        png_result(path@, bytes@, r),
        r matches Ok(img) ==> img.wf() && frames_cover(img),
{
    let animated = match png_is_apng(bytes) {
        Ok(a) => a,
        Err(e) => return Err(DecodeError::Image(e)),
    };
    if !animated {
        return decode_static(path, bytes);
    }
    let (width, height, parts) = match apng_frame_parts(bytes) {
        Ok(t) => t,
        Err(e) => return Err(DecodeError::Image(e)),
    };
    decode_frames(width, height, parts)
}

/// Which decoder a file goes to, by its extension.
#[derive(PartialEq, Eq, Structural, Clone, Copy, Debug)]
pub enum DecoderKind {
    Heif,
    Gif,
    Png,
    Static,
}

pub open spec fn decoder_kind(path: Seq<char>) -> DecoderKind {
    match path_extension(path) {
        Some(e) => if same_ignoring_case(e, "heic"@) || same_ignoring_case(e, "heif"@) {
            DecoderKind::Heif
        } else if same_ignoring_case(e, "gif"@) {
            DecoderKind::Gif
        } else if same_ignoring_case(e, "png"@) || same_ignoring_case(e, "apng"@) {
            DecoderKind::Png
        } else {
            DecoderKind::Static
        },
        None => DecoderKind::Static,
    }
}

/// The decoder for a path, chosen by its extension in any ASCII case.
pub fn decoder_for(path: &str) -> (r: DecoderKind)
    ensures
        r == decoder_kind(path@),
{
    let ext = match crate::dirscan::path_extension_of(path) {
        Some(e) => crate::natural::chars_of(e.as_str()),
        None => return DecoderKind::Static,
    };
    let heic = crate::natural::chars_of("heic");
    let heif = crate::natural::chars_of("heif");
    let gif = crate::natural::chars_of("gif");
    let png = crate::natural::chars_of("png");
    let apng = crate::natural::chars_of("apng");
    if crate::dirscan::same_ignoring_case_chars(&ext, &heic)
        || crate::dirscan::same_ignoring_case_chars(&ext, &heif) {
        DecoderKind::Heif
    } else if crate::dirscan::same_ignoring_case_chars(&ext, &gif) {
        DecoderKind::Gif
    } else if crate::dirscan::same_ignoring_case_chars(&ext, &png)
        || crate::dirscan::same_ignoring_case_chars(&ext, &apng) {
        DecoderKind::Png
    } else {
        DecoderKind::Static
    }
}

/// Matching an extension against a lowercase word in any ASCII case is comparing
/// the extension's lowercase form with the word.
proof fn lemma_same_as_lowercase_literal(e: Seq<char>, w: Seq<char>)
    requires
        forall|i: int| 0 <= i < w.len() ==> !is_ascii_upper(#[trigger] w[i]),
    ensures
        same_ignoring_case(e, w) <==> lowercase(e) == w,
{
    lemma_lowercase_keeps_lower(w);
    lemma_same_ignoring_case_is_same_lowercase(e, w);
}

/// Every extension `ImageFormat::from_extension` and the decoder choice look at, as
/// a comparison of the extension's lowercase form with each word.
proof fn lemma_extension_words(e: Seq<char>)
    ensures
        same_ignoring_case(e, "avif"@) <==> lowercase(e) == "avif"@,
        same_ignoring_case(e, "jpg"@) <==> lowercase(e) == "jpg"@,
        same_ignoring_case(e, "jpeg"@) <==> lowercase(e) == "jpeg"@,
        same_ignoring_case(e, "jfif"@) <==> lowercase(e) == "jfif"@,
        same_ignoring_case(e, "png"@) <==> lowercase(e) == "png"@,
        same_ignoring_case(e, "apng"@) <==> lowercase(e) == "apng"@,
        same_ignoring_case(e, "gif"@) <==> lowercase(e) == "gif"@,
        same_ignoring_case(e, "webp"@) <==> lowercase(e) == "webp"@,
        same_ignoring_case(e, "tif"@) <==> lowercase(e) == "tif"@,
        same_ignoring_case(e, "tiff"@) <==> lowercase(e) == "tiff"@,
        same_ignoring_case(e, "tga"@) <==> lowercase(e) == "tga"@,
        same_ignoring_case(e, "dds"@) <==> lowercase(e) == "dds"@,
        same_ignoring_case(e, "bmp"@) <==> lowercase(e) == "bmp"@,
        same_ignoring_case(e, "ico"@) <==> lowercase(e) == "ico"@,
        same_ignoring_case(e, "hdr"@) <==> lowercase(e) == "hdr"@,
        same_ignoring_case(e, "exr"@) <==> lowercase(e) == "exr"@,
        same_ignoring_case(e, "pbm"@) <==> lowercase(e) == "pbm"@,
        same_ignoring_case(e, "pam"@) <==> lowercase(e) == "pam"@,
        same_ignoring_case(e, "ppm"@) <==> lowercase(e) == "ppm"@,
        same_ignoring_case(e, "pgm"@) <==> lowercase(e) == "pgm"@,
        same_ignoring_case(e, "pnm"@) <==> lowercase(e) == "pnm"@,
        same_ignoring_case(e, "ff"@) <==> lowercase(e) == "ff"@,
        same_ignoring_case(e, "qoi"@) <==> lowercase(e) == "qoi"@,
        same_ignoring_case(e, "heic"@) <==> lowercase(e) == "heic"@,
        same_ignoring_case(e, "heif"@) <==> lowercase(e) == "heif"@,
{
    reveal_strlit("avif");
    reveal_strlit("jpg");
    reveal_strlit("jpeg");
    reveal_strlit("jfif");
    reveal_strlit("png");
    reveal_strlit("apng");
    reveal_strlit("gif");
    reveal_strlit("webp");
    reveal_strlit("tif");
    reveal_strlit("tiff");
    reveal_strlit("tga");
    reveal_strlit("dds");
    reveal_strlit("bmp");
    reveal_strlit("ico");
    reveal_strlit("hdr");
    reveal_strlit("exr");
    reveal_strlit("pbm");
    reveal_strlit("pam");
    reveal_strlit("ppm");
    reveal_strlit("pgm");
    reveal_strlit("pnm");
    reveal_strlit("ff");
    reveal_strlit("qoi");
    reveal_strlit("heic");
    reveal_strlit("heif");
    lemma_same_as_lowercase_literal(e, "avif"@);
    lemma_same_as_lowercase_literal(e, "jpg"@);
    lemma_same_as_lowercase_literal(e, "jpeg"@);
    lemma_same_as_lowercase_literal(e, "jfif"@);
    lemma_same_as_lowercase_literal(e, "png"@);
    lemma_same_as_lowercase_literal(e, "apng"@);
    lemma_same_as_lowercase_literal(e, "gif"@);
    lemma_same_as_lowercase_literal(e, "webp"@);
    lemma_same_as_lowercase_literal(e, "tif"@);
    lemma_same_as_lowercase_literal(e, "tiff"@);
    lemma_same_as_lowercase_literal(e, "tga"@);
    lemma_same_as_lowercase_literal(e, "dds"@);
    lemma_same_as_lowercase_literal(e, "bmp"@);
    lemma_same_as_lowercase_literal(e, "ico"@);
    lemma_same_as_lowercase_literal(e, "hdr"@);
    lemma_same_as_lowercase_literal(e, "exr"@);
    lemma_same_as_lowercase_literal(e, "pbm"@);
    lemma_same_as_lowercase_literal(e, "pam"@);
    lemma_same_as_lowercase_literal(e, "ppm"@);
    lemma_same_as_lowercase_literal(e, "pgm"@);
    lemma_same_as_lowercase_literal(e, "pnm"@);
    lemma_same_as_lowercase_literal(e, "ff"@);
    lemma_same_as_lowercase_literal(e, "qoi"@);
    lemma_same_as_lowercase_literal(e, "heic"@);
    lemma_same_as_lowercase_literal(e, "heif"@);
}

/// The decoder a file goes to: HEIF for a heic or heif extension, the GIF decoder
/// for gif, the PNG decoder for png or apng (each in any ASCII case), and the still
/// decoder for every other extension, such as webp, jpg or jpeg, and for none.
pub proof fn lemma_decoder_by_extension(path: Seq<char>)
    ensures
        decoder_kind(path) == match path_extension(path) {
            Some(e) => {
                let l = lowercase(e);
                if l == "heic"@ || l == "heif"@ {
                    DecoderKind::Heif
                } else if l == "gif"@ {
                    DecoderKind::Gif
                } else if l == "png"@ || l == "apng"@ {
                    DecoderKind::Png
                } else {
                    DecoderKind::Static
                }
            },
            None => DecoderKind::Static,
        },
{
    if let Some(e) = path_extension(path) {
        lemma_extension_words(e);
    }
}

/// A file goes to the GIF decoder exactly when the image crate reads its extension
/// as GIF, and to the PNG decoder exactly when it reads it as PNG; every other format
/// the image crate knows by extension goes to the still decoder.
pub proof fn lemma_decoders_follow_image_format(path: Seq<char>)
    ensures
        decoder_kind(path) == DecoderKind::Gif <==> static_format(path) == Some(
            image::ImageFormat::Gif,
        ),
        decoder_kind(path) == DecoderKind::Png <==> static_format(path) == Some(
            image::ImageFormat::Png,
        ),
        static_format(path) is Some ==> decoder_kind(path) != DecoderKind::Heif,
{
    reveal_strlit("avif");
    reveal_strlit("jpg");
    reveal_strlit("jpeg");
    reveal_strlit("jfif");
    reveal_strlit("png");
    reveal_strlit("apng");
    reveal_strlit("gif");
    reveal_strlit("webp");
    reveal_strlit("tif");
    reveal_strlit("tiff");
    reveal_strlit("tga");
    reveal_strlit("dds");
    reveal_strlit("bmp");
    reveal_strlit("ico");
    reveal_strlit("hdr");
    reveal_strlit("exr");
    reveal_strlit("pbm");
    reveal_strlit("pam");
    reveal_strlit("ppm");
    reveal_strlit("pgm");
    reveal_strlit("pnm");
    reveal_strlit("ff");
    reveal_strlit("qoi");
    reveal_strlit("heic");
    reveal_strlit("heif");
    if let Some(e) = path_extension(path) {
        lemma_extension_words(e);
        let l = lowercase(e);
        if l == "gif"@ {
            assert(l.len() == 3 && l[0] == 'g');
        }
        if l == "heic"@ || l == "heif"@ {
            assert(l.len() == 4 && l[0] == 'h');
        }
        if l == "png"@ {
            assert(l.len() == 3 && l[0] == 'p' && l[2] == 'g');
        }
        if l == "apng"@ {
            assert(l.len() == 4 && l[0] == 'a' && l[1] == 'p');
        }
    }
}

/// Decodes the bytes of the file at `path` with the decoder its extension picks.
/// HEIF files go to `heif_image`, which takes the decoded plane instead.
pub fn decode(path: &str, bytes: &[u8]) -> (r: Result<DecodedImage, DecodeError>)
    requires
        decoder_kind(path@) != DecoderKind::Heif,
    ensures
        r matches Ok(img) ==> img.wf() && frames_cover(img),
        decoder_kind(path@) == DecoderKind::Gif ==> animation_result(gif_decoded(bytes@), r),
        decoder_kind(path@) == DecoderKind::Png ==> png_result(path@, bytes@, r),
        decoder_kind(path@) == DecoderKind::Static ==> still_result(path@, bytes@, r),
{
    match decoder_for(path) {
        DecoderKind::Gif => decode_gif(bytes),
        DecoderKind::Png => decode_png(path, bytes),
        _ => decode_static(path, bytes),
    }
}

/// Decodes the file at `path` as `decode` does, after asking `decoder_for` which
/// decoder its extension picks: `None` for a HEIF file, which needs the decoded
/// plane that `heif_image` takes, and otherwise `decode`'s outcome.
pub fn try_decode(path: &str, bytes: &[u8]) -> (r: Option<Result<DecodedImage, DecodeError>>)
    ensures
        r is None <==> decoder_kind(path@) == DecoderKind::Heif,
        r matches Some(Ok(img)) ==> img.wf() && frames_cover(img),
        decoder_kind(path@) == DecoderKind::Gif ==> (r matches Some(res) && animation_result(
            gif_decoded(bytes@),
            res,
        )),
        decoder_kind(path@) == DecoderKind::Png ==> (r matches Some(res) && png_result(
            path@,
            bytes@,
            res,
        )),
        decoder_kind(path@) == DecoderKind::Static ==> (r matches Some(res) && still_result(
            path@,
            bytes@,
            res,
        )),
{
    if decoder_for(path) == DecoderKind::Heif {
        return None;
    }
    Some(decode(path, bytes))
}

/// The rows of an image, `row_bytes` each, copied out of `data` where row `r`
/// starts at `r * stride`.
pub open spec fn packed_rows(data: Seq<u8>, row_bytes: int, stride: int, rows: int) -> Seq<u8>
    decreases rows,
{
    if rows <= 0 {
        Seq::empty()
    } else {
        packed_rows(data, row_bytes, stride, rows - 1) + data.subrange(
            (rows - 1) * stride,
            (rows - 1) * stride + row_bytes,
        )
    }
}

/// Copies the RGBA rows of a plane whose rows lie `stride` bytes apart into a
/// tightly packed buffer.
pub fn pack_rows(data: &[u8], width: u32, height: u32, stride: usize) -> (r: Vec<u8>)
    requires
        width as int * 4 <= usize::MAX,
        height > 0 ==> (height - 1) * stride + width * 4 <= data@.len(),
    ensures
        r@ == packed_rows(data@, width * 4, stride as int, height as int),
{
    let row_bytes: usize = width as usize * 4;
    let data_len = data.len();
    let mut out: Vec<u8> = Vec::new();
    let mut row: usize = 0;
    while row < height as usize
        invariant
            row_bytes == width * 4,
            data_len == data@.len(),
            row <= height,
            height > 0 ==> (height - 1) * stride + row_bytes <= data@.len(),
            out@ == packed_rows(data@, row_bytes as int, stride as int, row as int),
        decreases height - row,
    {
        assert(row * stride <= (height - 1) * stride) by (nonlinear_arith)
            requires
                row <= height - 1,
        ;
        let start: usize = row * stride;
        let mut k: usize = 0;
        let ghost prefix = out@;
        while k < row_bytes
            invariant
                start == row * stride,
                data_len == data@.len(),
                start + row_bytes <= data@.len(),
                k <= row_bytes,
                out@ == prefix + data@.subrange(start as int, start + k),
            decreases row_bytes - k,
        {
            out.push(data[start + k]);
            assert(data@.subrange(start as int, start + k + 1) =~= data@.subrange(
                start as int,
                start + k,
            ).push(data@[start + k]));
            k = k + 1;
        }
        row = row + 1;
    }
    out
}

/// A still HEIF image from its decoded interleaved RGBA plane.
pub fn heif_image(width: u32, height: u32, stride: usize, data: &[u8]) -> (r: DecodedImage)
    requires
        width as int * 4 <= usize::MAX,
        height > 0 ==> (height - 1) * stride + width * 4 <= data@.len(),
    ensures
        r.wf(),
        r.width == width,
        r.height == height,
        r.frames@.len() == 1,
        r.frames@[0].delay_ns == 0,
        r.frames@[0].rgba@ == packed_rows(data@, width * 4, stride as int, height as int),
{
    let rgba = pack_rows(data, width, height, stride);
    DecodedImage { width, height, frames: vec![DecodedFrame { rgba, delay_ns: 0 }] }
}

} // verus!
