use image::codecs::gif::GifEncoder;
use image::{Delay, DynamicImage, Frame, ImageFormat, RgbaImage};
use std::io::Cursor;
use warpview::decode::{
    clamp_delay, collect_frames, decode, decode_gif, decode_png, decode_static, decoder_for, delay_to_nanos,
    heif_image, orientation_from_tag, pack_rows, try_decode, DecodeError, DecodedFrame, DecodedImage,
    DecoderKind, FrameParts, Orientation, DEFAULT_FRAME_DELAY_NS, MIN_FRAME_DELAY_NS,
};

fn png_bytes(width: u32, height: u32) -> Vec<u8> {
    let pixels: Vec<u8> = (0..width * height * 4).map(|i| i as u8).collect();
    let img = DynamicImage::ImageRgba8(RgbaImage::from_raw(width, height, pixels).unwrap());
    let mut out = Vec::new();
    img.write_to(Cursor::new(&mut out), ImageFormat::Png).unwrap();
    out
}

fn gif_bytes(delays_ms: &[u32]) -> Vec<u8> {
    let mut out = Vec::new();
    {
        let mut encoder = GifEncoder::new(&mut out);
        let frames: Vec<Frame> = delays_ms
            .iter()
            .enumerate()
            .map(|(k, &ms)| {
                let pixels = vec![(k * 40) as u8, 10, 20, 255, 0, 0, 0, 255];
                let buffer = RgbaImage::from_raw(2, 1, pixels).unwrap();
                Frame::from_parts(buffer, 0, 0, Delay::from_numer_denom_ms(ms, 1))
            })
            .collect();
        encoder.encode_frames(frames).unwrap();
    }
    out
}

#[test]
fn clamp_delay_bumps_short_delays() {
    assert_eq!(clamp_delay(0), DEFAULT_FRAME_DELAY_NS);
    assert_eq!(clamp_delay(MIN_FRAME_DELAY_NS - 1), DEFAULT_FRAME_DELAY_NS);
    assert_eq!(clamp_delay(MIN_FRAME_DELAY_NS), MIN_FRAME_DELAY_NS);
    assert_eq!(clamp_delay(50_000_000), 50_000_000);
}

#[test]
fn delay_to_nanos_matches_duration_conversion() {
    assert_eq!(delay_to_nanos(40, 1), 40_000_000);
    assert_eq!(delay_to_nanos(1, 3), 333_333);
    assert_eq!(delay_to_nanos(100, 3), 33_333_333);
    assert_eq!(delay_to_nanos(u32::MAX, 1), 4_294_967_295_000_000);
    assert_eq!(delay_to_nanos(0, 7), 0);
}

#[test]
fn collect_frames_rejects_an_empty_animation() {
    assert!(matches!(collect_frames(Vec::new()), Err(DecodeError::NoFrames)));
}

#[test]
fn collect_frames_converts_and_clamps_each_delay() {
    let parts = vec![
        FrameParts { rgba: vec![1, 2, 3, 4], delay_numer: 0, delay_denom: 1 },
        FrameParts { rgba: vec![5, 6, 7, 8], delay_numer: 70, delay_denom: 2 },
    ];
    let frames = match collect_frames(parts) {
        Ok(f) => f,
        Err(_) => panic!("frames expected"),
    };
    assert_eq!(frames.len(), 2);
    assert_eq!(frames[0].rgba, vec![1, 2, 3, 4]);
    assert_eq!(frames[0].delay_ns, DEFAULT_FRAME_DELAY_NS);
    assert_eq!(frames[1].rgba, vec![5, 6, 7, 8]);
    assert_eq!(frames[1].delay_ns, 35_000_000);
}

#[test]
fn is_animated_needs_more_than_one_frame() {
    let frame = |v: u8| DecodedFrame { rgba: vec![v; 4], delay_ns: 0 };
    let still = DecodedImage { width: 1, height: 1, frames: vec![frame(1)] };
    let moving = DecodedImage { width: 1, height: 1, frames: vec![frame(1), frame(2)] };
    assert!(!still.is_animated());
    assert!(moving.is_animated());
}

#[test]
fn orientation_follows_the_exif_tag() {
    assert_eq!(orientation_from_tag(None), Orientation::AsStored);
    assert_eq!(orientation_from_tag(Some(1)), Orientation::AsStored);
    assert_eq!(orientation_from_tag(Some(2)), Orientation::FlipHorizontal);
    assert_eq!(orientation_from_tag(Some(3)), Orientation::Rotate180);
    assert_eq!(orientation_from_tag(Some(4)), Orientation::FlipVertical);
    assert_eq!(orientation_from_tag(Some(5)), Orientation::Rotate90FlipHorizontal);
    assert_eq!(orientation_from_tag(Some(6)), Orientation::Rotate90);
    assert_eq!(orientation_from_tag(Some(7)), Orientation::Rotate270FlipHorizontal);
    assert_eq!(orientation_from_tag(Some(8)), Orientation::Rotate270);
    assert_eq!(orientation_from_tag(Some(9)), Orientation::AsStored);
}

#[test]
fn decoder_is_chosen_by_extension_in_any_case() {
    assert_eq!(decoder_for("a/b.HEIC"), DecoderKind::Heif);
    assert_eq!(decoder_for("b.heif"), DecoderKind::Heif);
    assert_eq!(decoder_for("b.Gif"), DecoderKind::Gif);
    assert_eq!(decoder_for("b.png"), DecoderKind::Png);
    assert_eq!(decoder_for("b.APNG"), DecoderKind::Png);
    assert_eq!(decoder_for("b.jpg"), DecoderKind::Static);
    assert_eq!(decoder_for("noext"), DecoderKind::Static);
}

#[test]
fn png_decodes_as_one_still_frame() {
    let img = match decode("x.png", &png_bytes(3, 2)) {
        Ok(img) => img,
        Err(_) => panic!("png should decode"),
    };
    assert_eq!((img.width, img.height), (3, 2));
    assert_eq!(img.frames.len(), 1);
    assert_eq!(img.frames[0].delay_ns, 0);
    assert_eq!(img.frames[0].rgba, (0..24).map(|i| i as u8).collect::<Vec<u8>>());
    assert!(!img.is_animated());
}

#[test]
fn static_decode_needs_a_known_extension() {
    let bytes = png_bytes(1, 1);
    assert!(matches!(decode_static("noext", &bytes), Err(DecodeError::UnsupportedFormat)));
    assert!(matches!(decode_static("x.zzz", &bytes), Err(DecodeError::UnsupportedFormat)));
    assert!(decode_static("x.PNG", &bytes).is_ok());
}

#[test]
fn garbage_is_an_image_error() {
    assert!(matches!(decode_static("x.png", b"not a png"), Err(DecodeError::Image(_))));
    assert!(matches!(decode_gif(b"not a gif"), Err(DecodeError::Image(_))));
}

#[test]
fn gif_frames_keep_order_and_get_clamped_delays() {
    let img = match decode("anim.gif", &gif_bytes(&[0, 50, 10])) {
        Ok(img) => img,
        Err(_) => panic!("gif should decode"),
    };
    assert_eq!((img.width, img.height), (2, 1));
    assert_eq!(img.frames.len(), 3);
    assert!(img.is_animated());
    assert_eq!(img.frames[0].delay_ns, DEFAULT_FRAME_DELAY_NS);
    assert_eq!(img.frames[1].delay_ns, 50_000_000);
    assert_eq!(img.frames[2].delay_ns, DEFAULT_FRAME_DELAY_NS);
    assert_eq!(img.frames[1].rgba[0], 40);
}

#[test]
fn pack_rows_drops_the_stride_padding() {
    let data: Vec<u8> = (0..20).collect();
    let packed = pack_rows(&data, 1, 3, 6);
    assert_eq!(packed, vec![0, 1, 2, 3, 6, 7, 8, 9, 12, 13, 14, 15]);
    assert_eq!(pack_rows(&data, 2, 0, 100), Vec::<u8>::new());
}

#[test]
fn heif_image_is_one_still_frame() {
    let data: Vec<u8> = (0..16).collect();
    let img = heif_image(1, 2, 8, &data);
    assert_eq!((img.width, img.height), (1, 2));
    assert_eq!(img.frames.len(), 1);
    assert_eq!(img.frames[0].rgba, vec![0, 1, 2, 3, 8, 9, 10, 11]);
    assert_eq!(img.frames[0].delay_ns, 0);
}

#[test]
fn png_with_a_bad_header_is_an_image_error() {
    assert!(matches!(decode_png("x.png", b"\x89PNG broken"), Err(DecodeError::Image(_))));
    assert!(decode_png("x.png", &png_bytes(2, 2)).is_ok());
    assert!(matches!(decode_png("noext", &png_bytes(2, 2)), Err(DecodeError::UnsupportedFormat)));
}

fn crc32(data: &[u8]) -> u32 {
    let mut crc: u32 = 0xffff_ffff;
    for &b in data {
        crc ^= b as u32;
        for _ in 0..8 {
            crc = if crc & 1 != 0 { (crc >> 1) ^ 0xedb8_8320 } else { crc >> 1 };
        }
    }
    !crc
}

/// A PNG whose eXIf chunk carries the given orientation tag.
fn png_with_orientation(width: u32, height: u32, orientation: u16) -> Vec<u8> {
    let png = png_bytes(width, height);
    let mut tiff: Vec<u8> = vec![b'M', b'M', 0, 42, 0, 0, 0, 8, 0, 1, 0x01, 0x12, 0, 3, 0, 0, 0, 1];
    tiff.extend_from_slice(&orientation.to_be_bytes());
    tiff.extend_from_slice(&[0, 0, 0, 0, 0, 0]);
    let mut chunk = Vec::new();
    chunk.extend_from_slice(&(tiff.len() as u32).to_be_bytes());
    let mut body = b"eXIf".to_vec();
    body.extend_from_slice(&tiff);
    chunk.extend_from_slice(&body);
    chunk.extend_from_slice(&crc32(&body).to_be_bytes());
    // After the signature (8 bytes) and the IHDR chunk (25 bytes).
    let mut out = png[..33].to_vec();
    out.extend_from_slice(&chunk);
    out.extend_from_slice(&png[33..]);
    out
}

fn pixel(px: &[u8], w: u32, x: u32, y: u32) -> &[u8] {
    let i = (4 * (y * w + x)) as usize;
    &px[i..i + 4]
}

#[test]
fn exif_orientation_six_turns_the_image_clockwise() {
    let (w, h) = (3u32, 2u32);
    let source = png_bytes(w, h);
    let img = match decode("x.png", &png_with_orientation(w, h, 6)) {
        Ok(img) => img,
        Err(_) => panic!("png should decode"),
    };
    assert_eq!((img.width, img.height), (h, w));
    let src = match decode("plain.png", &source) {
        Ok(img) => img.frames[0].rgba.clone(),
        Err(_) => panic!("png should decode"),
    };
    let out = &img.frames[0].rgba;
    assert_eq!(out.len(), (4 * w * h) as usize);
    for y in 0..w {
        for x in 0..h {
            assert_eq!(pixel(out, h, x, y), pixel(&src, w, y, h - 1 - x));
        }
    }
}

#[test]
fn exif_orientation_two_mirrors_and_one_keeps_the_image() {
    let (w, h) = (3u32, 2u32);
    let src = png_bytes(w, h);
    let plain = match decode("plain.png", &src) {
        Ok(img) => img.frames[0].rgba.clone(),
        Err(_) => panic!("png should decode"),
    };
    let mirrored = match decode("x.png", &png_with_orientation(w, h, 2)) {
        Ok(img) => img,
        Err(_) => panic!("png should decode"),
    };
    assert_eq!((mirrored.width, mirrored.height), (w, h));
    for y in 0..h {
        for x in 0..w {
            assert_eq!(pixel(&mirrored.frames[0].rgba, w, x, y), pixel(&plain, w, w - 1 - x, y));
        }
    }
    let kept = match decode("x.png", &png_with_orientation(w, h, 1)) {
        Ok(img) => img,
        Err(_) => panic!("png should decode"),
    };
    assert_eq!(kept.frames[0].rgba, plain);
}

#[test]
fn try_decode_leaves_heif_files_out() {
    assert!(try_decode("photo.HEIC", &[]).is_none());
    assert!(try_decode("photo.heif", &[1, 2, 3]).is_none());
    let bytes = png_bytes(3, 2);
    match try_decode("dir/picture.png", &bytes) {
        Some(Ok(img)) => {
            assert_eq!((img.width, img.height), (3, 2));
            assert_eq!(img.frames.len(), 1);
        }
        _ => panic!("a decoded PNG expected"),
    }
    assert!(matches!(try_decode("notes.txt", &bytes), Some(Err(DecodeError::UnsupportedFormat))));
}

#[test]
fn every_decoded_frame_is_tightly_packed() {
    let png = png_bytes(5, 3);
    let still = match decode("a.png", &png) {
        Ok(img) => img,
        Err(_) => panic!("a decoded PNG expected"),
    };
    for frame in &still.frames {
        assert_eq!(frame.rgba.len(), 4 * 5 * 3);
    }
    let gif = gif_bytes(&[30, 50, 70]);
    let moving = match decode_gif(&gif) {
        Ok(img) => img,
        Err(_) => panic!("a decoded GIF expected"),
    };
    assert_eq!(moving.frames.len(), 3);
    for frame in &moving.frames {
        assert_eq!(frame.rgba.len(), 4 * moving.width as usize * moving.height as usize);
    }
}
