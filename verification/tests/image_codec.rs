//! Decoding images.

use std::io::Cursor;

use image::codecs::gif::GifEncoder;
use image::codecs::webp::WebPEncoder;
use image::{Delay, ExtendedColorType, ImageEncoder, RgbaImage};
use mizu_render::image_codec::{
    allow_animation, allow_size, animate, decode_image_bytes, frame_duration, make_frame,
    make_texture, premultiply_alpha, AnimatedImage, AssetSlot, RawFrame, RawImage,
    DEFAULT_FRAME_MS, MAX_ANIMATION_TOTAL_PIXELS, MAX_IMAGE_PIXELS,
};
use mizu_render::webp::{alpha_frames_agree, first_alpha_frame_agrees};

/// Builds a minimal 40-byte BITMAPINFOHEADER BMP that *declares* the given
/// dimensions without carrying any pixel data, so a decoder must read the
/// header to learn the (here, enormous) size.
fn bmp_header_with_dims(width: i32, height: i32) -> Vec<u8> {
    let mut buf = Vec::with_capacity(54);
    buf.extend_from_slice(b"BM"); // signature
    buf.extend_from_slice(&0u32.to_le_bytes()); // file size (ignored)
    buf.extend_from_slice(&0u32.to_le_bytes()); // reserved
    buf.extend_from_slice(&54u32.to_le_bytes()); // pixel data offset
    buf.extend_from_slice(&40u32.to_le_bytes()); // DIB header size
    buf.extend_from_slice(&width.to_le_bytes()); // width
    buf.extend_from_slice(&height.to_le_bytes()); // height
    buf.extend_from_slice(&1u16.to_le_bytes()); // planes
    buf.extend_from_slice(&24u16.to_le_bytes()); // bits per pixel
    buf.extend_from_slice(&0u32.to_le_bytes()); // compression
    buf.extend_from_slice(&0u32.to_le_bytes()); // image size
    buf.extend_from_slice(&0i32.to_le_bytes()); // x ppm
    buf.extend_from_slice(&0i32.to_le_bytes()); // y ppm
    buf.extend_from_slice(&0u32.to_le_bytes()); // colors used
    buf.extend_from_slice(&0u32.to_le_bytes()); // important colors
    buf
}

#[test]
fn image_codec_decode_rejects_oversized_dimensions() {
    // 100_000 x 100_000 = 1e10 pixels, far above MAX_IMAGE_PIXELS.
    let bomb = bmp_header_with_dims(100_000, 100_000);
    assert!(
        decode_image_bytes(&bomb).is_none(),
        "an image declaring billions of pixels must be rejected before decoding"
    );
}

#[test]
fn tests_decode_rejects_oversized_dimensions() {
    // 100_000 x 100_000 = 1e10 pixels, far above MAX_IMAGE_PIXELS.
    let bomb = bmp_header_with_dims(100_000, 100_000);
    assert!(
        decode_image_bytes(&bomb).is_none(),
        "an image declaring billions of pixels must be rejected before decoding"
    );
}

/// Builds a minimal simple-lossy (non-extended, `"VP8 "` chunk) WebP file
/// that *declares* the given dimensions in its 10-byte VP8 keyframe
/// header, without carrying any real VP8 bitstream payload, so a
/// decoder must read only the header to learn the (here, maximal) size.
fn webp_lossy_header_with_dims(width: u16, height: u16) -> Vec<u8> {
    let mut buf = Vec::with_capacity(30);
    buf.extend_from_slice(b"RIFF");
    buf.extend_from_slice(&22u32.to_le_bytes()); // riff size (len - 8)
    buf.extend_from_slice(b"WEBP");
    buf.extend_from_slice(b"VP8 ");
    buf.extend_from_slice(&10u32.to_le_bytes()); // chunk size (header only)
    buf.extend_from_slice(&[0x00, 0x00, 0x00]); // tag (bit0 = 0 => keyframe)
    buf.extend_from_slice(&[0x9d, 0x01, 0x2a]); // VP8 start code
    buf.extend_from_slice(&(width & 0x3FFF).to_le_bytes());
    buf.extend_from_slice(&(height & 0x3FFF).to_le_bytes());
    buf
}

#[test]
fn decode_rejects_oversized_webp_dimensions() {
    // WebP's own 14-bit width/height fields cap a single dimension at
    // 16383, so use the max in both: 16383 x 16383 ~= 268M pixels, still
    // far above MAX_IMAGE_PIXELS (64M).
    let bomb = webp_lossy_header_with_dims(0x3FFF, 0x3FFF);
    assert!(
        decode_image_bytes(&bomb).is_none(),
        "a WebP declaring the maximum representable canvas must be rejected before decoding"
    );
}

#[test]
fn image_codec_decode_rejects_garbage_bytes() {
    // Not a recognisable image at all: must return None, not panic.
    assert!(decode_image_bytes(b"not an image at all").is_none());
}

#[test]
fn tests_decode_rejects_garbage_bytes() {
    // Not a recognisable image at all: must return None, not panic.
    assert!(decode_image_bytes(b"not an image at all").is_none());
}

fn filled(width: u32, height: u32, colour: [u8; 4]) -> RgbaImage {
    RgbaImage::from_pixel(width, height, image::Rgba(colour))
}

fn gif(frames: Vec<(RgbaImage, u32)>) -> Vec<u8> {
    let mut out = Vec::new();
    {
        let mut encoder = GifEncoder::new(&mut out);
        for (image, ms) in frames {
            let delay = Delay::from_numer_denom_ms(ms, 1);
            encoder.encode_frame(image::Frame::from_parts(image, 0, 0, delay)).unwrap();
        }
    }
    out
}

fn png(image: &RgbaImage) -> Vec<u8> {
    let mut out = Cursor::new(Vec::new());
    image.write_to(&mut out, image::ImageFormat::Png).unwrap();
    out.into_inner()
}

fn webp(image: &RgbaImage) -> Vec<u8> {
    let mut out = Vec::new();
    WebPEncoder::new_lossless(&mut out)
        .write_image(image.as_raw(), image.width(), image.height(), ExtendedColorType::Rgba8)
        .unwrap();
    out
}

/// A chunk of a WebP file.
fn riff_chunk(name: &[u8; 4], data: &[u8]) -> Vec<u8> {
    let mut out = name.to_vec();
    out.extend_from_slice(&(data.len() as u32).to_le_bytes());
    out.extend_from_slice(data);
    if data.len() % 2 == 1 {
        out.push(0);
    }
    out
}

fn u24(v: u32) -> [u8; 3] {
    let b = v.to_le_bytes();
    [b[0], b[1], b[2]]
}

/// An animated WebP file of frames as large as the canvas.
fn animated_webp(width: u32, height: u32, frames: &[(RgbaImage, u32)]) -> Vec<u8> {
    let mut head = vec![0x12, 0, 0, 0];
    head.extend_from_slice(&u24(width - 1));
    head.extend_from_slice(&u24(height - 1));
    let mut body = b"WEBP".to_vec();
    body.extend(riff_chunk(b"VP8X", &head));
    body.extend(riff_chunk(b"ANIM", &[0, 0, 0, 0, 0, 0]));
    for (image, ms) in frames {
        let mut data = Vec::new();
        data.extend_from_slice(&u24(0));
        data.extend_from_slice(&u24(0));
        data.extend_from_slice(&u24(image.width() - 1));
        data.extend_from_slice(&u24(image.height() - 1));
        data.extend_from_slice(&u24(*ms));
        data.push(2);
        // The still file is a header of twelve bytes and one chunk.
        data.extend_from_slice(&webp(image)[12..]);
        body.extend(riff_chunk(b"ANMF", &data));
    }
    riff_chunk(b"RIFF", &body)
}

fn crc(bytes: &[u8]) -> u32 {
    let mut c = 0xffff_ffffu32;
    for b in bytes {
        c ^= *b as u32;
        for _ in 0..8 {
            c = if c & 1 == 1 { (c >> 1) ^ 0xedb8_8320 } else { c >> 1 };
        }
    }
    !c
}

/// A chunk of a PNG file.
fn png_chunk(name: &[u8; 4], data: &[u8]) -> Vec<u8> {
    let mut out = (data.len() as u32).to_be_bytes().to_vec();
    let mut body = name.to_vec();
    body.extend_from_slice(data);
    out.extend_from_slice(&body);
    out.extend_from_slice(&crc(&body).to_be_bytes());
    out
}

/// The chunks of a PNG file.
fn png_chunks(file: &[u8]) -> Vec<([u8; 4], Vec<u8>)> {
    let mut at = 8;
    let mut out = Vec::new();
    while at < file.len() {
        let n = u32::from_be_bytes(file[at..at + 4].try_into().unwrap()) as usize;
        out.push((file[at + 4..at + 8].try_into().unwrap(), file[at + 8..at + 8 + n].to_vec()));
        at += n + 12;
    }
    out
}

/// An animated PNG file of frames as large as the canvas.
fn apng(frames: &[(RgbaImage, u16)]) -> Vec<u8> {
    let first = png(&frames[0].0);
    let mut out = first[..8].to_vec();
    let chunks = png_chunks(&first);
    out.extend(png_chunk(b"IHDR", &chunks[0].1));
    let mut actl = (frames.len() as u32).to_be_bytes().to_vec();
    actl.extend_from_slice(&[0; 4]);
    out.extend(png_chunk(b"acTL", &actl));
    let mut sequence = 0u32;
    for (k, (image, ms)) in frames.iter().enumerate() {
        let mut fctl = sequence.to_be_bytes().to_vec();
        sequence += 1;
        fctl.extend_from_slice(&image.width().to_be_bytes());
        fctl.extend_from_slice(&image.height().to_be_bytes());
        fctl.extend_from_slice(&[0; 8]);
        fctl.extend_from_slice(&ms.to_be_bytes());
        fctl.extend_from_slice(&1000u16.to_be_bytes());
        fctl.extend_from_slice(&[0, 0]);
        out.extend(png_chunk(b"fcTL", &fctl));
        for (name, data) in png_chunks(&png(image)) {
            if &name == b"IDAT" && k == 0 {
                out.extend(png_chunk(b"IDAT", &data));
            } else if &name == b"IDAT" {
                let mut fdat = sequence.to_be_bytes().to_vec();
                sequence += 1;
                fdat.extend_from_slice(&data);
                out.extend(png_chunk(b"fdAT", &fdat));
            }
        }
    }
    out.extend(png_chunk(b"IEND", &[]));
    out
}

/// First pixel and time of each frame.
fn shown(image: &AnimatedImage) -> Vec<([u8; 4], u64)> {
    match image {
        AnimatedImage::Static(t) => vec![(t.pixels[..4].try_into().unwrap(), 0)],
        AnimatedImage::Animated { frames, .. } => frames
            .iter()
            .map(|f| (f.texture.pixels[..4].try_into().unwrap(), f.duration_ms))
            .collect(),
    }
}

const RED: [u8; 4] = [255, 0, 0, 255];
const BLUE: [u8; 4] = [0, 0, 255, 255];

#[test]
fn an_animated_gif_is_decoded_frame_by_frame() {
    let file = gif(vec![(filled(3, 2, RED), 50), (filled(3, 2, BLUE), 0)]);
    let image = decode_image_bytes(&file).unwrap();
    assert_eq!(shown(&image), vec![(RED, 50), (BLUE, DEFAULT_FRAME_MS)]);
    assert_eq!((image.width(), image.height()), (3, 2));
    match image {
        AnimatedImage::Animated { total_duration_ms, .. } => assert_eq!(total_duration_ms, 150),
        AnimatedImage::Static(_) => panic!("two frames are an animation"),
    }
}

#[test]
fn a_gif_of_one_frame_is_still() {
    let image = decode_image_bytes(&gif(vec![(filled(3, 2, RED), 50)])).unwrap();
    assert!(matches!(image, AnimatedImage::Static(_)));
    assert_eq!(shown(&image), vec![(RED, 0)]);
}

#[test]
fn an_animated_webp_is_decoded_frame_by_frame() {
    let file = animated_webp(4, 4, &[(filled(4, 4, RED), 30), (filled(4, 4, BLUE), 70)]);
    let image = decode_image_bytes(&file).unwrap();
    assert_eq!(shown(&image), vec![(RED, 30), (BLUE, 70)]);
    assert_eq!((image.width(), image.height()), (4, 4));
    let still = decode_image_bytes(&webp(&filled(5, 6, BLUE))).unwrap();
    assert_eq!(shown(&still), vec![(BLUE, 0)]);
    assert_eq!((still.width(), still.height()), (5, 6));
}

#[test]
fn an_animated_png_is_decoded_frame_by_frame() {
    let file = apng(&[(filled(2, 3, RED), 20), (filled(2, 3, BLUE), 40)]);
    let image = decode_image_bytes(&file).unwrap();
    assert_eq!(shown(&image), vec![(RED, 20), (BLUE, 40)]);
    assert_eq!((image.width(), image.height()), (2, 3));
}

#[test]
fn a_still_png_is_multiplied_by_its_opacity() {
    let image = decode_image_bytes(&png(&filled(2, 2, [200, 100, 50, 128]))).unwrap();
    assert_eq!(shown(&image), vec![([100, 50, 25, 128], 0)]);
    assert_eq!((image.width(), image.height()), (2, 2));
}

#[test]
fn a_cut_off_file_shows_nothing() {
    let file = png(&filled(40, 40, RED));
    assert!(decode_image_bytes(&file[..40]).is_none());
    assert!(decode_image_bytes(&[]).is_none());
    assert!(matches!(AssetSlot::Failed, AssetSlot::Failed));
}

fn raw(image: &RgbaImage) -> RawImage {
    RawImage {
        width: image.width(),
        height: image.height(),
        pixels: image.as_raw().clone(),
    }
}

/// A later frame that is smaller, or clear in places, leaves what was there.
#[test]
fn frames_are_painted_over_the_ones_before() {
    let frame = |image: RgbaImage| RawFrame { image: raw(&image), numer: 40, denom: 2 };
    let mut corner = filled(2, 1, BLUE);
    corner.put_pixel(1, 0, image::Rgba([9, 9, 9, 0]));
    let image = animate(vec![frame(filled(2, 2, RED)), frame(corner)]).unwrap();
    match image {
        AnimatedImage::Animated { frames, total_duration_ms } => {
            assert_eq!(total_duration_ms, 40);
            assert_eq!(frames.len(), 2);
            let first: Vec<u8> = [RED, RED, RED, RED].concat();
            let second: Vec<u8> = [BLUE, RED, RED, RED].concat();
            assert_eq!(frames[0].texture.pixels, first);
            assert_eq!(frames[1].texture.pixels, second);
            assert_eq!((frames[1].texture.width, frames[1].texture.height), (2, 2));
            assert_eq!(frames[1].duration_ms, 20);
        }
        AnimatedImage::Static(_) => panic!("frames are an animation"),
    }
}

#[test]
fn an_animation_costs_no_more_than_a_still_image() {
    assert_eq!(MAX_ANIMATION_TOTAL_PIXELS, MAX_IMAGE_PIXELS);
    assert!(allow_size((8_000, 8_000)));
    assert!(!allow_size((8_000, 8_001)));
    assert!(!allow_size((u32::MAX, u32::MAX)));
    assert!(allow_animation(800, 800, 100));
    assert!(!allow_animation(800, 800, 101));
    assert!(!allow_animation(u32::MAX, u32::MAX, usize::MAX));
    // The first frame says how large all are: here they have no pixel.
    let small = RawImage { width: 1, height: 1, pixels: vec![0; 4] };
    let mut frames = vec![
        RawFrame { image: RawImage { width: 0, height: 9, pixels: vec![] }, numer: 1, denom: 1 },
        RawFrame { image: small, numer: 1, denom: 1 },
    ];
    assert!(animate(frames.clone()).is_some());
    frames.truncate(1);
    assert!(animate(frames).is_some());
}

#[test]
fn every_frame_is_shown_for_some_time() {
    assert_eq!(frame_duration(0, 1), DEFAULT_FRAME_MS);
    assert_eq!(frame_duration(5, 0), DEFAULT_FRAME_MS);
    assert_eq!(frame_duration(5, 6), DEFAULT_FRAME_MS);
    assert_eq!(frame_duration(7, 2), 3);
    assert_eq!(frame_duration(u32::MAX, 1), u32::MAX as u64);
}

/// Rounding to the nearest value, for every channel and every opacity.
#[test]
fn channels_are_multiplied_by_opacity() {
    for a in 0..=255u8 {
        for c in 0..=255u8 {
            let mut pixel = [c, 255 - c, 0, a];
            premultiply_alpha(&mut pixel);
            let alpha = a as f32 / 255.0;
            let want = (c as f32 * alpha).round() as u8;
            let other = ((255 - c) as f32 * alpha).round() as u8;
            assert_eq!(pixel, [want, other, 0, a], "{c} at {a}");
        }
    }
    // What is no whole pixel is left alone.
    let mut odd = [200, 200, 200, 0, 200, 200];
    premultiply_alpha(&mut odd);
    assert_eq!(odd, [0, 0, 0, 0, 200, 200]);
}

#[test]
fn textures_keep_their_size() {
    let texture = make_texture(raw(&filled(2, 1, [255, 255, 255, 51])));
    assert_eq!((texture.width, texture.height), (2, 1));
    assert_eq!(texture.pixels, vec![51, 51, 51, 51, 51, 51, 51, 51]);
    let frame = make_frame(raw(&filled(1, 1, RED)), 10, 1);
    assert_eq!(frame.duration_ms, 10);
    assert_eq!(frame.texture.pixels, RED.to_vec());
}

/// A PNG file with another size in its header.
fn with_declared_size(file: &[u8], width: u32, height: u32) -> Vec<u8> {
    let mut out = file[..8].to_vec();
    for (name, mut data) in png_chunks(file) {
        if &name == b"IHDR" {
            data[..4].copy_from_slice(&width.to_be_bytes());
            data[4..8].copy_from_slice(&height.to_be_bytes());
        }
        out.extend(png_chunk(&name, &data));
    }
    out
}

#[test]
fn frames_of_an_animated_png_are_as_large_as_its_canvas() {
    // The frames cover the left upper corner of a larger canvas.
    let small = apng(&[(filled(2, 3, RED), 20), (filled(2, 2, BLUE), 40)]);
    let image = decode_image_bytes(&small).unwrap();
    match &image {
        AnimatedImage::Animated { frames, .. } => {
            assert_eq!(frames.len(), 2);
            for f in frames {
                assert_eq!((f.texture.width, f.texture.height), (2, 3));
            }
            // The last row is still that of the first frame.
            assert_eq!(frames[1].texture.pixels[..4], BLUE);
            assert_eq!(frames[1].texture.pixels[16..20], RED);
        }
        AnimatedImage::Static(_) => panic!("two frames are an animation"),
    }
}

#[test]
fn an_animated_png_that_declares_too_much_shows_nothing() {
    let file = apng(&[(filled(2, 3, RED), 20), (filled(2, 3, BLUE), 40)]);
    assert!(decode_image_bytes(&file).is_some());
    assert!(decode_image_bytes(&with_declared_size(&file, 9_000, 9_000)).is_none());
    assert!(decode_image_bytes(&with_declared_size(&file, 64_000, 1_001)).is_none());
}

/// Two by two red pixels as a lossy WebP file stores them.
const LOSSY_RED: [u8; 48] = [
    0xd0, 0x01, 0x00, 0x9d, 0x01, 0x2a, 0x02, 0x00, 0x02, 0x00, 0x02, 0x00, 0x34, 0x25, 0xa0, 0x02,
    0x74, 0xba, 0x01, 0xf8, 0x00, 0x03, 0xb0, 0x00, 0xfe, 0xf0, 0xc4, 0x0b, 0xff, 0x20, 0xb9, 0x61,
    0x75, 0xc8, 0xd7, 0xff, 0x20, 0x3f, 0xe4, 0x07, 0xfc, 0x80, 0xff, 0xf8, 0xf2, 0x00, 0x00, 0x00,
];

/// A frame that declares a size and holds four red pixels of this opacity.
fn translucent_frame(width: u32, height: u32, opacity: u8) -> Vec<u8> {
    let mut data = Vec::new();
    data.extend_from_slice(&u24(0));
    data.extend_from_slice(&u24(0));
    data.extend_from_slice(&u24(width - 1));
    data.extend_from_slice(&u24(height - 1));
    data.extend_from_slice(&u24(60));
    data.push(2);
    data.extend(riff_chunk(b"ALPH", &[0, opacity, opacity, opacity, opacity]));
    data.extend(riff_chunk(b"VP8 ", &LOSSY_RED));
    riff_chunk(b"ANMF", &data)
}

/// A WebP file with a canvas of four by four pixels.
fn extended_webp(flags: u8, chunks: &[Vec<u8>]) -> Vec<u8> {
    let mut body = b"WEBP".to_vec();
    body.extend(riff_chunk(b"VP8X", &[flags, 0, 0, 0, 3, 0, 0, 3, 0, 0]));
    for chunk in chunks {
        body.extend_from_slice(chunk);
    }
    riff_chunk(b"RIFF", &body)
}

/// A translucent animation of frames with these sizes.
fn translucent(sizes: &[(u32, u32)]) -> Vec<u8> {
    let mut chunks = vec![riff_chunk(b"ANIM", &[0; 6])];
    chunks.extend(sizes.iter().map(|(w, h)| translucent_frame(*w, *h, 128)));
    extended_webp(0x12, &chunks)
}

#[test]
fn translucent_lossy_frames_are_decoded() {
    let file = translucent(&[(2, 2), (2, 2)]);
    assert!(alpha_frames_agree(&file) && first_alpha_frame_agrees(&file));
    let image = decode_image_bytes(&file).unwrap();
    assert_eq!((image.width(), image.height()), (4, 4));
    let frames = shown(&image);
    assert_eq!(frames.len(), 2);
    assert_eq!((frames[0].0[3], frames[0].1), (128, 60));
    assert!(frames[0].0[0] > 110 && frames[0].0[1] < 20, "{frames:?}");
}

#[test]
fn a_frame_of_another_size_than_its_colours_is_not_decoded() {
    for size in [(1, 1), (1, 2), (2, 1), (4, 4), (4, 1)] {
        // The first frame is shown where only a later one is wrong.
        let file = translucent(&[(2, 2), size]);
        assert!(!alpha_frames_agree(&file) && first_alpha_frame_agrees(&file));
        let image = decode_image_bytes(&file).unwrap();
        assert!(matches!(image, AnimatedImage::Static(_)));
        assert_eq!((image.width(), image.height()), (4, 4));
        assert_eq!(shown(&image)[0].0[3], 128);
        let file = translucent(&[size, (2, 2)]);
        assert!(!alpha_frames_agree(&file) && !first_alpha_frame_agrees(&file));
        assert!(decode_image_bytes(&file).is_none());
    }
}

#[test]
fn frames_of_a_file_that_is_no_animation_are_ignored() {
    let still = webp(&filled(4, 4, BLUE))[12..].to_vec();
    let file = extended_webp(0x10, &[still.clone(), translucent_frame(2, 2, 128)]);
    let image = decode_image_bytes(&file).unwrap();
    assert_eq!(shown(&image), vec![(BLUE, 0)]);
    assert!(matches!(image, AnimatedImage::Static(_)));
    // The size of what is ignored does not matter.
    let file = extended_webp(0x10, &[still, translucent_frame(1, 1, 128)]);
    assert!(!first_alpha_frame_agrees(&file));
    assert_eq!(shown(&decode_image_bytes(&file).unwrap()), vec![(BLUE, 0)]);
}

#[test]
fn sizes_are_looked_for_only_where_they_are() {
    assert!(alpha_frames_agree(&[]) && first_alpha_frame_agrees(&[]));
    let file = translucent(&[(1, 1)]);
    assert!(!alpha_frames_agree(&file));
    // The colours are cut off before their size.
    let end = file.len() - LOSSY_RED.len();
    assert!(!alpha_frames_agree(&file[..end + 10]));
    assert!(alpha_frames_agree(&file[..end + 9]));
    // Opaque frames and those without loss have no second size.
    let file = animated_webp(4, 4, &[(filled(4, 4, RED), 30), (filled(4, 4, BLUE), 70)]);
    assert!(alpha_frames_agree(&file) && first_alpha_frame_agrees(&file));
    // A chunk of odd length before the frame is padded.
    let odd = riff_chunk(b"ICCP", &[1, 2, 3]);
    let file = extended_webp(0x12, &[odd, translucent_frame(1, 1, 128)]);
    assert!(!first_alpha_frame_agrees(&file));
}

#[test]
fn a_bitmap_without_columns_shows_nothing() {
    assert!(decode_image_bytes(&bmp_header_with_dims(0, 5)).is_none());
    assert!(decode_image_bytes(&bmp_header_with_dims(0, 0)).is_none());
    let mut file = bmp_header_with_dims(1, 1);
    file.extend_from_slice(&[0, 0, 255, 0]);
    assert_eq!(shown(&decode_image_bytes(&file).unwrap()), vec![(RED, 0)]);
}
