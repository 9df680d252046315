//! Decoding images that cannot be trusted.
//!
//! The decoders are those of the `image` crate. What is decided here is what
//! may be decoded at all, what an animation is made of, and for how long each
//! of its frames is shown.

use std::io::Cursor;

use image::{AnimationDecoder, ImageDecoder};
use vstd::prelude::*;

use crate::webp::{
    alpha_frames_agree, alpha_sizes_agree, first_alpha_frame_agrees, first_alpha_size_agrees,
};

pub mod laws;

verus! {

/// Most pixels of an image. A file that declares more is not decoded: a small
/// file could else ask for any amount of memory.
pub const MAX_IMAGE_PIXELS: u64 = 64_000_000;

/// Most bytes that a decoder may allocate.
pub const MAX_IMAGE_ALLOC_BYTES: u64 = 268_435_456;

/// Most pixels of all frames of an animation: no more than a still image may
/// have.
pub const MAX_ANIMATION_TOTAL_PIXELS: u64 = MAX_IMAGE_PIXELS;

/// How long a frame is shown that names no time, in milliseconds.
pub const DEFAULT_FRAME_MS: u64 = 100;

/// An image as it was decoded: four bytes a pixel, red, green, blue and
/// opacity.
#[derive(Debug, Clone)]
pub struct RawImage {
    pub width: u32,
    pub height: u32,
    pub pixels: Vec<u8>,
}

/// What a [`RawImage`] shows.
#[verifier::ext_equal]
pub struct ImageView {
    pub width: u32,
    pub height: u32,
    pub pixels: Seq<u8>,
}

impl View for RawImage {
    type V = ImageView;

    open spec fn view(&self) -> ImageView {
        ImageView { width: self.width, height: self.height, pixels: self.pixels@ }
    }
}

impl ImageView {
    /// Whether there are bytes for every pixel.
    pub open spec fn whole(self) -> bool {
        self.pixels.len() >= 4 * self.width * self.height
    }
}

/// One frame of an animation as it was decoded, and how long it is shown: a
/// number of milliseconds as a fraction.
#[derive(Debug, Clone)]
pub struct RawFrame {
    pub image: RawImage,
    pub numer: u32,
    pub denom: u32,
}

/// What a [`RawFrame`] shows.
#[verifier::ext_equal]
pub struct RawFrameView {
    pub image: ImageView,
    pub numer: u32,
    pub denom: u32,
}

impl View for RawFrame {
    type V = RawFrameView;

    open spec fn view(&self) -> RawFrameView {
        RawFrameView { image: self.image@, numer: self.numer, denom: self.denom }
    }
}

/// What frames show.
pub open spec fn raw_views(s: Seq<RawFrame>) -> Seq<RawFrameView> {
    s.map_values(|f: RawFrame| f@)
}

/// What a decoder gave.
pub open spec fn frames_view(r: Option<Vec<RawFrame>>) -> Option<Seq<RawFrameView>> {
    match r {
        Some(v) => Some(raw_views(v@)),
        None => None,
    }
}

/// What a decoder gave.
pub open spec fn image_view(r: Option<RawImage>) -> Option<ImageView> {
    match r {
        Some(v) => Some(v@),
        None => None,
    }
}

/// Whether there are bytes for every pixel of every frame.
pub open spec fn all_whole(s: Seq<RawFrameView>) -> bool {
    forall|i: int| 0 <= i < s.len() ==> (#[trigger] s[i]).image.whole()
}

/// Whether there are bytes for every pixel of what a decoder gave.
pub open spec fn decoded_whole(r: Option<Vec<RawFrame>>) -> bool {
    match r {
        Some(v) => all_whole(raw_views(v@)),
        None => true,
    }
}

/// Whether two readings of a file's size are the same, where both gave one.
pub open spec fn same_size(a: Option<(u32, u32)>, b: Option<(u32, u32)>) -> bool {
    a is Some && b is Some ==> a == b
}

/// Whether all frames have this size, if it is known.
pub open spec fn all_sized(s: Seq<RawFrameView>, size: Option<(u32, u32)>) -> bool {
    size matches Some((w, h)) ==> forall|i: int|
        0 <= i < s.len() ==> (#[trigger] s[i]).image.width == w && s[i].image.height == h
}

/// Whether all frames that a decoder gave have this size, if it is known.
pub open spec fn decoded_sized(r: Option<Vec<RawFrame>>, size: Option<(u32, u32)>) -> bool {
    match r {
        Some(v) => all_sized(raw_views(v@), size),
        None => true,
    }
}

/// The size that a file in any known format declares.
pub uninterp spec fn declared_size(bytes: Seq<u8>) -> Option<(u32, u32)>;

/// `ImageReader::with_guessed_format` and `ImageReader::into_dimensions`: the
/// size that the file's header declares, or nothing where its format is not
/// known or its header cannot be read. The formats known are those of the
/// crate itself.
#[verifier::external_body]
fn read_declared_size(bytes: &[u8]) -> (r: Option<(u32, u32)>)
    ensures
        r == declared_size(bytes@),
{
    let reader = image::ImageReader::new(Cursor::new(bytes)).with_guessed_format().ok()?;
    reader.into_dimensions().ok()
}

/// The canvas that a GIF file declares, if it is one.
pub uninterp spec fn gif_canvas(bytes: Seq<u8>) -> Option<(u32, u32)>;

/// `GifDecoder::new` and `GifDecoder::dimensions`: the size of the canvas that
/// the file's header declares, or nothing where the header cannot be read. The
/// decoder takes only files that start with the mark of the format, and for
/// those `ImageReader::into_dimensions` asks the same decoder.
#[verifier::external_body]
fn read_gif_canvas(bytes: &[u8]) -> (r: Option<(u32, u32)>)
    ensures
        r == gif_canvas(bytes@),
        same_size(r, declared_size(bytes@)),
{
    image::codecs::gif::GifDecoder::new(Cursor::new(bytes)).ok().map(|d| d.dimensions())
}

/// The frames of a GIF file, decoded within a limit on memory.
pub uninterp spec fn gif_frames(bytes: Seq<u8>, max_alloc: u64) -> Option<Seq<RawFrameView>>;

/// `GifDecoder::into_frames` and `Frames::collect_frames`: all frames of the
/// file, or nothing where it cannot be decoded. An image buffer has bytes for
/// each of its pixels.
#[verifier::external_body]
fn read_gif_frames(bytes: &[u8], max_alloc: u64) -> (r: Option<Vec<RawFrame>>)
    ensures
        frames_view(r) == gif_frames(bytes@, max_alloc),
        decoded_whole(r),
{
    let mut decoder = image::codecs::gif::GifDecoder::new(Cursor::new(bytes)).ok()?;
    let mut limits = image::Limits::default();
    limits.max_alloc = Some(max_alloc);
    let _ = decoder.set_limits(limits);
    let frames = decoder.into_frames().collect_frames().ok()?;
    Some(frames.into_iter().map(|frame| {
        let (numer, denom) = frame.delay().numer_denom_ms();
        let image = frame.into_buffer();
        let (width, height) = image.dimensions();
        RawFrame { image: RawImage { width, height, pixels: image.into_raw() }, numer, denom }
    }).collect())
}

/// The canvas that a WebP file declares, if it is one.
pub uninterp spec fn webp_canvas(bytes: Seq<u8>) -> Option<(u32, u32)>;

/// `WebPDecoder::new` and `WebPDecoder::dimensions`: the size of the canvas
/// that the file's header declares, or nothing where the header cannot be read.
/// The decoder takes only files that start with the mark of the format, and for
/// those `ImageReader::into_dimensions` asks the same decoder.
#[verifier::external_body]
fn read_webp_canvas(bytes: &[u8]) -> (r: Option<(u32, u32)>)
    ensures
        r == webp_canvas(bytes@),
        same_size(r, declared_size(bytes@)),
{
    image::codecs::webp::WebPDecoder::new(Cursor::new(bytes)).ok().map(|d| d.dimensions())
}

/// Whether a WebP file says that it holds an animation; nothing where it is no
/// WebP file.
pub uninterp spec fn webp_animated(bytes: Seq<u8>) -> Option<bool>;

/// `WebPDecoder::new` and `WebPDecoder::has_animation`: whether the file's
/// header announces an animation, or nothing where the header cannot be read.
#[verifier::external_body]
fn read_webp_animated(bytes: &[u8]) -> (r: Option<bool>)
    ensures
        r == webp_animated(bytes@),
{
    image::codecs::webp::WebPDecoder::new(Cursor::new(bytes)).ok().map(|d| d.has_animation())
}

/// Whether the frames of a WebP file can be decoded: its canvas is not too
/// large, it says that it is an animation, and every frame has the size of its
/// colours.
pub open spec fn webp_decodable(bytes: Seq<u8>) -> bool {
    &&& webp_canvas(bytes) matches Some(size) && size_allowed(size)
    &&& webp_animated(bytes) == Some(true)
    &&& alpha_sizes_agree(bytes)
}

/// The frames of a WebP file, decoded within a limit on memory.
pub uninterp spec fn webp_frames(bytes: Seq<u8>, max_alloc: u64) -> Option<Seq<RawFrameView>>;

/// `WebPDecoder::into_frames` and `Frames::collect_frames`: all frames of the
/// file, or nothing where it cannot be decoded. An image buffer has bytes for
/// each of its pixels. This decoder does not heed the limit on memory.
///
/// Three kinds of files are left out, as the decoder panics on some of each:
/// those whose header announces no animation though they may hold frames, those
/// with a translucent lossy frame that has another size than its colours, and
/// those with so large a canvas that its bytes cannot be counted in 32 bits.
#[verifier::external_body]
fn read_webp_frames(bytes: &[u8], max_alloc: u64) -> (r: Option<Vec<RawFrame>>)
    requires
        webp_decodable(bytes@),
    ensures
        frames_view(r) == webp_frames(bytes@, max_alloc),
        decoded_whole(r),
{
    let mut decoder = image::codecs::webp::WebPDecoder::new(Cursor::new(bytes)).ok()?;
    let mut limits = image::Limits::default();
    limits.max_alloc = Some(max_alloc);
    let _ = decoder.set_limits(limits);
    let frames = decoder.into_frames().collect_frames().ok()?;
    Some(frames.into_iter().map(|frame| {
        let (numer, denom) = frame.delay().numer_denom_ms();
        let image = frame.into_buffer();
        let (width, height) = image.dimensions();
        RawFrame { image: RawImage { width, height, pixels: image.into_raw() }, numer, denom }
    }).collect())
}

/// Whether a file is a PNG file with an animation; nothing where it is no PNG
/// file.
pub uninterp spec fn png_animated(bytes: Seq<u8>) -> Option<bool>;

/// `PngDecoder::new` and `PngDecoder::is_apng`: whether the file's header
/// announces an animation, or nothing where the header cannot be read.
#[verifier::external_body]
fn read_png_animated(bytes: &[u8]) -> (r: Option<bool>)
    ensures
        r == png_animated(bytes@),
{
    image::codecs::png::PngDecoder::new(Cursor::new(bytes)).ok()?.is_apng().ok()
}

/// The frames of an animated PNG file, decoded within a limit on memory.
pub uninterp spec fn apng_frames(bytes: Seq<u8>, max_alloc: u64) -> Option<Seq<RawFrameView>>;

/// `PngDecoder::apng`, `ApngDecoder::into_frames` and `Frames::collect_frames`:
/// all frames of the file, or nothing where it cannot be decoded. An image
/// buffer has bytes for each of its pixels. Every frame is a copy of the canvas,
/// which has the size in the file's header; where
/// `ImageReader::into_dimensions` gives a size for such a file, it is that one.
#[verifier::external_body]
fn read_apng_frames(bytes: &[u8], max_alloc: u64) -> (r: Option<Vec<RawFrame>>)
    ensures
        frames_view(r) == apng_frames(bytes@, max_alloc),
        decoded_whole(r),
        decoded_sized(r, declared_size(bytes@)),
{
    let mut decoder = image::codecs::png::PngDecoder::new(Cursor::new(bytes)).ok()?;
    let mut limits = image::Limits::default();
    limits.max_alloc = Some(max_alloc);
    let _ = decoder.set_limits(limits);
    let frames = decoder.apng().ok()?.into_frames().collect_frames().ok()?;
    Some(frames.into_iter().map(|frame| {
        let (numer, denom) = frame.delay().numer_denom_ms();
        let image = frame.into_buffer();
        let (width, height) = image.dimensions();
        RawFrame { image: RawImage { width, height, pixels: image.into_raw() }, numer, denom }
    }).collect())
}

/// The image in a file of any known format.
pub uninterp spec fn still_image(bytes: Seq<u8>) -> Option<ImageView>;

/// Whether a file is a bitmap without columns.
pub open spec fn blank_bitmap(bytes: Seq<u8>, size: (u32, u32)) -> bool {
    bytes.len() >= 2 && bytes[0] == 0x42 && bytes[1] == 0x4d && size.0 == 0
}

/// Whether a still image can be decoded: its size is known and not too large,
/// it is no bitmap without columns, and if it is the first frame of an animated
/// WebP file, that frame has the size of its colours.
pub open spec fn still_decodable(bytes: Seq<u8>) -> bool {
    &&& declared_size(bytes) matches Some(size) && size_allowed(size) && !blank_bitmap(bytes, size)
    &&& webp_animated(bytes) == Some(true) ==> first_alpha_size_agrees(bytes)
}

/// `image::load_from_memory` and `DynamicImage::to_rgba8`: the decoded image,
/// or nothing where it cannot be decoded.
///
/// Two kinds of files are left out, as a decoder panics on some of each:
/// bitmaps without columns, and animated WebP files whose first frame is
/// translucent and lossy and has another size than its colours.
#[verifier::external_body]
fn read_still_image(bytes: &[u8]) -> (r: Option<RawImage>)
    requires
        still_decodable(bytes@),
    ensures
        image_view(r) == still_image(bytes@),
{
    let image = image::load_from_memory(bytes).ok()?.to_rgba8();
    let (width, height) = image.dimensions();
    Some(RawImage { width, height, pixels: image.into_raw() })
}

/// The pixels of `bottom` with `top` painted over them.
pub uninterp spec fn overlaid(bottom: ImageView, top: ImageView) -> Seq<u8>;

/// `imageops::overlay` at the origin: paints `top` over `bottom`, which keeps
/// its size.
#[verifier::external_body]
fn overlay(bottom: RawImage, top: &RawImage) -> (r: RawImage)
    requires
        bottom@.whole(),
        top@.whole(),
    ensures
        r@ == (ImageView {
            width: bottom.width,
            height: bottom.height,
            pixels: overlaid(bottom@, top@),
        }),
        r.pixels@.len() == bottom.pixels@.len(),
{
    let mut below =
        image::RgbaImage::from_raw(bottom.width, bottom.height, bottom.pixels).unwrap();
    let above = image::RgbaImage::from_raw(top.width, top.height, top.pixels.clone()).unwrap();
    image::imageops::overlay(&mut below, &above, 0, 0);
    RawImage { width: bottom.width, height: bottom.height, pixels: below.into_raw() }
}

/// A texture: four bytes a pixel, colours multiplied by opacity.
#[derive(Debug, Clone)]
pub struct Texture {
    pub width: u32,
    pub height: u32,
    pub pixels: Vec<u8>,
}

impl View for Texture {
    type V = ImageView;

    open spec fn view(&self) -> ImageView {
        ImageView { width: self.width, height: self.height, pixels: self.pixels@ }
    }
}

/// One frame of an animation.
#[derive(Debug, Clone)]
pub struct Frame {
    pub texture: Texture,
    /// How long it is shown, in milliseconds.
    pub duration_ms: u64,
}

/// What a [`Frame`] shows.
#[verifier::ext_equal]
pub struct FrameView {
    pub texture: ImageView,
    pub duration_ms: u64,
}

impl View for Frame {
    type V = FrameView;

    open spec fn view(&self) -> FrameView {
        FrameView { texture: self.texture@, duration_ms: self.duration_ms }
    }
}

/// An image that is shown.
#[derive(Debug, Clone)]
pub enum AnimatedImage {
    /// A still image.
    Static(Texture),
    /// An animation, which is shown over and over.
    Animated { frames: Vec<Frame>, total_duration_ms: u64 },
}

/// What an [`AnimatedImage`] shows.
#[verifier::ext_equal]
pub enum Shown {
    Static(ImageView),
    Animated(Seq<FrameView>, u64),
}

impl Shown {
    /// Width of the image; that of its first frame.
    pub open spec fn width(self) -> u32 {
        match self {
            Shown::Static(t) => t.width,
            Shown::Animated(frames, _) => if frames.len() > 0 {
                frames[0].texture.width
            } else {
                0
            },
        }
    }

    /// Height of the image; that of its first frame.
    pub open spec fn height(self) -> u32 {
        match self {
            Shown::Static(t) => t.height,
            Shown::Animated(frames, _) => if frames.len() > 0 {
                frames[0].texture.height
            } else {
                0
            },
        }
    }
}

impl View for AnimatedImage {
    type V = Shown;

    open spec fn view(&self) -> Shown {
        match *self {
            AnimatedImage::Static(t) => Shown::Static(t@),
            AnimatedImage::Animated { frames, total_duration_ms } => Shown::Animated(
                frames@.map_values(|f: Frame| f@),
                total_duration_ms,
            ),
        }
    }
}

/// Where an image is on its way to the screen.
#[derive(Debug, Clone)]
pub enum AssetSlot {
    /// It is being loaded.
    Loading,
    /// It can be shown.
    Ready(AnimatedImage),
    /// It could not be loaded.
    Failed,
}

impl AnimatedImage {
    /// Width of the image; that of its first frame.
    pub fn width(&self) -> (w: u32)
        ensures
            w == self@.width(),
    {
        match self {
            AnimatedImage::Static(t) => t.width,
            AnimatedImage::Animated { frames, .. } => {
                if frames.len() > 0 {
                    frames[0].texture.width
                } else {
                    0
                }
            },
        }
    }

    /// Height of the image; that of its first frame.
    pub fn height(&self) -> (h: u32)
        ensures
            h == self@.height(),
    {
        match self {
            AnimatedImage::Static(t) => t.height,
            AnimatedImage::Animated { frames, .. } => {
                if frames.len() > 0 {
                    frames[0].texture.height
                } else {
                    0
                }
            },
        }
    }
}

/// A colour channel multiplied by the opacity, rounded to the nearest value.
pub open spec fn scaled(c: u8, a: u8) -> u8 {
    ((2 * c * a + 255) / 510) as u8
}

/// Byte `i` of a buffer whose whole pixels are multiplied by their opacity.
pub open spec fn premultiplied_byte(b: Seq<u8>, i: int) -> u8 {
    let pixel = i / 4 * 4;
    if i % 4 == 3 || pixel + 3 >= b.len() {
        b[i]
    } else {
        scaled(b[i], b[pixel + 3])
    }
}

/// A buffer whose whole pixels are multiplied by their opacity.
pub open spec fn premultiplied(b: Seq<u8>) -> Seq<u8> {
    Seq::new(b.len(), |i: int| premultiplied_byte(b, i))
}

/// A colour channel multiplied by the opacity.
fn scale(c: u8, a: u8) -> (r: u8)
    ensures
        r == scaled(c, a),
        r <= a,
{
    proof {
        assert(0 <= c * a <= 255 * a) by (nonlinear_arith)
            requires
                0 <= c <= 255,
                0 <= a <= 255,
        ;
    }
    let product: u32 = c as u32 * a as u32;
    proof {
        assert(2 * c * a == 2 * product) by (nonlinear_arith)
            requires
                product == c * a,
        ;
    }
    ((2 * product + 255) / 510) as u8
}

/// Multiplies the colours of every whole pixel by its opacity.
pub fn premultiply_alpha(buffer: &mut [u8])
    ensures
        final(buffer)@ == premultiplied(old(buffer)@),
{
    let ghost before = buffer@;
    let n = buffer.len();
    let mut i: usize = 0;
    while i < n && 4 <= n - i
        invariant
            i <= n == buffer@.len() == before.len(),
            i % 4 == 0,
            forall|j: int| 0 <= j < i ==> #[trigger] buffer@[j] == premultiplied_byte(before, j),
            forall|j: int| i <= j < n ==> #[trigger] buffer@[j] == before[j],
        decreases n - i,
    {
        let a = buffer[i + 3];
        let r = scale(buffer[i], a);
        let g = scale(buffer[i + 1], a);
        let b = scale(buffer[i + 2], a);
        buffer[i] = r;
        buffer[i + 1] = g;
        buffer[i + 2] = b;
        proof {
            assert(i as int / 4 * 4 == i);
            assert((i + 1) / 4 * 4 == i);
            assert((i + 2) / 4 * 4 == i);
            assert((i + 3) / 4 * 4 == i);
        }
        i += 4;
    }
    proof {
        assert forall|j: int| 0 <= j < n implies #[trigger] buffer@[j] == premultiplied_byte(
            before,
            j,
        ) by {
            if j >= i {
                assert(j / 4 * 4 == i);
            }
        }
        assert(buffer@ =~= premultiplied(before));
    }
}

/// How long a frame is shown that names this time.
pub open spec fn shown_for(numer: u32, denom: u32) -> u64 {
    if denom == 0 || numer / denom == 0 {
        DEFAULT_FRAME_MS
    } else {
        (numer / denom) as u64
    }
}

/// How long a frame is shown that names this time.
pub fn frame_duration(numer: u32, denom: u32) -> (ms: u64)
    ensures
        ms == shown_for(numer, denom),
        0 < ms <= u32::MAX,
{
    if denom == 0 {
        return DEFAULT_FRAME_MS;
    }
    let ms: u32 = numer / denom;
    if ms == 0 {
        DEFAULT_FRAME_MS
    } else {
        ms as u64
    }
}

/// An image made ready to be shown.
pub open spec fn texture_of(image: ImageView) -> ImageView {
    ImageView { pixels: premultiplied(image.pixels), ..image }
}

/// Makes an image ready to be shown.
pub fn make_texture(image: RawImage) -> (t: Texture)
    ensures
        t@ == texture_of(image@),
{
    let mut pixels = image.pixels;
    premultiply_alpha(pixels.as_mut_slice());
    Texture { width: image.width, height: image.height, pixels }
}

/// Makes a frame ready to be shown.
pub fn make_frame(image: RawImage, numer: u32, denom: u32) -> (f: Frame)
    ensures
        f@ == (FrameView {
            texture: texture_of(image@),
            duration_ms: shown_for(numer, denom),
        }),
{
    Frame { texture: make_texture(image), duration_ms: frame_duration(numer, denom) }
}

/// Whether an image of this size may be decoded.
pub open spec fn size_allowed(size: (u32, u32)) -> bool {
    size.0 * size.1 <= MAX_IMAGE_PIXELS
}

/// Whether an image of this size may be decoded.
pub fn allow_size(size: (u32, u32)) -> (r: bool)
    ensures
        r == size_allowed(size),
{
    proof {
        assert(size.0 * size.1 <= 0xffff_ffff * 0xffff_ffff) by (nonlinear_arith)
            requires
                size.0 <= 0xffff_ffff,
                size.1 <= 0xffff_ffff,
        ;
    }
    size.0 as u64 * size.1 as u64 <= MAX_IMAGE_PIXELS
}

/// Whether an animation of `n` frames of this size may be shown.
pub open spec fn animation_allowed(width: u32, height: u32, n: nat) -> bool {
    n * (width * height) <= MAX_ANIMATION_TOTAL_PIXELS
}

/// Whether an animation of `n` frames of this size may be shown.
pub fn allow_animation(width: u32, height: u32, n: usize) -> (r: bool)
    ensures
        r == animation_allowed(width, height, n as nat),
{
    proof {
        assert(width * height <= 0xffff_ffff * 0xffff_ffff) by (nonlinear_arith)
            requires
                width <= 0xffff_ffff,
                height <= 0xffff_ffff,
        ;
    }
    let pixels: u64 = width as u64 * height as u64;
    proof {
        assert(n * pixels <= 0xffff_ffff_ffff_ffff * 0xffff_ffff_ffff_ffff) by (nonlinear_arith)
            requires
                n <= 0xffff_ffff_ffff_ffff,
                pixels <= 0xffff_ffff_ffff_ffff,
        ;
        assert(n * (width * height) == n * pixels);
    }
    n as u128 * pixels as u128 <= MAX_ANIMATION_TOTAL_PIXELS as u128
}

/// The canvas after frame `k`: each frame is painted over the ones before.
pub open spec fn canvas_after(frames: Seq<RawFrameView>, k: nat) -> ImageView
    decreases k,
{
    if k == 0 {
        frames[0].image
    } else {
        let below = canvas_after(frames, (k - 1) as nat);
        ImageView { pixels: overlaid(below, frames[k as int].image), ..below }
    }
}

/// Frame `k` as it is shown.
pub open spec fn shown_frame(frames: Seq<RawFrameView>, k: int) -> FrameView {
    FrameView {
        texture: texture_of(canvas_after(frames, k as nat)),
        duration_ms: shown_for(frames[k].numer, frames[k].denom),
    }
}

/// How long the first `n` frames are shown.
pub open spec fn total_shown(frames: Seq<RawFrameView>, n: nat) -> nat
    decreases n,
{
    if n == 0 {
        0
    } else {
        total_shown(frames, (n - 1) as nat) + shown_for(frames[n - 1].numer, frames[n - 1].denom)
            as nat
    }
}

/// A sum that stops at the greatest number.
pub open spec fn up_to_max(n: nat) -> u64 {
    if n <= u64::MAX {
        n as u64
    } else {
        u64::MAX
    }
}

/// The animation that frames make; none where they have too many pixels.
pub open spec fn animation_of(frames: Seq<RawFrameView>) -> Option<Shown> {
    if animation_allowed(frames[0].image.width, frames[0].image.height, frames.len()) {
        Some(
            Shown::Animated(
                Seq::new(frames.len(), |k: int| shown_frame(frames, k)),
                up_to_max(total_shown(frames, frames.len())),
            ),
        )
    } else {
        None
    }
}

/// Makes an animation; none where its frames have too many pixels. How many
/// they have is known before the first is painted: all are as large as the
/// first.
pub fn animate(frames: Vec<RawFrame>) -> (r: Option<AnimatedImage>)
    requires
        frames@.len() > 0,
        all_whole(raw_views(frames@)),
    ensures
        (match r {
            Some(a) => Some(a@),
            None => None,
        }) == animation_of(raw_views(frames@)),
{
    let ghost raw = raw_views(frames@);
    let n = frames.len();
    proof {
        assert(raw[0] == frames@[0]@);
    }
    if !allow_animation(frames[0].image.width, frames[0].image.height, n) {
        return None;
    }
    let mut shown: Vec<Frame> = Vec::new();
    let mut total: u64 = 0;
    proof {
        assert(raw[0].image.whole());
    }
    let mut canvas = RawImage {
        width: frames[0].image.width,
        height: frames[0].image.height,
        pixels: frames[0].image.pixels.clone(),
    };
    proof {
        assert(canvas@ =~= raw[0].image);
    }
    let mut k: usize = 0;
    while k < n
        invariant
            k <= n == frames@.len() == raw.len(),
            raw == raw_views(frames@),
            all_whole(raw),
            n > 0,
            shown@.len() == k,
            canvas@ == canvas_after(
                raw,
                if k == 0 {
                    0
                } else {
                    (k - 1) as nat
                },
            ),
            canvas@.whole(),
            total == up_to_max(total_shown(raw, k as nat)),
            forall|j: int| 0 <= j < k ==> (#[trigger] shown@[j])@ == shown_frame(raw, j),
        decreases n - k,
    {
        proof {
            assert(raw[k as int] == frames@[k as int]@);
            assert(raw[k as int].image.whole());
        }
        if k > 0 {
            canvas = overlay(canvas, &frames[k].image);
        }
        let pixels = canvas.pixels.clone();
        proof {
            assert(pixels@ =~= canvas.pixels@);
        }
        let frame = make_frame(
            RawImage { width: canvas.width, height: canvas.height, pixels },
            frames[k].numer,
            frames[k].denom,
        );
        total = total.saturating_add(frame.duration_ms);
        proof {
            assert(frame@ =~= shown_frame(raw, k as int));
        }
        shown.push(frame);
        k += 1;
    }
    let a = AnimatedImage::Animated { frames: shown, total_duration_ms: total };
    proof {
        let want = Seq::new(raw.len(), |k: int| shown_frame(raw, k));
        assert(shown@.map_values(|f: Frame| f@) =~= want);
    }
    Some(a)
}

/// Whether a decoder gave an animation: more than one frame.
pub open spec fn moves(frames: Option<Seq<RawFrameView>>) -> bool {
    frames matches Some(s) && s.len() > 1
}

/// The frames of a GIF file that may be decoded.
pub open spec fn gif_animation(bytes: Seq<u8>) -> Option<Seq<RawFrameView>> {
    match gif_canvas(bytes) {
        Some(size) => if size_allowed(size) {
            gif_frames(bytes, MAX_IMAGE_ALLOC_BYTES)
        } else {
            None
        },
        None => None,
    }
}

/// The frames of a WebP file that may be decoded.
pub open spec fn webp_animation(bytes: Seq<u8>) -> Option<Seq<RawFrameView>> {
    if webp_decodable(bytes) {
        webp_frames(bytes, MAX_IMAGE_ALLOC_BYTES)
    } else {
        None
    }
}

/// The frames of an animated PNG file.
pub open spec fn png_animation(bytes: Seq<u8>) -> Option<Seq<RawFrameView>> {
    if png_animated(bytes) == Some(true) {
        apng_frames(bytes, MAX_IMAGE_ALLOC_BYTES)
    } else {
        None
    }
}

/// A still image that may be decoded.
pub open spec fn still(bytes: Seq<u8>) -> Option<Shown> {
    if still_decodable(bytes) {
        match still_image(bytes) {
            Some(image) => Some(Shown::Static(texture_of(image))),
            None => None,
        }
    } else {
        None
    }
}

/// What a file shows: an animation where a decoder finds one, else a still
/// image. An animation that is too large shows nothing. An animated WebP file
/// with a frame of another size than its colours shows its first frame, or
/// nothing where it is that one.
pub open spec fn decoded(bytes: Seq<u8>) -> Option<Shown> {
    if moves(gif_animation(bytes)) {
        animation_of(gif_animation(bytes)->0)
    } else if moves(webp_animation(bytes)) {
        animation_of(webp_animation(bytes)->0)
    } else if moves(png_animation(bytes)) {
        animation_of(png_animation(bytes)->0)
    } else {
        still(bytes)
    }
}

/// Decodes the frames of a GIF file that may be decoded.
fn decode_gif(bytes: &[u8]) -> (r: Option<Vec<RawFrame>>)
    ensures
        frames_view(r) == gif_animation(bytes@),
        decoded_whole(r),
        declares_too_much(bytes@) ==> r is None,
{
    match read_gif_canvas(bytes) {
        Some(size) => if allow_size(size) {
            read_gif_frames(bytes, MAX_IMAGE_ALLOC_BYTES)
        } else {
            None
        },
        None => None,
    }
}

/// Decodes the frames of a WebP file that may be decoded.
fn decode_webp(bytes: &[u8]) -> (r: Option<Vec<RawFrame>>)
    ensures
        frames_view(r) == webp_animation(bytes@),
        decoded_whole(r),
        declares_too_much(bytes@) ==> r is None,
{
    let allowed = match read_webp_canvas(bytes) {
        Some(size) => allow_size(size),
        None => false,
    };
    let animated = match read_webp_animated(bytes) {
        Some(a) => a,
        None => false,
    };
    if allowed && animated && alpha_frames_agree(bytes) {
        read_webp_frames(bytes, MAX_IMAGE_ALLOC_BYTES)
    } else {
        None
    }
}

/// Decodes the frames of an animated PNG file.
fn decode_apng(bytes: &[u8]) -> (r: Option<Vec<RawFrame>>)
    ensures
        frames_view(r) == png_animation(bytes@),
        decoded_whole(r),
        decoded_sized(r, declared_size(bytes@)),
{
    match read_png_animated(bytes) {
        Some(true) => read_apng_frames(bytes, MAX_IMAGE_ALLOC_BYTES),
        _ => None,
    }
}

/// Whether a file is a bitmap without columns.
fn is_blank_bitmap(bytes: &[u8], size: (u32, u32)) -> (r: bool)
    ensures
        r == blank_bitmap(bytes@, size),
{
    bytes.len() >= 2 && bytes[0] == 0x42 && bytes[1] == 0x4d && size.0 == 0
}

/// Decodes a still image that may be decoded.
fn decode_still(bytes: &[u8]) -> (r: Option<AnimatedImage>)
    ensures
        (match r {
            Some(a) => Some(a@),
            None => None,
        }) == still(bytes@),
{
    match read_declared_size(bytes) {
        Some(size) => {
            if !allow_size(size) || is_blank_bitmap(bytes, size) {
                return None;
            }
        },
        None => {
            return None;
        },
    }
    if let Some(true) = read_webp_animated(bytes) {
        if !first_alpha_frame_agrees(bytes) {
            return None;
        }
    }
    match read_still_image(bytes) {
        Some(image) => Some(AnimatedImage::Static(make_texture(image))),
        None => None,
    }
}

/// Whether a file declares more pixels than an image may have.
pub open spec fn declares_too_much(bytes: Seq<u8>) -> bool {
    declared_size(bytes) matches Some(size) && !size_allowed(size)
}

/// Decodes an image: an animated GIF, WebP or PNG file, or a still image in any
/// known format. A file that declares too large an image shows nothing, whether
/// it moves or not.
pub fn decode_image_bytes(bytes: &[u8]) -> (r: Option<AnimatedImage>)
    ensures
        (match r {
            Some(a) => Some(a@),
            None => None,
        }) == decoded(bytes@),
        declares_too_much(bytes@) ==> r is None,
{
    if let Some(frames) = decode_gif(bytes) {
        if frames.len() > 1 {
            return animate(frames);
        }
    }
    if let Some(frames) = decode_webp(bytes) {
        if frames.len() > 1 {
            return animate(frames);
        }
    }
    if let Some(frames) = decode_apng(bytes) {
        if frames.len() > 1 {
            proof {
                if declares_too_much(bytes@) {
                    lemma_large_frames(raw_views(frames@), declared_size(bytes@)->0);
                }
            }
            return animate(frames);
        }
    }
    decode_still(bytes)
}

/// Frames that are each too large make no animation.
proof fn lemma_large_frames(frames: Seq<RawFrameView>, size: (u32, u32))
    requires
        frames.len() > 0,
        all_sized(frames, Some(size)),
        !size_allowed(size),
    ensures
        animation_of(frames) is None,
{
    let n = frames.len();
    let pixels = frames[0].image.width * frames[0].image.height;
    assert(n * pixels >= pixels) by (nonlinear_arith)
        requires
            n >= 1,
            pixels >= 0,
    ;
}

/// What is not in any known format shows nothing.
pub proof fn law_garbage_is_rejected(bytes: Seq<u8>)
    requires
        gif_canvas(bytes) is None,
        webp_canvas(bytes) is None,
        png_animated(bytes) is None,
        declared_size(bytes) is None,
    ensures
        decoded(bytes) is None,
{
}

/// All frames of an animation together have no more pixels than a still image
/// may have, and all are as large as the first.
pub proof fn law_an_animation_costs_no_more_than_a_still_image(frames: Seq<RawFrameView>, k: int)
    requires
        frames.len() > 0,
        animation_of(frames) is Some,
        0 <= k < frames.len(),
    ensures
        animation_of(frames) matches Some(Shown::Animated(shown, _)) && {
            &&& shown.len() == frames.len()
            &&& shown.len() * (shown[0].texture.width * shown[0].texture.height)
                <= MAX_IMAGE_PIXELS
            &&& shown[k].texture.width == shown[0].texture.width
            &&& shown[k].texture.height == shown[0].texture.height
        },
{
    lemma_canvas_size(frames, k as nat);
}

proof fn lemma_canvas_size(frames: Seq<RawFrameView>, k: nat)
    ensures
        canvas_after(frames, k).width == frames[0].image.width,
        canvas_after(frames, k).height == frames[0].image.height,
    decreases k,
{
    if k > 0 {
        lemma_canvas_size(frames, (k - 1) as nat);
    }
}

/// Every frame is shown for some time.
pub proof fn law_every_frame_is_shown(numer: u32, denom: u32)
    ensures
        shown_for(numer, denom) > 0,
{
}

/// Multiplying by the opacity leaves opaque pixels and all opacities alone,
/// blackens transparent pixels, and leaves no channel above the opacity.
pub proof fn law_premultiplied_pixels(b: Seq<u8>, i: int)
    requires
        0 <= i < b.len(),
        i / 4 * 4 + 3 < b.len(),
    ensures
        premultiplied(b).len() == b.len(),
        premultiplied(b)[i] <= b[i / 4 * 4 + 3],
        i % 4 == 3 ==> premultiplied(b)[i] == b[i],
        b[i / 4 * 4 + 3] == 255 ==> premultiplied(b)[i] == b[i],
        b[i / 4 * 4 + 3] == 0 ==> premultiplied(b)[i] == 0,
{
    let c = b[i];
    let a = b[i / 4 * 4 + 3];
    assert(2 * c * a + 255 <= 510 * a + 255) by (nonlinear_arith)
        requires
            0 <= c <= 255,
            0 <= a <= 255,
    ;
    assert(2 * c * a >= 0) by (nonlinear_arith)
        requires
            0 <= c <= 255,
            0 <= a <= 255,
    ;
    if a == 255 {
        assert((2 * c * a + 255) / 510 == c) by (nonlinear_arith)
            requires
                a == 255,
                0 <= c <= 255,
        ;
    }
    if a == 0 {
        assert(2 * c * a == 0) by (nonlinear_arith)
            requires
                a == 0,
        ;
    }
}

} // verus!
