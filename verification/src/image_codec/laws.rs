//! What holds of decoded images.

use vstd::prelude::*;

use crate::image_codec::{
    animation_of, apng_frames, canvas_after, declared_size, declares_too_much, decoded, gif_canvas,
    gif_frames, overlaid, png_animated, premultiplied, shown_for, still_image, texture_of,
    total_shown, webp_animated, webp_canvas, webp_frames, FrameView, ImageView, RawFrameView, Shown,
};
use crate::webp::{alpha_sizes_agree, first_alpha_size_agrees};

verus! {

/// Whether `r` is the colour channel `c` under the opacity `a`, to the nearest
/// value.
pub open spec fn nearest_share(c: u8, a: u8, r: u8) -> bool {
    -255 <= 2 * (255 * r - c * a) <= 255
}

/// Whether `after` holds the pixels of `before` with their colours multiplied
/// by their opacity, and the opacities themselves unchanged.
pub open spec fn multiplied(before: Seq<u8>, after: Seq<u8>) -> bool {
    &&& after.len() == before.len()
    &&& forall|p: int|
        #![trigger before[4 * p + 3]]
        0 <= p && 4 * p + 3 < before.len() ==> {
            &&& after[4 * p + 3] == before[4 * p + 3]
            &&& nearest_share(before[4 * p], before[4 * p + 3], after[4 * p])
            &&& nearest_share(before[4 * p + 1], before[4 * p + 3], after[4 * p + 1])
            &&& nearest_share(before[4 * p + 2], before[4 * p + 3], after[4 * p + 2])
        }
}

proof fn lemma_share(b: Seq<u8>, p: int, d: int)
    requires
        0 <= p,
        4 * p + 3 < b.len(),
        0 <= d < 3,
    ensures
        nearest_share(b[4 * p + d], b[4 * p + 3], premultiplied(b)[4 * p + d]),
{
    let i = 4 * p + d;
    assert(i / 4 * 4 == 4 * p && i % 4 == d);
    let c = b[i];
    let a = b[4 * p + 3];
    let n = c * a;
    assert(0 <= n <= 255 * 255) by (nonlinear_arith)
        requires
            n == c * a,
            0 <= c <= 255,
            0 <= a <= 255,
    ;
    assert(2 * c * a == 2 * n) by (nonlinear_arith)
        requires
            n == c * a,
    ;
    let q = (2 * n + 255) / 510;
    assert(0 <= q <= 255);
    assert(premultiplied(b)[i] == q as u8);
}

/// An image is shown at its own size, with its colours multiplied by their
/// opacity.
pub proof fn law_colours_are_multiplied_by_opacity(image: ImageView)
    ensures
        texture_of(image).width == image.width,
        texture_of(image).height == image.height,
        multiplied(image.pixels, texture_of(image).pixels),
{
    let b = image.pixels;
    assert forall|p: int|
        #![trigger b[4 * p + 3]]
        0 <= p && 4 * p + 3 < b.len() implies {
        &&& premultiplied(b)[4 * p + 3] == b[4 * p + 3]
        &&& nearest_share(b[4 * p], b[4 * p + 3], premultiplied(b)[4 * p])
        &&& nearest_share(b[4 * p + 1], b[4 * p + 3], premultiplied(b)[4 * p + 1])
        &&& nearest_share(b[4 * p + 2], b[4 * p + 3], premultiplied(b)[4 * p + 2])
    } by {
        lemma_share(b, p, 0);
        lemma_share(b, p, 1);
        lemma_share(b, p, 2);
    }
}

/// Whether the frames that a decoder gave make no animation.
pub open spec fn at_most_one(frames: Option<Seq<RawFrameView>>) -> bool {
    frames matches Some(f) ==> f.len() <= 1
}

/// A file that no format takes for an animation shows its image whole, whatever
/// its sides, as long as it has no more than 64 million pixels.
pub proof fn law_still_images_are_shown(bytes: Seq<u8>, w: u32, h: u32, image: ImageView)
    requires
        declared_size(bytes) == Some((w, h)),
        w * h <= 64_000_000,
        w > 0,
        gif_canvas(bytes) is None || at_most_one(gif_frames(bytes, 268_435_456)),
        webp_animated(bytes) != Some(true),
        png_animated(bytes) != Some(true) || at_most_one(apng_frames(bytes, 268_435_456)),
        still_image(bytes) == Some(image),
    ensures
        decoded(bytes) matches Some(Shown::Static(t)) && t.width == image.width && t.height
            == image.height && multiplied(image.pixels, t.pixels),
{
    law_colours_are_multiplied_by_opacity(image);
}

/// An animated WebP file without a second frame shows its first, as long as
/// that frame has the size of its colours.
pub proof fn law_one_frame_is_a_still_image(bytes: Seq<u8>, w: u32, h: u32, image: ImageView)
    requires
        declared_size(bytes) == Some((w, h)),
        w * h <= 64_000_000,
        w > 0,
        gif_canvas(bytes) is None || at_most_one(gif_frames(bytes, 268_435_456)),
        at_most_one(webp_frames(bytes, 268_435_456)),
        first_alpha_size_agrees(bytes),
        png_animated(bytes) != Some(true) || at_most_one(apng_frames(bytes, 268_435_456)),
        still_image(bytes) == Some(image),
    ensures
        decoded(bytes) matches Some(Shown::Static(t)) && t.width == image.width && t.height
            == image.height && multiplied(image.pixels, t.pixels),
{
    law_colours_are_multiplied_by_opacity(image);
}

/// A file that no format takes for an animation shows nothing if it declares
/// no size, or more than 64 million pixels, or if it cannot be decoded.
pub proof fn law_large_images_are_not_shown(bytes: Seq<u8>)
    requires
        gif_canvas(bytes) is None || at_most_one(gif_frames(bytes, 268_435_456)),
        webp_animated(bytes) != Some(true) || at_most_one(webp_frames(bytes, 268_435_456)),
        png_animated(bytes) != Some(true) || at_most_one(apng_frames(bytes, 268_435_456)),
    ensures
        declared_size(bytes) is None ==> decoded(bytes) is None,
        declared_size(bytes) matches Some((w, h)) && w * h > 64_000_000 ==> decoded(bytes) is None,
        still_image(bytes) is None ==> decoded(bytes) is None,
{
}

/// How long a frame is shown: the time that it names, in whole milliseconds,
/// or a tenth of a second where that is none.
pub proof fn law_frames_are_shown_as_long_as_they_say(numer: u32, denom: u32)
    ensures
        denom == 0 || numer < denom ==> shown_for(numer, denom) == 100,
        denom > 0 && numer >= denom ==> {
            let ms = shown_for(numer, denom);
            ms > 0 && ms * denom <= numer && numer < (ms + 1) * denom
        },
{
    if denom > 0 {
        let q = numer as int / denom as int;
        assert(q * denom <= numer < (q + 1) * denom) by (nonlinear_arith)
            requires
                q == numer as int / denom as int,
                denom > 0,
                numer >= 0,
        ;
        if numer >= denom {
            assert(q > 0) by (nonlinear_arith)
                requires
                    numer < (q + 1) * denom,
                    numer >= denom,
                    denom > 0,
            ;
        } else {
            assert(q == 0) by (nonlinear_arith)
                requires
                    q * denom <= numer,
                    numer < denom,
                    numer < (q + 1) * denom,
                    numer >= 0,
            ;
        }
    }
}

/// The time of the first `n` frames together.
pub open spec fn time(shown: Seq<FrameView>, n: nat) -> nat
    decreases n,
{
    if n == 0 {
        0
    } else {
        time(shown, (n - 1) as nat) + shown[n - 1].duration_ms as nat
    }
}

/// Whether canvas `k` is the one before with frame `k` painted over it.
pub open spec fn painted_over(
    frames: Seq<RawFrameView>,
    canvas: Seq<ImageView>,
    k: int,
) -> bool {
    canvas[k] == (ImageView {
        width: frames[0].image.width,
        height: frames[0].image.height,
        pixels: overlaid(canvas[k - 1], frames[k].image),
    })
}

/// Whether `canvas` starts with the first frame, and every further frame is
/// painted over what was there.
pub open spec fn painted(frames: Seq<RawFrameView>, canvas: Seq<ImageView>) -> bool {
    &&& canvas.len() == frames.len()
    &&& canvas[0] == frames[0].image
    &&& forall|k: int| 0 < k < frames.len() ==> #[trigger] painted_over(frames, canvas, k)
}

/// Whether frame `k` of an animation shows this canvas for the time that the
/// decoded frame names.
pub open spec fn plays(f: FrameView, canvas: ImageView, raw: RawFrameView) -> bool {
    &&& f.texture.width == canvas.width
    &&& f.texture.height == canvas.height
    &&& multiplied(canvas.pixels, f.texture.pixels)
    &&& f.duration_ms == shown_for(raw.numer, raw.denom)
}

proof fn lemma_canvas(frames: Seq<RawFrameView>, k: nat)
    ensures
        canvas_after(frames, k).width == frames[0].image.width,
        canvas_after(frames, k).height == frames[0].image.height,
    decreases k,
{
    if k > 0 {
        lemma_canvas(frames, (k - 1) as nat);
    }
}

proof fn lemma_time(frames: Seq<RawFrameView>, shown: Seq<FrameView>, n: nat)
    requires
        n <= frames.len() == shown.len(),
        forall|k: int|
            #![trigger shown[k]]
            0 <= k < shown.len() ==> shown[k].duration_ms == shown_for(
                frames[k].numer,
                frames[k].denom,
            ),
    ensures
        time(shown, n) == total_shown(frames, n),
    decreases n,
{
    if n > 0 {
        lemma_time(frames, shown, (n - 1) as nat);
        assert(shown[n - 1].duration_ms == shown_for(frames[n - 1].numer, frames[n - 1].denom));
    }
}

/// Frames with no more than 64 million pixels together are all shown, each
/// painted over the ones before and for its own time, and the animation takes
/// as long as they do together. Frames with more show nothing.
pub proof fn law_animations_show_every_frame(frames: Seq<RawFrameView>) -> (canvas: Seq<ImageView>)
    requires
        frames.len() > 0,
    ensures
        painted(frames, canvas),
        frames.len() * (frames[0].image.width * frames[0].image.height) > 64_000_000
            ==> animation_of(frames) is None,
        frames.len() * (frames[0].image.width * frames[0].image.height) <= 64_000_000 ==> (
        animation_of(frames) matches Some(Shown::Animated(shown, total)) && {
            &&& shown.len() == frames.len()
            &&& forall|k: int|
                #![trigger shown[k]]
                0 <= k < shown.len() ==> plays(shown[k], canvas[k], frames[k])
            &&& time(shown, shown.len()) <= u64::MAX ==> total == time(shown, shown.len())
            &&& time(shown, shown.len()) > u64::MAX ==> total == u64::MAX
        }),
{
    let canvas = Seq::new(frames.len(), |k: int| canvas_after(frames, k as nat));
    assert forall|k: int| 0 < k < frames.len() implies #[trigger] painted_over(
        frames,
        canvas,
        k,
    ) by {
        lemma_canvas(frames, k as nat);
        assert(canvas[k - 1] == canvas_after(frames, (k - 1) as nat));
    }
    if animation_of(frames) is Some {
        let shown = animation_of(frames)->0->Animated_0;
        assert forall|k: int| #![trigger shown[k]] 0 <= k < shown.len() implies plays(
            shown[k],
            canvas[k],
            frames[k],
        ) by {
            law_colours_are_multiplied_by_opacity(canvas[k]);
        }
        lemma_time(frames, shown, shown.len());
    }
    canvas
}

/// A GIF file of no more than 64 million pixels that holds frames is shown as
/// their animation.
pub proof fn law_gif_frames_are_shown(bytes: Seq<u8>, w: u32, h: u32, frames: Seq<RawFrameView>)
    requires
        gif_canvas(bytes) == Some((w, h)),
        w * h <= 64_000_000,
        gif_frames(bytes, 268_435_456) == Some(frames),
        frames.len() > 1,
    ensures
        decoded(bytes) == animation_of(frames),
{
}

/// An animated WebP file of no more than 64 million pixels, whose frames have
/// the size of their colours, is shown as their animation.
pub proof fn law_webp_frames_are_shown(bytes: Seq<u8>, w: u32, h: u32, frames: Seq<RawFrameView>)
    requires
        gif_canvas(bytes) is None || at_most_one(gif_frames(bytes, 268_435_456)),
        webp_canvas(bytes) == Some((w, h)),
        w * h <= 64_000_000,
        webp_animated(bytes) == Some(true),
        alpha_sizes_agree(bytes),
        webp_frames(bytes, 268_435_456) == Some(frames),
        frames.len() > 1,
    ensures
        decoded(bytes) == animation_of(frames),
{
}

/// An animated PNG file is shown as the animation of its frames.
pub proof fn law_apng_frames_are_shown(bytes: Seq<u8>, frames: Seq<RawFrameView>)
    requires
        gif_canvas(bytes) is None || at_most_one(gif_frames(bytes, 268_435_456)),
        webp_animated(bytes) != Some(true) || at_most_one(webp_frames(bytes, 268_435_456)),
        png_animated(bytes) == Some(true),
        apng_frames(bytes, 268_435_456) == Some(frames),
        frames.len() > 1,
    ensures
        decoded(bytes) == animation_of(frames),
{
}

/// A bitmap without columns shows nothing.
pub proof fn law_empty_bitmaps_show_nothing(bytes: Seq<u8>, h: u32)
    requires
        bytes.len() >= 2,
        bytes[0] == 0x42,
        bytes[1] == 0x4d,
        declared_size(bytes) == Some((0u32, h)),
        gif_canvas(bytes) is None,
        webp_canvas(bytes) is None,
        png_animated(bytes) is None,
    ensures
        decoded(bytes) is None,
{
}

/// A GIF file that declares more than 64 million pixels is not taken for an
/// animation, and neither is an animated WebP file that does, or one with a
/// frame of another size than its colours.
pub proof fn law_large_animations_are_not_decoded(bytes: Seq<u8>, w: u32, h: u32)
    requires
        w * h > 64_000_000,
        declared_size(bytes) == Some((w, h)),
        png_animated(bytes) != Some(true),
    ensures
        gif_canvas(bytes) == Some((w, h)) && webp_canvas(bytes) is None ==> decoded(bytes) is None,
        gif_canvas(bytes) is None && webp_canvas(bytes) == Some((w, h)) ==> decoded(bytes) is None,
{
}

/// An image is as large as its texture, and an animation as its first frame.
pub proof fn law_animations_are_as_large_as_their_first_frame(
    t: ImageView,
    frames: Seq<FrameView>,
    total: u64,
)
    ensures
        Shown::Static(t).width() == t.width && Shown::Static(t).height() == t.height,
        frames.len() > 0 ==> Shown::Animated(frames, total).width() == frames[0].texture.width
            && Shown::Animated(frames, total).height() == frames[0].texture.height,
        frames.len() == 0 ==> Shown::Animated(frames, total).width() == 0 && Shown::Animated(
            frames,
            total,
        ).height() == 0,
{
}

/// A file declares too much from 64 million and one pixels on.
pub proof fn law_too_much_is_declared(bytes: Seq<u8>, w: u32, h: u32)
    ensures
        declared_size(bytes) == Some((w, h)) ==> (declares_too_much(bytes) <==> w * h
            > 64_000_000),
        declared_size(bytes) is None ==> !declares_too_much(bytes),
{
}

} // verus!
