//! The colours of the panel's text.
//!
//! How much two colours contrast is a real number; here it is a whole number
//! that grows with it, which is all that comparing needs.

use vstd::prelude::*;

use crate::inspector::model::types::Tone;
use crate::scene::{ChromePalette, Rgba};

verus! {

/// How many steps there are from a colour to black or white.
pub const MIX_STEPS: u32 = 4096;

/// Whether every contrast that `f` gives is the one that `c` says.
pub open spec fn contrasts<C: Fn(Rgba, Rgba) -> u64>(f: C, c: spec_fn(Rgba, Rgba) -> nat) -> bool {
    forall|a: Rgba, b: Rgba, r: u64| #[trigger] call_ensures(f, (a, b), r) ==> r == c(a, b)
}

/// Whether `f` can be called on any colours.
pub open spec fn contrasts_anything<C: Fn(Rgba, Rgba) -> u64>(f: C) -> bool {
    forall|a: Rgba, b: Rgba| #[trigger] call_requires(f, (a, b))
}

/// A channel, moved `k` steps towards the pole and rounded to the nearest
/// value.
pub open spec fn moved(c: u8, pole: u8, k: int) -> u8 {
    ((c * MIX_STEPS + (pole - c) * k + MIX_STEPS / 2) / MIX_STEPS as int) as u8
}

/// A colour, moved `k` steps towards the pole.
pub open spec fn mixed(fg: Rgba, pole: u8, k: int) -> Rgba {
    Rgba { r: moved(fg.r, pole, k), g: moved(fg.g, pole, k), b: moved(fg.b, pole, k), a: fg.a }
}

/// Black or white, whichever contrasts more with `bg`.
pub open spec fn pole_of(bg: Rgba, c: spec_fn(Rgba, Rgba) -> nat) -> u8 {
    if c(Rgba { r: 0, g: 0, b: 0, a: 255 }, bg) >= c(Rgba { r: 255, g: 255, b: 255, a: 255 }, bg) {
        0
    } else {
        255
    }
}

/// Whether `fg`, moved `k` steps away from `bg`, contrasts enough with it.
pub open spec fn passes(
    fg: Rgba,
    bg: Rgba,
    enough: nat,
    c: spec_fn(Rgba, Rgba) -> nat,
) -> spec_fn(int) -> bool {
    |k: int| c(mixed(fg, pole_of(bg, c), k), bg) >= enough
}

/// Halves the range `n` times, keeping its upper end where things pass.
pub open spec fn narrowed(lo: int, hi: int, n: nat, ok: spec_fn(int) -> bool) -> int
    decreases n,
{
    let mid = (lo + hi) / 2;
    if n == 0 {
        hi
    } else if ok(mid) {
        narrowed(lo, mid, (n - 1) as nat, ok)
    } else {
        narrowed(mid, hi, (n - 1) as nat, ok)
    }
}

/// `fg`, moved away from `bg` until it contrasts enough.
pub open spec fn readable_on(
    fg: Rgba,
    bg: Rgba,
    enough: nat,
    c: spec_fn(Rgba, Rgba) -> nat,
) -> Rgba {
    if c(fg, bg) >= enough {
        fg
    } else {
        mixed(fg, pole_of(bg, c), narrowed(0, MIX_STEPS as int, 12, passes(fg, bg, enough, c)))
    }
}

/// A channel, moved towards the pole.
fn move_channel(c: u8, pole: u8, k: u32) -> (r: u8)
    requires
        k <= MIX_STEPS,
    ensures
        r == moved(c, pole, k as int),
{
    let from: i64 = c as i64 * MIX_STEPS as i64;
    let step: i64 = pole as i64 - c as i64;
    proof {
        assert(-255 * 4096 <= step * k <= 255 * 4096 && 0 <= from + step * k <= 255 * 4096)
            by (nonlinear_arith)
            requires
                step == pole - c,
                from == c * 4096,
                0 <= k <= 4096,
                0 <= pole <= 255,
                0 <= c <= 255,
        ;
    }
    let way: i64 = step * k as i64;
    ((from + way + 2048) / 4096) as u8
}

/// A colour, moved towards the pole.
fn mix(fg: Rgba, pole: u8, k: u32) -> (r: Rgba)
    requires
        k <= MIX_STEPS,
    ensures
        r == mixed(fg, pole, k as int),
{
    Rgba {
        r: move_channel(fg.r, pole, k),
        g: move_channel(fg.g, pole, k),
        b: move_channel(fg.b, pole, k),
        a: fg.a,
    }
}

/// Moves `fg` towards black or white, whichever contrasts more with `bg`, by
/// the smallest amount that makes it contrast enough.
pub fn readable<C: Fn(Rgba, Rgba) -> u64>(fg: Rgba, bg: Rgba, enough: u64, contrast: C) -> (r: Rgba)
    requires
        contrasts_anything(contrast),
    ensures
        forall|c: spec_fn(Rgba, Rgba) -> nat| #[trigger]
            contrasts(contrast, c) ==> r == readable_on(fg, bg, enough as nat, c),
{
    if contrast(fg, bg) >= enough {
        return fg;
    }
    let black = contrast(Rgba { r: 0, g: 0, b: 0, a: 255 }, bg);
    let white = contrast(Rgba { r: 255, g: 255, b: 255, a: 255 }, bg);
    let pole: u8 = if black >= white {
        0
    } else {
        255
    };
    let mut lo: u32 = 0;
    let mut hi: u32 = MIX_STEPS;
    let mut n: u32 = 12;
    while n > 0
        invariant
            contrasts_anything(contrast),
            n <= 12,
            lo <= hi <= MIX_STEPS,
            forall|c: spec_fn(Rgba, Rgba) -> nat| #[trigger]
                contrasts(contrast, c) ==> pole == pole_of(bg, c),
            forall|c: spec_fn(Rgba, Rgba) -> nat| #[trigger]
                contrasts(contrast, c) ==> narrowed(
                    0,
                    MIX_STEPS as int,
                    12,
                    passes(fg, bg, enough as nat, c),
                ) == narrowed(
                    lo as int,
                    hi as int,
                    n as nat,
                    passes(fg, bg, enough as nat, c),
                ),
        decreases n,
    {
        let mid: u32 = (lo + hi) / 2;
        if contrast(mix(fg, pole, mid), bg) >= enough {
            hi = mid;
        } else {
            lo = mid;
        }
        n -= 1;
    }
    mix(fg, pole, hi)
}

proof fn lemma_narrowed(lo: int, hi: int, n: nat, ok: spec_fn(int) -> bool)
    requires
        lo <= hi,
    ensures
        lo <= narrowed(lo, hi, n, ok) <= hi,
        narrowed(lo, hi, n, ok) == hi || ok(narrowed(lo, hi, n, ok)),
    decreases n,
{
    if n > 0 {
        let mid = (lo + hi) / 2;
        if ok(mid) {
            lemma_narrowed(lo, mid, (n - 1) as nat, ok);
        } else {
            lemma_narrowed(mid, hi, (n - 1) as nat, ok);
        }
    }
}

/// A colour that contrasts enough is not touched, and one that does not is
/// made to, wherever black or white, as opaque as the colour, would.
pub proof fn law_readable_text_contrasts(
    fg: Rgba,
    bg: Rgba,
    enough: nat,
    c: spec_fn(Rgba, Rgba) -> nat,
)
    requires
        ({
            let pole = pole_of(bg, c);
            c(Rgba { r: pole, g: pole, b: pole, a: fg.a }, bg) >= enough
        }),
    ensures
        c(readable_on(fg, bg, enough, c), bg) >= enough,
        c(fg, bg) >= enough ==> readable_on(fg, bg, enough, c) == fg,
{
    let pole = pole_of(bg, c);
    let ok = passes(fg, bg, enough, c);
    assert(mixed(fg, pole, MIX_STEPS as int) == (Rgba { r: pole, g: pole, b: pole, a: fg.a }));
    assert(ok(MIX_STEPS as int));
    lemma_narrowed(0, MIX_STEPS as int, 12, ok);
}

spec fn two_to(n: nat) -> int
    decreases n,
{
    if n == 0 {
        1
    } else {
        2 * two_to((n - 1) as nat)
    }
}

proof fn lemma_two_to(n: nat)
    ensures
        two_to(n) > 0,
    decreases n,
{
    if n > 0 {
        lemma_two_to((n - 1) as nat);
    }
}

proof fn lemma_narrowed_to_the_least(lo: int, n: nat, ok: spec_fn(int) -> bool, k: int)
    requires
        forall|i: int, j: int|
            lo <= i <= j <= lo + two_to(n) && #[trigger] ok(i) ==> #[trigger] ok(j),
        !ok(lo),
        lo <= k < narrowed(lo, lo + two_to(n), n, ok),
    ensures
        !ok(k),
    decreases n,
{
    let hi = lo + two_to(n);
    if n > 0 {
        let mid = (lo + hi) / 2;
        lemma_two_to((n - 1) as nat);
        assert(mid == lo + two_to((n - 1) as nat));
        if ok(mid) {
            lemma_narrowed_to_the_least(lo, (n - 1) as nat, ok, k);
        } else if k >= mid {
            lemma_narrowed_to_the_least(mid, (n - 1) as nat, ok, k);
        } else {
            assert(ok(k) ==> ok(mid));
        }
    }
}

/// A colour that is moved is moved no further than needed: where more steps
/// never contrast less, no fewer steps would do.
pub proof fn law_readable_changes_the_least(
    fg: Rgba,
    bg: Rgba,
    enough: nat,
    c: spec_fn(Rgba, Rgba) -> nat,
    k: int,
)
    requires
        c(fg, bg) < enough,
        forall|i: int, j: int|
            0 <= i <= j <= MIX_STEPS && #[trigger] passes(fg, bg, enough, c)(i) ==> #[trigger] passes(
                fg,
                bg,
                enough,
                c,
            )(j),
        0 <= k < narrowed(0, MIX_STEPS as int, 12, passes(fg, bg, enough, c)),
    ensures
        c(mixed(fg, pole_of(bg, c), k), bg) < enough,
        readable_on(fg, bg, enough, c) == mixed(
            fg,
            pole_of(bg, c),
            narrowed(0, MIX_STEPS as int, 12, passes(fg, bg, enough, c)),
        ),
{
    let ok = passes(fg, bg, enough, c);
    assert(mixed(fg, pole_of(bg, c), 0) == fg);
    assert(!ok(0));
    assert(two_to(12) == MIX_STEPS) by {
        reveal_with_fuel(two_to, 13);
    }
    lemma_narrowed_to_the_least(0, 12, ok, k);
    assert(!ok(k));
}

/// The colours of a panel's text, for one painting.
#[derive(Debug, Clone, Copy, PartialEq, Eq, Structural)]
pub struct Tones {
    pub key: Rgba,
    pub value: Rgba,
    pub muted: Rgba,
    pub accent: Rgba,
    pub good: Rgba,
    pub bad: Rgba,
}

impl Tones {
    /// The tones on a palette's background.
    pub open spec fn on(palette: ChromePalette, enough: nat, c: spec_fn(Rgba, Rgba) -> nat) -> Tones {
        Tones {
            key: palette.url_text,
            value: palette.tab_text,
            muted: palette.tab_text_inactive,
            accent: readable_on(palette.url_border_focused, palette.bar_bg, enough, c),
            good: readable_on(palette.ok_dot, palette.bar_bg, enough, c),
            bad: readable_on(palette.err_text, palette.bar_bg, enough, c),
        }
    }

    /// The colour of a tone.
    pub open spec fn of(self, tone: Tone) -> Rgba {
        match tone {
            Tone::Key => self.key,
            Tone::Value => self.value,
            Tone::Muted => self.muted,
            Tone::Accent => self.accent,
            Tone::Good => self.good,
            Tone::Bad => self.bad,
        }
    }

    /// The tones on a palette's background, of which the accents are made to
    /// contrast enough.
    pub fn new<C: Fn(Rgba, Rgba) -> u64 + Copy>(
        palette: &ChromePalette,
        enough: u64,
        contrast: C,
    ) -> (r: Tones)
        requires
            contrasts_anything(contrast),
        ensures
            forall|c: spec_fn(Rgba, Rgba) -> nat| #[trigger]
                contrasts(contrast, c) ==> r == Tones::on(*palette, enough as nat, c),
    {
        Tones {
            key: palette.url_text,
            value: palette.tab_text,
            muted: palette.tab_text_inactive,
            accent: readable(palette.url_border_focused, palette.bar_bg, enough, contrast),
            good: readable(palette.ok_dot, palette.bar_bg, enough, contrast),
            bad: readable(palette.err_text, palette.bar_bg, enough, contrast),
        }
    }

    /// The colour of a tone.
    pub fn get(&self, tone: Tone) -> (r: Rgba)
        ensures
            r == self.of(tone),
    {
        match tone {
            Tone::Key => self.key,
            Tone::Value => self.value,
            Tone::Muted => self.muted,
            Tone::Accent => self.accent,
            Tone::Good => self.good,
            Tone::Bad => self.bad,
        }
    }
}

} // verus!
