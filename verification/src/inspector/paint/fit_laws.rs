//! What holds of text that is fitted into a row, and of its colours. Lengths
//! are in 64ths of a pixel.

use vstd::prelude::*;
use vstd::utf8::is_ascii_chars;

use crate::fit::{bisect, law_bisect_finds_the_greatest};
use crate::inspector::model::types::{Face, Flex, SegView, Tone};
use crate::inspector::paint::color::{mixed, moved, pole_of, readable_on, Tones};
use crate::inspector::paint::gauge::{
    cells, cells_in, in_cells, kept_prefix, kept_suffix, middle_elided, prefix_fits, run_width,
    tail_elided, HEADER_SIZE, METRICS_CACHE_LIMIT, MONO_SIZE, UI_SIZE,
};
use crate::inspector::paint::segments::{
    count, fixed, flexible, leading, placed_at, placed_segs, row_fit, seg_width, total, trailing,
    trails, RowFit,
};
use crate::scene::{ChromePalette, Rgba};

verus! {

/// An empty run has no width. Data in plain characters is as wide as its cells,
/// of which ten are measured at once, rounded up; anything else is measured.
pub proof fn law_runs_are_measured(s: Seq<char>, face: Face, w: spec_fn(Seq<char>, Face) -> nat)
    ensures
        s.len() == 0 ==> run_width(s, face, w) == 0,
        s.len() > 0 && (face != Face::Mono || !is_ascii_chars(s)) ==> run_width(s, face, w) == w(
            s,
            face,
        ),
        s.len() > 0 && face == Face::Mono && is_ascii_chars(s) ==> {
            let ten = w("0000000000"@, Face::Mono);
            10 * run_width(s, face, w) - 10 < ten * s.len() <= 10 * run_width(s, face, w)
        },
{
}

/// Whether a longer beginning of a text is never narrower.
pub open spec fn grows(s: Seq<char>, face: Face, w: spec_fn(Seq<char>, Face) -> nat) -> bool {
    forall|i: int, j: int|
        0 <= i <= j <= s.len() ==> run_width(#[trigger] s.take(i), face, w) <= run_width(
            #[trigger] s.take(j),
            face,
            w,
        )
}

proof fn lemma_most_kept(
    s: Seq<char>,
    face: Face,
    max: int,
    w: spec_fn(Seq<char>, Face) -> nat,
    k: int,
)
    requires
        grows(s, face, w),
        0 < k <= s.len(),
        max > 0,
        run_width(s.take(k), face, w) <= max,
    ensures
        kept_prefix(s, face, max, w) >= k,
{
    if in_cells(s, face) {
        let ten = w(crate::inspector::paint::gauge::PROBE@, Face::Mono);
        assert(in_cells(s.take(k), face));
        assert(run_width(s.take(k), face, w) == cells(ten, k as nat));
        assert(ten * (k as nat) <= 10 * max);
        if ten > 0 {
            let q = max * 10 / (ten as int);
            assert(q >= k) by (nonlinear_arith)
                requires
                    ten * k <= 10 * max,
                    ten > 0,
                    q == max * 10 / (ten as int),
            ;
        }
    } else {
        let fits = prefix_fits(s, face, max, w);
        assert(fits(k));
        assert forall|i: int, j: int|
            0 <= i <= j <= s.len() && #[trigger] fits(j) implies #[trigger] fits(i) by {
            assert(run_width(s.take(i), face, w) <= run_width(s.take(j), face, w));
        }
        law_bisect_finds_the_greatest(0, s.len() as int, fits, k);
    }
}

/// A text that fits is shown whole. One that does not loses its end, marked as
/// lost, and no more of it than it must; where not even one character fits
/// beside the mark, nothing is shown.
pub proof fn law_ends_are_lost_as_late_as_possible(
    s: Seq<char>,
    face: Face,
    max: int,
    w: spec_fn(Seq<char>, Face) -> nat,
    k: int,
)
    ensures
        run_width(s, face, w) <= max ==> tail_elided(s, face, max, w) == s,
        run_width(s, face, w) > max ==> {
            let r = tail_elided(s, face, max, w);
            r.len() > 0 ==> r.len() >= 2 && r.len() <= s.len() + 1 && r == s.take(r.len() - 1)
                + seq!['…']
        },
        run_width(s, face, w) > max && grows(s, face, w) && 0 < k <= s.len() && run_width(
            s.take(k),
            face,
            w,
        ) + run_width(seq!['…'], face, w) <= max && max > run_width(seq!['…'], face, w)
            ==> tail_elided(s, face, max, w).len() >= k + 1,
{
    reveal_strlit("…");
    assert("…"@ =~= seq!['…']);
    let budget = max - run_width("…"@, face, w);
    lemma_kept_in_range(s, face, budget, w);
    let r = tail_elided(s, face, max, w);
    if run_width(s, face, w) > max && r.len() > 0 {
        assert(r =~= s.take(r.len() - 1) + seq!['…']);
    }
    if grows(s, face, w) && 0 < k <= s.len() && budget > 0 && run_width(s.take(k), face, w)
        <= budget {
        lemma_most_kept(s, face, budget, w, k);
    }
}

proof fn lemma_bisect_between(lo: int, hi: int, fits: spec_fn(int) -> bool)
    requires
        lo <= hi,
    ensures
        lo <= bisect(lo, hi, fits) <= hi,
        bisect(lo, hi, fits) == lo || fits(bisect(lo, hi, fits)),
    decreases hi - lo,
{
    if lo < hi {
        let mid = (lo + hi + 1) / 2;
        if fits(mid) {
            lemma_bisect_between(mid, hi, fits);
        } else {
            lemma_bisect_between(lo, mid - 1, fits);
        }
    }
}

proof fn lemma_kept_in_range(
    s: Seq<char>,
    face: Face,
    max: int,
    w: spec_fn(Seq<char>, Face) -> nat,
)
    ensures
        0 <= kept_prefix(s, face, max, w) <= s.len(),
        0 <= kept_suffix(s, face, max, w) <= s.len(),
        max <= 0 ==> kept_prefix(s, face, max, w) == 0 && kept_suffix(s, face, max, w) == 0,
{
    if max > 0 && s.len() > 0 {
        if in_cells(s, face) {
            let ten = w(crate::inspector::paint::gauge::PROBE@, Face::Mono);
            if ten > 0 {
                assert(max * 10 / (ten as int) >= 0) by (nonlinear_arith)
                    requires
                        max > 0,
                        ten > 0,
                ;
            }
        } else {
            lemma_bisect_between(
                0,
                s.len() as int,
                crate::inspector::paint::gauge::prefix_fits(s, face, max, w),
            );
            lemma_bisect_between(
                0,
                s.len() as int,
                crate::inspector::paint::gauge::suffix_fits(s, face, max, w),
            );
        }
    }
}

/// A text that fits is shown whole. One that does not loses its middle: what is
/// left is a beginning of it and an end of it with a mark between them, or
/// nothing.
pub proof fn law_middles_are_lost(
    s: Seq<char>,
    face: Face,
    max: int,
    w: spec_fn(Seq<char>, Face) -> nat,
) -> (parts: (int, int))
    ensures
        run_width(s, face, w) <= max ==> middle_elided(s, face, max, w) == s,
        run_width(s, face, w) > max ==> {
            let r = middle_elided(s, face, max, w);
            let (head, tail) = parts;
            ||| r.len() == 0
            ||| r == s && head + tail >= s.len()
            ||| 0 <= head && 0 <= tail && 0 < head + tail < s.len() && r == s.take(head) + seq![
                '…',
            ] + s.skip(s.len() - tail)
        },
        ({
            let budget = max - run_width(seq!['…'], face, w);
            &&& parts.0 == kept_prefix(s, face, budget * 55 / 100, w)
            &&& parts.1 == kept_suffix(s, face, budget - run_width(s.take(parts.0), face, w), w)
        }),
        max <= run_width(seq!['…'], face, w) && run_width(s, face, w) > max ==> middle_elided(
            s,
            face,
            max,
            w,
        ).len() == 0,
{
    reveal_strlit("…");
    assert("…"@ =~= seq!['…']);
    let budget = max - run_width("…"@, face, w);
    let head = kept_prefix(s, face, budget * 55 / 100, w);
    lemma_kept_in_range(s, face, budget * 55 / 100, w);
    let rest = budget - run_width(s.take(head), face, w);
    lemma_kept_in_range(s, face, rest, w);
    (head, kept_suffix(s, face, rest, w))
}

/// How wide a segment is: its text, and its chip where it has one.
pub open spec fn own_width(s: SegView, w: spec_fn(Seq<char>, Face) -> nat) -> int {
    run_width(s.text, s.face, w) + (if s.swatch is Some {
        896int
    } else {
        0
    })
}

/// How far segments reach, with a gap of six pixels behind each.
pub open spec fn extent(segs: Seq<SegView>, w: spec_fn(Seq<char>, Face) -> nat) -> int
    decreases segs.len(),
{
    if segs.len() == 0 {
        0
    } else {
        extent(segs.drop_last(), w) + own_width(segs.last(), w) + 384
    }
}

/// Whether no segment stands at the right edge.
pub open spec fn all_lead(segs: Seq<SegView>) -> bool {
    forall|i: int| 0 <= i < segs.len() ==> (#[trigger] segs[i]).flex != Flex::Trailing
}

proof fn lemma_sums(segs: Seq<SegView>, w: spec_fn(Seq<char>, Face) -> nat)
    requires
        all_lead(segs),
    ensures
        total(segs, trailing(), w) == 0,
        count(segs, trailing()) == 0,
        count(segs, leading()) == segs.len(),
        total(segs, fixed(), w) + total(segs, flexible(), w) + 384 * segs.len() == extent(segs, w),
        total(segs, flexible(), w) >= 0,
    decreases segs.len(),
{
    if segs.len() > 0 {
        let init = segs.drop_last();
        assert forall|i: int| 0 <= i < init.len() implies (#[trigger] init[i]).flex
            != Flex::Trailing by {
            assert(init[i] == segs[i]);
        }
        assert(segs[segs.len() - 1].flex != Flex::Trailing);
        lemma_sums(init, w);
        assert(seg_width(segs.last(), w) == own_width(segs.last(), w));
    }
}

proof fn lemma_extent(segs: Seq<SegView>, i: int, w: spec_fn(Seq<char>, Face) -> nat)
    requires
        0 <= i < segs.len(),
    ensures
        extent(segs.take(i + 1), w) == extent(segs.take(i), w) + own_width(segs[i], w) + 384,
        extent(segs.take(i + 1), w) <= extent(segs, w),
        extent(segs.take(i), w) >= 0,
    decreases segs.len(),
{
    assert(segs.take(i + 1).drop_last() =~= segs.take(i));
    if i + 1 < segs.len() {
        let init = segs.drop_last();
        lemma_extent(init, i, w);
        assert(init.take(i + 1) =~= segs.take(i + 1));
        assert(init.take(i) =~= segs.take(i));
    } else {
        assert(segs.take(i + 1) =~= segs);
        if i > 0 {
            let init = segs.drop_last();
            lemma_extent(init, i - 1, w);
            assert(segs.take(i) =~= init);
            assert(init.take(i) =~= init);
        }
    }
}

proof fn lemma_all_whole(
    fit: RowFit,
    segs: Seq<SegView>,
    i: int,
    x0: int,
    w: spec_fn(Seq<char>, Face) -> nat,
)
    requires
        all_lead(segs),
        0 <= i <= segs.len(),
        fit.appetite <= fit.budget,
        x0 + extent(segs, w) - 384 <= fit.lead_end,
        forall|k: int| 0 <= k < segs.len() ==> own_width(#[trigger] segs[k], w) > 0,
    ensures
        ({
            let r = fit.leads(segs, i, x0 + extent(segs.take(i), w), w);
            &&& r.len() == segs.len() - i
            &&& forall|k: int|
                #![trigger r[k]]
                0 <= k < r.len() ==> r[k] == placed_at(
                    segs[i + k],
                    segs[i + k].text,
                    x0 + extent(segs.take(i + k), w),
                )
        }),
    decreases segs.len() - i,
{
    if i < segs.len() {
        let x = x0 + extent(segs.take(i), w);
        lemma_extent(segs, i, w);
        assert(own_width(segs[i], w) > 0);
        assert(seg_width(segs[i], w) == own_width(segs[i], w));
        assert(segs[i].flex != Flex::Trailing);
        lemma_all_whole(fit, segs, i + 1, x0, w);
        let r = fit.leads(segs, i, x, w);
        let rest = fit.leads(segs, i + 1, x0 + extent(segs.take(i + 1), w), w);
        assert(r == seq![placed_at(segs[i], segs[i].text, x)] + rest);
        assert forall|k: int| #![trigger r[k]] 0 <= k < r.len() implies r[k] == placed_at(
            segs[i + k],
            segs[i + k].text,
            x0 + extent(segs.take(i + k), w),
        ) by {
            if k > 0 {
                assert(r[k] == rest[k - 1]);
            }
        }
    }
}

/// Where there is room for all of them, segments stand whole and in order behind
/// each other, six pixels apart, in their own tone and type face.
pub proof fn law_what_fits_is_shown_whole(
    segs: Seq<SegView>,
    x0: int,
    x1: int,
    w: spec_fn(Seq<char>, Face) -> nat,
    i: int,
)
    requires
        all_lead(segs),
        0 <= i < segs.len(),
        extent(segs, w) - 384 <= x1 - x0,
        forall|k: int| 0 <= k < segs.len() ==> own_width(#[trigger] segs[k], w) > 0,
    ensures
        ({
            let r = placed_segs(segs, x0, x1, w);
            &&& r.len() == segs.len()
            &&& r[i].x == x0 + extent(segs.take(i), w)
            &&& r[i].text == segs[i].text && r[i].tone == segs[i].tone && r[i].face == segs[i].face
                && r[i].swatch == segs[i].swatch
        }),
{
    let fit = row_fit(segs, x0, x1, w);
    lemma_sums(segs, w);
    lemma_extent(segs, i, w);
    assert(own_width(segs[i], w) > 0);
    lemma_all_whole(fit, segs, 0, x0, w);
    assert(segs.take(0) =~= Seq::<SegView>::empty());
    let r = placed_segs(segs, x0, x1, w);
    assert(r =~= fit.leads(segs, 0, x0, w));
}

/// A segment at the right edge ends there and is shown whole; one in front of it
/// ends six pixels further left.
pub proof fn law_trailing_segments_stand_at_the_right_edge(
    segs: Seq<SegView>,
    n: int,
    end: int,
    w: spec_fn(Seq<char>, Face) -> nat,
)
    requires
        0 < n <= segs.len(),
    ensures
        segs[n - 1].flex != Flex::Trailing ==> trails(segs, n, end, w) == trails(
            segs,
            n - 1,
            end,
            w,
        ),
        segs[n - 1].flex == Flex::Trailing ==> {
            let r = trails(segs, n, end, w);
            &&& r.len() > 0
            &&& r[0].x + own_width(segs[n - 1], w) == end
            &&& r[0].text == segs[n - 1].text && r[0].tone == segs[n - 1].tone && r[0].face
                == segs[n - 1].face && r[0].swatch == segs[n - 1].swatch
            &&& r.skip(1) == trails(segs, n - 1, r[0].x - 384, w)
        },
{
    let r = trails(segs, n, end, w);
    if segs[n - 1].flex == Flex::Trailing {
        assert(r.skip(1) =~= trails(
            segs,
            n - 1,
            end - seg_width(segs[n - 1], w) - 384,
            w,
        ));
    }
}

/// What stands at the right edge is shown only where at least 90 pixels are left
/// for the rest, or all of a row that is narrower; it is then shown in addition,
/// and the rest ends six pixels in front of it.
pub proof fn law_the_right_edge_gives_way(
    init: Seq<SegView>,
    last: SegView,
    x0: int,
    x1: int,
    w: spec_fn(Seq<char>, Face) -> nat,
)
    requires
        all_lead(init),
        last.flex == Flex::Trailing,
        x0 < x1,
    ensures
        ({
            let segs = init.push(last);
            let fit = row_fit(segs, x0, x1, w);
            let least = if x1 - x0 < 5760 {
                x1 - x0
            } else {
                5760
            };
            let room = x1 - x0 - own_width(last, w) - 384;
            let r = placed_segs(segs, x0, x1, w);
            &&& fit.shown <==> room >= least
            &&& room >= least ==> fit.lead_end == x1 - own_width(last, w) - 384 && r.len() > 0
                && r.last().text == last.text && r.last().x == x1 - own_width(last, w)
            &&& room < least ==> fit.lead_end == x1 && r == fit.leads(segs, 0, x0, w)
        }),
{
    let segs = init.push(last);
    assert(segs.drop_last() =~= init);
    lemma_sums(init, w);
    let fit = row_fit(segs, x0, x1, w);
    assert(total(segs, trailing(), w) == seg_width(last, w));
    assert(count(segs, trailing()) == 1);
    let n = segs.len() as int;
    let r = placed_segs(segs, x0, x1, w);
    if fit.shown {
        let t = trails(segs, n, x1, w);
        lemma_no_trails(segs, n - 1, x1 - seg_width(last, w) - 384, w);
        assert(t =~= seq![placed_at(last, last.text, x1 - seg_width(last, w))]);
        assert(r.last() == t[0]);
    } else {
        assert(r =~= fit.leads(segs, 0, x0, w));
    }
}

proof fn lemma_no_trails(segs: Seq<SegView>, n: int, end: int, w: spec_fn(Seq<char>, Face) -> nat)
    requires
        0 <= n <= segs.len(),
        forall|i: int| 0 <= i < n ==> (#[trigger] segs[i]).flex != Flex::Trailing,
    ensures
        trails(segs, n, end, w).len() == 0,
    decreases n,
{
    if n > 0 {
        assert(segs[n - 1].flex != Flex::Trailing);
        lemma_no_trails(segs, n - 1, end, w);
    }
}

/// Where segments do not all fit, those that may be shortened share what is left
/// in proportion to their width, and lose their end or their middle as they say;
/// one that would get less than 22 pixels is left out. A fixed one loses its end
/// only where it reaches beyond the row.
pub proof fn law_narrow_rows_are_shared(
    fit: RowFit,
    seg: SegView,
    remaining: int,
    w: spec_fn(Seq<char>, Face) -> nat,
)
    requires
        0 <= fit.budget < fit.appetite,
        seg.flex != Flex::Trailing,
    ensures
        ({
            let got = fit.fitted(seg, remaining, w);
            let chip = if seg.swatch is Some {
                896int
            } else {
                0
            };
            let share = fit.target(seg, remaining, w);
            &&& seg.flex == Flex::Fixed && own_width(seg, w) <= remaining ==> got == Some(seg.text)
            &&& seg.flex == Flex::Fixed && own_width(seg, w) > remaining ==> got == Some(
                tail_elided(seg.text, seg.face, remaining - chip, w),
            )
            &&& share <= remaining
            &&& share * fit.appetite <= fit.budget * own_width(seg, w)
            &&& share < remaining ==> fit.budget * own_width(seg, w) < (share + 1) * fit.appetite
            &&& seg.flex != Flex::Fixed && share < 1408 ==> got is None
            &&& seg.flex == Flex::Elide && got is Some ==> got->0 == tail_elided(
                seg.text,
                seg.face,
                share - chip,
                w,
            ) && (got->0).len() > 0
            &&& seg.flex == Flex::ElideMiddle && got is Some ==> got->0 == middle_elided(
                seg.text,
                seg.face,
                share - chip,
                w,
            ) && (got->0).len() > 0
            &&& seg.flex == Flex::Elide && share >= 1408 && tail_elided(
                seg.text,
                seg.face,
                share - chip,
                w,
            ).len() > 0 ==> got is Some
            &&& seg.flex == Flex::ElideMiddle && share >= 1408 && middle_elided(
                seg.text,
                seg.face,
                share - chip,
                w,
            ).len() > 0 ==> got is Some
        }),
{
    let a = fit.appetite;
    let n = fit.budget * own_width(seg, w);
    assert(seg_width(seg, w) == own_width(seg, w));
    let q = n / a;
    assert(q * a <= n < (q + 1) * a) by (nonlinear_arith)
        requires
            a > 0,
            q == n / a,
    ;
    let share = fit.target(seg, remaining, w);
    assert(share * a <= q * a) by (nonlinear_arith)
        requires
            share <= q,
            a > 0,
    ;
}

/// A colour channel moves from where it is to the pole in even steps, rounded to
/// the nearest value.
pub proof fn law_colours_move_to_the_pole(c: u8, pole: u8, k: int)
    requires
        0 <= k <= 4096,
    ensures
        moved(c, pole, 0) == c,
        moved(c, pole, 4096) == pole,
        -4096 < 2 * (4096 * moved(c, pole, k) - (4096 * c + (pole - c) * k)) <= 4096,
{
    let d = (pole - c) * k;
    assert(-c * 4096 <= d <= (255 - c) * 4096) by (nonlinear_arith)
        requires
            d == (pole - c) * k,
            0 <= k <= 4096,
            0 <= c <= 255,
            0 <= pole <= 255,
    ;
    let n = c * 4096 + d + 2048;
    let q = n / 4096;
    assert(0 <= q <= 255);
    assert((pole - c) * 0 == 0 && (pole - c) * 4096 == 4096 * pole - 4096 * c) by (nonlinear_arith);
}

/// A mixed colour keeps its opacity and moves every channel alike; the pole is
/// black or white, whichever contrasts more, black where both do alike.
pub proof fn law_mixing_moves_every_channel(
    fg: Rgba,
    bg: Rgba,
    pole: u8,
    k: int,
    c: spec_fn(Rgba, Rgba) -> nat,
)
    ensures
        mixed(fg, pole, k).a == fg.a,
        mixed(fg, pole, k).r == moved(fg.r, pole, k),
        mixed(fg, pole, k).g == moved(fg.g, pole, k),
        mixed(fg, pole, k).b == moved(fg.b, pole, k),
        ({
            let black = c(Rgba { r: 0, g: 0, b: 0, a: 255 }, bg);
            let white = c(Rgba { r: 255, g: 255, b: 255, a: 255 }, bg);
            &&& black >= white ==> pole_of(bg, c) == 0
            &&& black < white ==> pole_of(bg, c) == 255
        }),
{
}

/// Each tone has its own colour: plain text those of the palette, and what
/// stands out a readable form of them on the panel's ground.
pub proof fn law_tones_have_their_colours(
    p: ChromePalette,
    enough: nat,
    c: spec_fn(Rgba, Rgba) -> nat,
)
    ensures
        ({
            let t = Tones::on(p, enough, c);
            &&& t.of(Tone::Key) == p.url_text
            &&& t.of(Tone::Value) == p.tab_text
            &&& t.of(Tone::Muted) == p.tab_text_inactive
            &&& t.of(Tone::Accent) == readable_on(p.url_border_focused, p.bar_bg, enough, c)
            &&& t.of(Tone::Good) == readable_on(p.ok_dot, p.bar_bg, enough, c)
            &&& t.of(Tone::Bad) == readable_on(p.err_text, p.bar_bg, enough, c)
        }),
{
}

/// A colour that contrasts enough stays as it is.
pub proof fn law_readable_colours_stay(
    fg: Rgba,
    bg: Rgba,
    enough: nat,
    c: spec_fn(Rgba, Rgba) -> nat,
)
    requires
        c(fg, bg) >= enough,
    ensures
        readable_on(fg, bg, enough, c) == fg,
{
}

/// Whether a longer end of a text is never narrower.
pub open spec fn grows_back(s: Seq<char>, face: Face, w: spec_fn(Seq<char>, Face) -> nat) -> bool {
    forall|i: int, j: int|
        0 <= i <= j <= s.len() ==> run_width(#[trigger] s.skip(j), face, w) <= run_width(
            #[trigger] s.skip(i),
            face,
            w,
        )
}

/// Of a text that loses its middle, as much of the end is kept as fits, and no
/// more than fits.
pub proof fn law_ends_are_kept_as_far_as_they_fit(
    s: Seq<char>,
    face: Face,
    max: int,
    w: spec_fn(Seq<char>, Face) -> nat,
    k: int,
)
    requires
        max > 0,
        s.len() > 0,
    ensures
        ({
            let n = kept_suffix(s, face, max, w);
            &&& 0 <= n <= s.len()
            &&& run_width(s.skip(s.len() - n), face, w) <= max
            &&& grows_back(s, face, w) && 0 < k <= s.len() && run_width(
                s.skip(s.len() - k),
                face,
                w,
            ) <= max ==> n >= k
        }),
        ({
            let n = kept_prefix(s, face, max, w);
            0 <= n <= s.len() && run_width(s.take(n), face, w) <= max
        }),
{
    lemma_kept_in_range(s, face, max, w);
    let n = kept_suffix(s, face, max, w);
    let m = kept_prefix(s, face, max, w);
    if in_cells(s, face) {
        let ten = w(crate::inspector::paint::gauge::PROBE@, Face::Mono);
        let end = s.skip(s.len() - n);
        assert(is_ascii_chars(end)) by {
            assert forall|i: int| 0 <= i < end.len() implies (#[trigger] end[i]) as nat <= 127 by {
                assert(end[i] == s[s.len() - n + i]);
            }
        }
        assert(is_ascii_chars(s.take(m)));
        lemma_cells(max, ten, s.len());
        if 0 < k <= s.len() && run_width(s.skip(s.len() - k), face, w) <= max {
            let part = s.skip(s.len() - k);
            assert(is_ascii_chars(part)) by {
                assert forall|i: int| 0 <= i < part.len() implies (#[trigger] part[i]) as nat
                    <= 127 by {
                    assert(part[i] == s[s.len() - k + i]);
                }
            }
            assert(ten * (k as nat) <= 10 * max);
            if ten > 0 {
                let q = max * 10 / (ten as int);
                assert(q >= k) by (nonlinear_arith)
                    requires
                        ten * k <= 10 * max,
                        ten > 0,
                        q == max * 10 / (ten as int),
                ;
            }
        }
    } else {
        let fits = crate::inspector::paint::gauge::suffix_fits(s, face, max, w);
        lemma_bisect_between(0, s.len() as int, fits);
        lemma_bisect_between(0, s.len() as int, prefix_fits(s, face, max, w));
        if grows_back(s, face, w) && 0 < k <= s.len() && run_width(s.skip(s.len() - k), face, w)
            <= max {
            assert(fits(k));
            assert forall|i: int, j: int|
                0 <= i <= j <= s.len() && #[trigger] fits(j) implies #[trigger] fits(i) by {
                assert(run_width(s.skip(s.len() - i), face, w) <= run_width(
                    s.skip(s.len() - j),
                    face,
                    w,
                ));
            }
            law_bisect_finds_the_greatest(0, s.len() as int, fits, k);
        }
    }
}

proof fn lemma_cells(max: int, ten: nat, n: nat)
    requires
        max > 0,
    ensures
        cells_in(max, ten, n) <= n,
        cells(ten, cells_in(max, ten, n)) <= max,
{
    let k = cells_in(max, ten, n);
    if ten == 0 {
        assert(ten * k == 0) by (nonlinear_arith)
            requires
                ten == 0,
        ;
    } else {
        let q = max * 10 / (ten as int);
        assert(q >= 0 && q * ten <= max * 10) by (nonlinear_arith)
            requires
                ten > 0,
                max > 0,
                q == max * 10 / (ten as int),
        ;
        assert(ten * k <= q * ten) by (nonlinear_arith)
            requires
                k <= q,
                ten > 0,
        ;
    }
}

/// The panel's type is set at eleven and a half pixels, its headers at ten, and
/// no more than 4096 measured widths are kept.
pub proof fn law_type_sizes()
    ensures
        2 * MONO_SIZE == 23 * 64,
        2 * UI_SIZE == 23 * 64,
        HEADER_SIZE == 10 * 64,
        METRICS_CACHE_LIMIT == 4096,
{
}

} // verus!
