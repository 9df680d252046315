//! Laying the segments of a row out across its width.

use vstd::prelude::*;

use crate::inspector::model::types::{seg_views, Face, Flex, Seg, SegView, Tone};
use crate::inspector::paint::gauge::{middle_elided, run_width, tail_elided, TextCtx};

verus! {

/// Gap between two segments.
pub const SEG_GAP: i64 = 384;

/// A segment that would be narrower than this is all ellipsis and is left out.
pub const MIN_ELIDE_WIDTH: i64 = 1408;

/// Width that must be left to a row before it shows its trailing segments.
pub const MIN_LEADING_WIDTH: i64 = 5760;

/// Side of a colour chip.
pub const SWATCH_SIZE: i64 = 576;

/// Gap between a colour chip and its text.
pub const SWATCH_GAP: i64 = 320;

/// Most segments of a row.
pub const MAX_SEGS: usize = 0x2000_0000;

/// A segment at its place, shortened to fit.
#[derive(Debug, Clone)]
pub struct Placed {
    pub x: i64,
    pub text: String,
    pub tone: Tone,
    pub face: Face,
    pub swatch: Option<(u8, u8, u8, u8)>,
}

/// What a placed segment shows.
#[verifier::ext_equal]
pub struct PlacedView {
    pub x: int,
    pub text: Seq<char>,
    pub tone: Tone,
    pub face: Face,
    pub swatch: Option<(u8, u8, u8, u8)>,
}

impl View for Placed {
    type V = PlacedView;

    open spec fn view(&self) -> PlacedView {
        PlacedView {
            x: self.x as int,
            text: self.text@,
            tone: self.tone,
            face: self.face,
            swatch: self.swatch,
        }
    }
}

/// What a list of placed segments shows.
pub open spec fn placed_views(s: Seq<Placed>) -> Seq<PlacedView> {
    s.map_values(|p: Placed| p@)
}

/// The width of a segment's colour chip and of the gap behind it.
pub open spec fn chip_width(swatch: Option<(u8, u8, u8, u8)>) -> int {
    if swatch is Some {
        SWATCH_SIZE + SWATCH_GAP
    } else {
        0
    }
}

/// The width of a segment's colour chip and of the gap behind it.
pub fn swatch_width(seg: &Seg) -> (r: i64)
    ensures
        r == chip_width(seg.swatch),
        0 <= r <= 896,
{
    if seg.swatch.is_some() {
        SWATCH_SIZE + SWATCH_GAP
    } else {
        0
    }
}

/// The width that a segment wants.
pub open spec fn seg_width(seg: SegView, w: spec_fn(Seq<char>, Face) -> nat) -> int {
    run_width(seg.text, seg.face, w) + chip_width(seg.swatch)
}

/// Whether a segment sticks to the right edge.
pub open spec fn trailing() -> spec_fn(SegView) -> bool {
    |s: SegView| s.flex == Flex::Trailing
}

/// Whether a segment stands in the left part of the row.
pub open spec fn leading() -> spec_fn(SegView) -> bool {
    |s: SegView| s.flex != Flex::Trailing
}

/// Whether a segment keeps its width.
pub open spec fn fixed() -> spec_fn(SegView) -> bool {
    |s: SegView| s.flex == Flex::Fixed
}

/// Whether a segment may be shortened.
pub open spec fn flexible() -> spec_fn(SegView) -> bool {
    |s: SegView| s.flex != Flex::Trailing && s.flex != Flex::Fixed
}

/// The widths that the segments of a kind want, added up.
pub open spec fn total(
    segs: Seq<SegView>,
    kind: spec_fn(SegView) -> bool,
    w: spec_fn(Seq<char>, Face) -> nat,
) -> int
    decreases segs.len(),
{
    if segs.len() == 0 {
        0
    } else {
        total(segs.drop_last(), kind, w) + (if kind(segs.last()) {
            seg_width(segs.last(), w)
        } else {
            0
        })
    }
}

/// How many segments are of a kind.
pub open spec fn count(segs: Seq<SegView>, kind: spec_fn(SegView) -> bool) -> int
    decreases segs.len(),
{
    if segs.len() == 0 {
        0
    } else {
        count(segs.drop_last(), kind) + (if kind(segs.last()) {
            1int
        } else {
            0
        })
    }
}

/// The gaps between `n` segments.
pub open spec fn gaps(n: int) -> int {
    if n > 0 {
        SEG_GAP * (n - 1)
    } else {
        0
    }
}

/// How a row's width is shared out.
pub struct RowFit {
    /// Whether the trailing segments are shown.
    pub shown: bool,
    /// Where the left part ends.
    pub lead_end: int,
    /// What is left for the segments that may be shortened.
    pub budget: int,
    /// What those segments want.
    pub appetite: int,
}

/// How the width from `x0` to `x1` is shared out. The trailing segments are
/// shown where enough is left; what the fixed ones leave of the left part is
/// for the flexible ones.
pub open spec fn row_fit(
    segs: Seq<SegView>,
    x0: int,
    x1: int,
    w: spec_fn(Seq<char>, Face) -> nat,
) -> RowFit {
    let trail = total(segs, trailing(), w) + gaps(count(segs, trailing()));
    let least = if MIN_LEADING_WIDTH <= x1 - x0 {
        MIN_LEADING_WIDTH as int
    } else {
        x1 - x0
    };
    let shown = count(segs, trailing()) > 0 && x1 - trail - SEG_GAP - x0 >= least;
    let lead_end = if shown {
        x1 - trail - SEG_GAP
    } else {
        x1
    };
    let room = lead_end - x0 - gaps(count(segs, leading())) - total(segs, fixed(), w);
    RowFit {
        shown,
        lead_end,
        budget: if room > 0 {
            room
        } else {
            0
        },
        appetite: total(segs, flexible(), w),
    }
}

impl RowFit {
    /// The width that a flexible segment gets, in proportion to what it wants.
    pub open spec fn target(
        self,
        seg: SegView,
        remaining: int,
        w: spec_fn(Seq<char>, Face) -> nat,
    ) -> int {
        let share = self.budget * seg_width(seg, w) / self.appetite;
        if share <= remaining {
            share
        } else {
            remaining
        }
    }

    /// What is shown of a segment where `remaining` is left, or nothing where
    /// it is left out.
    pub open spec fn fitted(
        self,
        seg: SegView,
        remaining: int,
        w: spec_fn(Seq<char>, Face) -> nat,
    ) -> Option<Seq<char>> {
        let chip = chip_width(seg.swatch);
        if seg.flex == Flex::Fixed {
            if seg_width(seg, w) <= remaining {
                Some(seg.text)
            } else {
                Some(tail_elided(seg.text, seg.face, remaining - chip, w))
            }
        } else if self.appetite <= self.budget {
            Some(seg.text)
        } else {
            let target = self.target(seg, remaining, w);
            let t = if seg.flex == Flex::ElideMiddle {
                middle_elided(seg.text, seg.face, target - chip, w)
            } else {
                tail_elided(seg.text, seg.face, target - chip, w)
            };
            if target < MIN_ELIDE_WIDTH || t.len() == 0 {
                None
            } else {
                Some(t)
            }
        }
    }

    /// The left part from segment `i` on, starting at `x`.
    pub open spec fn leads(
        self,
        segs: Seq<SegView>,
        i: int,
        x: int,
        w: spec_fn(Seq<char>, Face) -> nat,
    ) -> Seq<PlacedView>
        decreases segs.len() - i,
    {
        if i < 0 || i >= segs.len() || x >= self.lead_end {
            Seq::empty()
        } else if segs[i].flex == Flex::Trailing {
            self.leads(segs, i + 1, x, w)
        } else {
            match self.fitted(segs[i], self.lead_end - x, w) {
                None => self.leads(segs, i + 1, x, w),
                Some(t) => seq![placed_at(segs[i], t, x)] + self.leads(
                    segs,
                    i + 1,
                    x + run_width(t, segs[i].face, w) + chip_width(segs[i].swatch) + SEG_GAP,
                    w,
                ),
            }
        }
    }
}

/// A segment at `x`, showing `t`.
pub open spec fn placed_at(seg: SegView, t: Seq<char>, x: int) -> PlacedView {
    PlacedView { x, text: t, tone: seg.tone, face: seg.face, swatch: seg.swatch }
}

/// The trailing ones of the first `n` segments, packed against `end` from the
/// last to the first.
pub open spec fn trails(
    segs: Seq<SegView>,
    n: int,
    end: int,
    w: spec_fn(Seq<char>, Face) -> nat,
) -> Seq<PlacedView>
    decreases n,
{
    if n <= 0 || n > segs.len() {
        Seq::empty()
    } else if segs[n - 1].flex != Flex::Trailing {
        trails(segs, n - 1, end, w)
    } else {
        let x = end - seg_width(segs[n - 1], w);
        seq![placed_at(segs[n - 1], segs[n - 1].text, x)] + trails(segs, n - 1, x - SEG_GAP, w)
    }
}

/// The segments of a row at their places between `x0` and `x1`.
pub open spec fn placed_segs(
    segs: Seq<SegView>,
    x0: int,
    x1: int,
    w: spec_fn(Seq<char>, Face) -> nat,
) -> Seq<PlacedView> {
    let fit = row_fit(segs, x0, x1, w);
    if x1 <= x0 {
        Seq::empty()
    } else {
        fit.leads(segs, 0, x0, w) + (if fit.shown {
            trails(segs, segs.len() as int, x1, w)
        } else {
            Seq::empty()
        })
    }
}

/// Whether `widths` holds what each segment wants.
pub open spec fn gauged(
    segs: Seq<SegView>,
    widths: Seq<i128>,
    w: spec_fn(Seq<char>, Face) -> nat,
) -> bool {
    &&& widths.len() == segs.len()
    &&& forall|i: int| 0 <= i < segs.len() ==> #[trigger] widths[i] == seg_width(segs[i], w)
}

/// Whether no width is absurd.
spec fn sane(widths: Seq<i128>) -> bool {
    forall|i: int|
        0 <= i < widths.len() ==> 0 <= #[trigger] widths[i]
            < 0x2_0000_0000_0000_0000_0000_0000
}

/// The widths of the trailing ones of the first `n` segments, added up.
spec fn trail_sum(segs: Seq<SegView>, widths: Seq<i128>, n: int) -> int
    decreases n,
{
    if n <= 0 {
        0
    } else {
        trail_sum(segs, widths, n - 1) + (if segs[n - 1].flex == Flex::Trailing {
            widths[n - 1] as int
        } else {
            0
        })
    }
}

/// The widths of the flexible ones of the first `n` segments, added up.
spec fn flex_sum(segs: Seq<SegView>, widths: Seq<i128>, n: int) -> int
    decreases n,
{
    if n <= 0 {
        0
    } else {
        flex_sum(segs, widths, n - 1) + (if flexible()(segs[n - 1]) {
            widths[n - 1] as int
        } else {
            0
        })
    }
}

proof fn lemma_flex_sum(segs: Seq<SegView>, widths: Seq<i128>, i: int, n: int)
    requires
        0 <= i < n <= widths.len(),
        sane(widths),
    ensures
        flex_sum(segs, widths, n) >= 0,
        flexible()(segs[i]) ==> widths[i] <= flex_sum(segs, widths, n),
    decreases n,
{
    assert(widths[n - 1] >= 0);
    if i < n - 1 {
        lemma_flex_sum(segs, widths, i, n - 1);
    } else if n > 1 {
        lemma_flex_sum(segs, widths, n - 2, n - 1);
    }
}

/// Measures every segment.
fn gauge_segs<F: Fn(&str, Face) -> u32>(segs: &[Seg], ctx: &mut TextCtx<F>) -> (widths: Vec<i128>)
    requires
        old(ctx).ready(),
    ensures
        final(ctx).goes_on(old(ctx)),
        sane(widths@),
        widths@.len() == segs@.len(),
        forall|w: spec_fn(Seq<char>, Face) -> nat| #[trigger]
            old(ctx).follows(w) ==> gauged(seg_views(segs@), widths@, w),
{
    let mut widths: Vec<i128> = Vec::new();
    let mut i: usize = 0;
    while i < segs.len()
        invariant
            i <= segs.len(),
            widths@.len() == i,
            ctx.goes_on(old(ctx)),
            sane(widths@),
            forall|w: spec_fn(Seq<char>, Face) -> nat| #[trigger]
                old(ctx).follows(w) ==> (forall|j: int|
                    0 <= j < i ==> #[trigger] widths@[j] == seg_width(segs@[j]@, w)),
        decreases segs.len() - i,
    {
        let seg = &segs[i];
        let width = ctx.width(seg.text.as_str(), seg.face);
        widths.push(width as i128 + swatch_width(seg) as i128);
        i += 1;
    }
    widths
}

/// Sums over a row.
struct Sums {
    trail: i128,
    trails: usize,
    leads: usize,
    fixed: i128,
    appetite: i128,
}

impl Sums {
    /// Whether these are the sums over `segs`.
    spec fn over(&self, segs: Seq<SegView>, w: spec_fn(Seq<char>, Face) -> nat) -> bool {
        &&& self.trail == total(segs, trailing(), w)
        &&& self.fixed == total(segs, fixed(), w)
        &&& self.appetite == total(segs, flexible(), w)
    }

    /// Whether the segments were counted right.
    spec fn counts(&self, segs: Seq<SegView>) -> bool {
        &&& self.trails == count(segs, trailing())
        &&& self.leads == count(segs, leading())
    }

    /// Whether the sums over `n` segments are no larger than they can be.
    spec fn bounded(&self, n: int) -> bool {
        &&& 0 <= self.trail <= n * 0x2_0000_0000_0000_0000_0000_0000
        &&& 0 <= self.fixed <= n * 0x2_0000_0000_0000_0000_0000_0000
        &&& 0 <= self.appetite <= n * 0x2_0000_0000_0000_0000_0000_0000
        &&& 0 <= self.trails <= n
        &&& 0 <= self.leads <= n
    }
}

/// Adds up what the segments of each kind want.
fn add_up(segs: &[Seg], widths: &[i128]) -> (r: Sums)
    requires
        widths@.len() == segs@.len(),
        segs@.len() <= MAX_SEGS,
        sane(widths@),
    ensures
        r.counts(seg_views(segs@)),
        r.bounded(segs@.len() as int),
        r.trail == trail_sum(seg_views(segs@), widths@, segs@.len() as int),
        r.appetite == flex_sum(seg_views(segs@), widths@, segs@.len() as int),
        forall|w: spec_fn(Seq<char>, Face) -> nat| #[trigger]
            gauged(seg_views(segs@), widths@, w) ==> r.over(seg_views(segs@), w),
{
    let ghost views = seg_views(segs@);
    let mut r = Sums { trail: 0, trails: 0, leads: 0, fixed: 0, appetite: 0 };
    let mut i: usize = 0;
    while i < segs.len()
        invariant
            i <= segs.len(),
            widths@.len() == segs@.len(),
            segs@.len() <= MAX_SEGS,
            views == seg_views(segs@),
            sane(widths@),
            r.counts(views.take(i as int)),
            r.bounded(i as int),
            r.trail == trail_sum(views, widths@, i as int),
            r.appetite == flex_sum(views, widths@, i as int),
            forall|w: spec_fn(Seq<char>, Face) -> nat| #[trigger]
                gauged(views, widths@, w) ==> r.over(views.take(i as int), w),
        decreases segs.len() - i,
    {
        let width = widths[i];
        proof {
            assert(views.take(i + 1).drop_last() =~= views.take(i as int));
            assert(views.take(i + 1).last() == segs@[i as int]@);
            assert forall|w: spec_fn(Seq<char>, Face) -> nat| #[trigger]
                gauged(views, widths@, w) implies width == seg_width(segs@[i as int]@, w) by {
                assert(widths@[i as int] == seg_width(views[i as int], w));
            }
        }
        match segs[i].flex {
            Flex::Trailing => {
                r.trail = r.trail + width;
                r.trails = r.trails + 1;
            },
            Flex::Fixed => {
                r.fixed = r.fixed + width;
                r.leads = r.leads + 1;
            },
            _ => {
                r.appetite = r.appetite + width;
                r.leads = r.leads + 1;
            },
        }
        i += 1;
    }
    proof {
        assert(views.take(views.len() as int) =~= views);
    }
    r
}

/// The gaps between `n` segments.
fn gaps_between(n: usize) -> (r: i128)
    requires
        n <= MAX_SEGS,
    ensures
        r == gaps(n as int),
        0 <= r < 0x1_0000_0000_0000,
{
    if n > 0 {
        SEG_GAP as i128 * (n as i128 - 1)
    } else {
        0
    }
}

/// `budget * width / appetite`, whose product may be too large to count.
fn portion(budget: i128, width: i128, appetite: i128) -> (r: (i128, i128))
    requires
        0 <= budget,
        0 <= width <= appetite,
        0 < appetite <= 0x4000_0000_0000_0000_0000_0000_0000_0000,
    ensures
        budget * width == r.0 * appetite + r.1,
        0 <= r.1 < appetite,
        0 <= r.0 <= budget,
        r.0 == budget * width / appetite as int,
    decreases budget,
{
    if budget == 0 {
        proof {
            assert(0int * width == 0 && 0int * appetite == 0) by (nonlinear_arith);
            lemma_quotient(0, appetite as int, 0, 0);
        }
        return (0, 0);
    }
    let half: i128 = budget / 2;
    let odd = budget % 2 == 1;
    let (q, r) = portion(half, width, appetite);
    let doubled: i128 = 2 * r;
    let (q2, r2) = if doubled >= appetite {
        (2 * q + 1, doubled - appetite)
    } else {
        (2 * q, doubled)
    };
    proof {
        assert(2 * half * width == q2 * appetite + r2) by (nonlinear_arith)
            requires
                half * width == q * appetite + r,
                q2 == 2 * q + 1 && r2 == 2 * r - appetite || q2 == 2 * q && r2 == 2 * r,
        ;
        assert(q2 <= 2 * half) by (nonlinear_arith)
            requires
                2 * half * width == q2 * appetite + r2,
                0 <= width <= appetite,
                0 <= r2 < appetite,
                0 < appetite,
                0 <= half,
        ;
    }
    if !odd {
        proof {
            assert(budget * width == q2 * appetite + r2);
            lemma_quotient(budget * width, appetite as int, q2 as int, r2 as int);
        }
        return (q2, r2);
    }
    let sum: i128 = r2 + width;
    let (q3, r3) = if sum >= appetite {
        (q2 + 1, sum - appetite)
    } else {
        (q2, sum)
    };
    proof {
        assert(budget * width == q3 * appetite + r3) by (nonlinear_arith)
            requires
                budget == 2 * half + 1,
                2 * half * width == q2 * appetite + r2,
                q3 == q2 + 1 && r3 == r2 + width - appetite || q3 == q2 && r3 == r2 + width,
        ;
        lemma_quotient(budget * width, appetite as int, q3 as int, r3 as int);
    }
    (q3, r3)
}

proof fn lemma_quotient(x: int, d: int, q: int, r: int)
    requires
        x == q * d + r,
        0 <= r < d,
    ensures
        x / d == q,
{
    vstd::arithmetic::div_mod::lemma_fundamental_div_mod_converse(x, d, q, r);
}

/// How a row's width is shared out.
struct Fit {
    shown: bool,
    lead_end: i64,
    budget: i128,
    appetite: i128,
}

impl Fit {
    spec fn row(&self) -> RowFit {
        RowFit {
            shown: self.shown,
            lead_end: self.lead_end as int,
            budget: self.budget as int,
            appetite: self.appetite as int,
        }
    }

    /// What is shown of a segment where `remaining` is left.
    fn fit_seg<F: Fn(&str, Face) -> u32>(
        &self,
        seg: &Seg,
        width: i128,
        remaining: i128,
        ctx: &mut TextCtx<F>,
    ) -> (r: Option<String>)
        requires
            old(ctx).ready(),
            0 <= self.budget,
            0 <= self.appetite <= 0x4000_0000_0000_0000_0000_0000_0000_0000,
            0 <= width < 0x2_0000_0000_0000_0000_0000_0000,
            flexible()(seg@) ==> width <= self.appetite,
            seg.flex != Flex::Trailing,
            0 < remaining <= 0x1_0000_0000_0000_0000,
        ensures
            final(ctx).goes_on(old(ctx)),
            forall|w: spec_fn(Seq<char>, Face) -> nat| #[trigger]
                old(ctx).follows(w) && width == seg_width(seg@, w) ==> (match r {
                    Some(t) => Some(t@),
                    None => None,
                }) == self.row().fitted(seg@, remaining as int, w),
    {
        let chip = swatch_width(seg) as i128;
        if seg.flex == Flex::Fixed {
            if width <= remaining {
                return Some(seg.text.clone());
            }
            let t = ctx.elide_tail(seg.text.as_str(), seg.face, remaining - chip);
            return Some(t);
        }
        if self.appetite <= self.budget {
            return Some(seg.text.clone());
        }
        let (share, _) = portion(self.budget, width, self.appetite);
        let target: i128 = if share <= remaining {
            share
        } else {
            remaining
        };
        if target < MIN_ELIDE_WIDTH as i128 {
            return None;
        }
        let t = if seg.flex == Flex::ElideMiddle {
            ctx.elide_middle(seg.text.as_str(), seg.face, target - chip)
        } else {
            ctx.elide_tail(seg.text.as_str(), seg.face, target - chip)
        };
        if t.as_str().unicode_len() == 0 {
            return None;
        }
        Some(t)
    }
}

/// Shares the width from `x0` to `x1` out.
fn share_out(sums: &Sums, x0: i64, x1: i64) -> (r: Fit)
    requires
        0 < x1 - x0,
        sums.bounded(MAX_SEGS as int),
    ensures
        0 <= r.budget,
        r.appetite == sums.appetite,
        x0 < r.lead_end <= x1,
        r.shown ==> x0 <= x1 - sums.trail - SEG_GAP * sums.trails,
        forall|segs: Seq<SegView>, w: spec_fn(Seq<char>, Face) -> nat| #[trigger]
            sums.over(segs, w) && sums.counts(segs) ==> r.row() == row_fit(
                segs,
                x0 as int,
                x1 as int,
                w,
            ),
{
    let span: i128 = x1 as i128 - x0 as i128;
    let trail: i128 = sums.trail + gaps_between(sums.trails);
    let least: i128 = if MIN_LEADING_WIDTH as i128 <= span {
        MIN_LEADING_WIDTH as i128
    } else {
        span
    };
    let shown = sums.trails > 0 && span - trail - SEG_GAP as i128 >= least;
    let lead_end: i64 = if shown {
        (x1 as i128 - trail - SEG_GAP as i128) as i64
    } else {
        x1
    };
    let room: i128 = lead_end as i128 - x0 as i128 - gaps_between(sums.leads) - sums.fixed;
    let budget: i128 = if room > 0 {
        room
    } else {
        0
    };
    Fit { shown, lead_end, budget, appetite: sums.appetite }
}

proof fn lemma_push_placed(s: Seq<Placed>, p: Placed)
    ensures
        placed_views(s.push(p)) == placed_views(s).push(p@),
{
    assert(placed_views(s.push(p)) =~= placed_views(s).push(p@));
}

/// Packs the trailing segments against `end`, from the last to the first.
fn pack_trailing(segs: &[Seg], widths: &[i128], end: i64, placed: &mut Vec<Placed>)
    requires
        widths@.len() == segs@.len(),
        segs@.len() <= MAX_SEGS,
        sane(widths@),
        i64::MIN <= end - trail_sum(seg_views(segs@), widths@, segs@.len() as int) - SEG_GAP
            * count(seg_views(segs@), trailing()),
    ensures
        forall|w: spec_fn(Seq<char>, Face) -> nat| #[trigger]
            gauged(seg_views(segs@), widths@, w) ==> placed_views(final(placed)@) == placed_views(
                old(placed)@,
            ) + trails(seg_views(segs@), segs@.len() as int, end as int, w),
        final(placed)@.len() >= old(placed)@.len(),
        forall|j: int| 0 <= j < old(placed)@.len() ==> final(placed)@[j] == old(placed)@[j],
        forall|j: int|
            old(placed)@.len() <= j < final(placed)@.len() ==> end - trail_sum(
                seg_views(segs@),
                widths@,
                segs@.len() as int,
            ) - SEG_GAP * count(seg_views(segs@), trailing()) <= (#[trigger] final(placed)@[j]).x
                <= end,
{
    let ghost views = seg_views(segs@);
    let ghost low = end - trail_sum(views, widths@, segs@.len() as int) - SEG_GAP * count(
        views,
        trailing(),
    );
    let mut tx: i128 = end as i128;
    let mut n: usize = segs.len();
    proof {
        assert(views.take(n as int) =~= views);
    }
    while n > 0
        invariant
            n <= segs@.len() == widths@.len(),
            views == seg_views(segs@),
            sane(widths@),
            tx <= end,
            low == end - trail_sum(views, widths@, segs@.len() as int) - SEG_GAP * count(
                views,
                trailing(),
            ),
            i64::MIN <= low <= tx - trail_sum(views, widths@, n as int) - SEG_GAP * count(
                views.take(n as int),
                trailing(),
            ),
            placed@.len() >= old(placed)@.len(),
            forall|j: int| 0 <= j < old(placed)@.len() ==> placed@[j] == old(placed)@[j],
            forall|j: int|
                old(placed)@.len() <= j < placed@.len() ==> low <= (#[trigger] placed@[j]).x
                    <= end,
            forall|w: spec_fn(Seq<char>, Face) -> nat| #[trigger]
                gauged(views, widths@, w) ==> placed_views(old(placed)@) + trails(
                    views,
                    segs@.len() as int,
                    end as int,
                    w,
                ) == placed_views(placed@) + trails(views, n as int, tx as int, w),
        decreases n,
    {
        let ghost last = n as int;
        let ghost edge = tx as int;
        n -= 1;
        let seg = &segs[n];
        proof {
            assert(views.take(last).drop_last() =~= views.take(n as int));
            assert(views.take(last).last() == seg@);
            lemma_trail_sum(views, widths@, n as int);
            lemma_count(views.take(n as int), trailing());
        }
        if seg.flex == Flex::Trailing {
            let ghost before = placed@;
            tx = tx - widths[n];
            let p = Placed {
                x: tx as i64,
                text: seg.text.clone(),
                tone: seg.tone,
                face: seg.face,
                swatch: seg.swatch,
            };
            proof {
                lemma_push_placed(before, p);
                assert forall|w: spec_fn(Seq<char>, Face) -> nat| #[trigger]
                    gauged(views, widths@, w) implies placed_views(before) + trails(
                    views,
                    last,
                    edge,
                    w,
                ) == placed_views(before.push(p)) + trails(views, n as int, tx - SEG_GAP, w) by {
                    assert(widths@[n as int] == seg_width(views[n as int], w));
                    let rest = trails(views, n as int, tx - SEG_GAP, w);
                    assert(trails(views, last, edge, w) == seq![p@] + rest);
                    assert(placed_views(before) + (seq![p@] + rest) =~= placed_views(before).push(
                        p@,
                    ) + rest);
                }
            }
            placed.push(p);
            tx = tx - SEG_GAP as i128;
        }
    }
    proof {
        assert forall|w: spec_fn(Seq<char>, Face) -> nat| #[trigger]
            gauged(views, widths@, w) implies placed_views(placed@) == placed_views(old(placed)@)
            + trails(views, segs@.len() as int, end as int, w) by {
            assert(trails(views, 0, tx as int, w) =~= Seq::<PlacedView>::empty());
            assert(placed_views(placed@) + Seq::<PlacedView>::empty() =~= placed_views(placed@));
        }
    }
}

proof fn lemma_trail_sum(segs: Seq<SegView>, widths: Seq<i128>, n: int)
    requires
        0 <= n <= widths.len(),
        sane(widths),
    ensures
        trail_sum(segs, widths, n) >= 0,
    decreases n,
{
    if n > 0 {
        lemma_trail_sum(segs, widths, n - 1);
        assert(widths[n - 1] >= 0);
    }
}

proof fn lemma_count(segs: Seq<SegView>, kind: spec_fn(SegView) -> bool)
    ensures
        0 <= count(segs, kind) <= segs.len(),
    decreases segs.len(),
{
    if segs.len() > 0 {
        lemma_count(segs.drop_last(), kind);
    }
}

/// Lays a row's segments out between `x0` and `x1`.
///
/// Fixed segments keep their width, trailing ones are packed against the right
/// edge, and what is left is shared among the others in proportion to what
/// each wants. A row whose fixed segments alone are too wide is still cut.
pub fn place_segs<F: Fn(&str, Face) -> u32>(
    segs: &[Seg],
    x0: i64,
    x1: i64,
    ctx: &mut TextCtx<F>,
) -> (placed: Vec<Placed>)
    requires
        old(ctx).ready(),
        segs@.len() <= MAX_SEGS,
    ensures
        final(ctx).goes_on(old(ctx)),
        forall|j: int| 0 <= j < placed@.len() ==> x0 <= (#[trigger] placed@[j]).x <= x1,
        forall|w: spec_fn(Seq<char>, Face) -> nat| #[trigger]
            old(ctx).follows(w) ==> placed_views(placed@) == placed_segs(
                seg_views(segs@),
                x0 as int,
                x1 as int,
                w,
            ),
{
    let mut placed: Vec<Placed> = Vec::new();
    proof {
        assert(placed_views(placed@) =~= Seq::<PlacedView>::empty());
    }
    if x1 <= x0 {
        return placed;
    }
    let ghost views = seg_views(segs@);
    let widths = gauge_segs(segs, ctx);
    let sums = add_up(segs, widths.as_slice());
    let fit = share_out(&sums, x0, x1);
    let ghost row = fit.row();
    let mut x: i128 = x0 as i128;
    let mut i: usize = 0;
    while i < segs.len() && x < fit.lead_end as i128
        invariant
            i <= segs.len(),
            views == seg_views(segs@),
            row == fit.row(),
            ctx.goes_on(old(ctx)),
            widths@.len() == segs@.len(),
            sane(widths@),
            0 <= fit.budget,
            0 <= fit.appetite <= 0x4000_0000_0000_0000_0000_0000_0000_0000,
            fit.appetite == flex_sum(views, widths@, segs@.len() as int),
            x0 < fit.lead_end <= x1,
            x0 <= x < fit.lead_end + 0x4_0000_0000_0000_0000_0000_0000,
            forall|j: int| 0 <= j < placed@.len() ==> x0 <= (#[trigger] placed@[j]).x <= x1,
            forall|w: spec_fn(Seq<char>, Face) -> nat| #[trigger]
                old(ctx).follows(w) ==> gauged(views, widths@, w),
            forall|w: spec_fn(Seq<char>, Face) -> nat| #[trigger]
                old(ctx).follows(w) ==> row.leads(views, 0, x0 as int, w) == placed_views(placed@)
                    + row.leads(views, i as int, x as int, w),
        decreases segs.len() - i,
    {
        let seg = &segs[i];
        let ghost before = placed@;
        let ghost at = x as int;
        proof {
            assert forall|w: spec_fn(Seq<char>, Face) -> nat| #[trigger]
                old(ctx).follows(w) implies widths@[i as int] == seg_width(seg@, w) by {
                assert(widths@[i as int] == seg_width(views[i as int], w));
            }
            lemma_flex_sum(views, widths@, i as int, segs@.len() as int);
        }
        if seg.flex != Flex::Trailing {
            let fitted = fit.fit_seg(seg, widths[i], fit.lead_end as i128 - x, ctx);
            if let Some(text) = fitted {
                let used = ctx.width(text.as_str(), seg.face);
                let next: i128 = x + used as i128 + swatch_width(seg) as i128 + SEG_GAP as i128;
                let p = Placed {
                    x: x as i64,
                    text,
                    tone: seg.tone,
                    face: seg.face,
                    swatch: seg.swatch,
                };
                proof {
                    lemma_push_placed(before, p);
                    assert forall|w: spec_fn(Seq<char>, Face) -> nat| #[trigger]
                        old(ctx).follows(w) implies row.leads(views, 0, x0 as int, w)
                        == placed_views(before.push(p)) + row.leads(
                        views,
                        i + 1,
                        next as int,
                        w,
                    ) by {
                        let rest = row.leads(views, i + 1, next as int, w);
                        assert(row.leads(views, i as int, at, w) == seq![p@] + rest);
                        assert(placed_views(before) + (seq![p@] + rest) =~= placed_views(
                            before,
                        ).push(p@) + rest);
                    }
                }
                placed.push(p);
                x = next;
            }
        }
        i += 1;
    }
    let ghost left = placed_views(placed@);
    proof {
        assert forall|w: spec_fn(Seq<char>, Face) -> nat| #[trigger]
            old(ctx).follows(w) implies row.leads(views, 0, x0 as int, w) == left by {
            assert(row.leads(views, i as int, x as int, w) =~= Seq::<PlacedView>::empty());
            assert(left + Seq::<PlacedView>::empty() =~= left);
        }
    }
    if fit.shown {
        pack_trailing(segs, widths.as_slice(), x1, &mut placed);
    }
    proof {
        assert forall|w: spec_fn(Seq<char>, Face) -> nat| #[trigger]
            old(ctx).follows(w) implies placed_views(placed@) == placed_segs(
            views,
            x0 as int,
            x1 as int,
            w,
        ) by {
            assert(sums.over(views, w) && sums.counts(views));
            assert(left + Seq::<PlacedView>::empty() =~= left);
        }
    }
    placed
}

} // verus!
