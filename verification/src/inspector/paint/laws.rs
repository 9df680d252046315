//! What holds of fitted text and of every row.

use vstd::prelude::*;

use crate::fit::{cut_after, lemma_bisect};
use crate::inspector::model::types::{Face, Flex, SegView};
use crate::inspector::paint::gauge::{
    cells, cells_in, in_cells, kept_prefix, kept_suffix, middle_elided, prefix_fits, run_width,
    suffix_fits, tail_elided, PROBE,
};
use crate::inspector::paint::segments::{
    chip_width, count, fixed, flexible, gaps, leading, placed_at, placed_segs, row_fit, seg_width,
    total, trailing, trails, PlacedView, RowFit, SEG_GAP,
};

verus! {

/// Whether text set in one piece is never wider than in two, and an end of it
/// never wider than all of it.
pub open spec fn tame(w: spec_fn(Seq<char>, Face) -> nat) -> bool {
    &&& forall|a: Seq<char>, b: Seq<char>, face: Face| #[trigger]
        run_width(a + b, face, w) <= run_width(a, face, w) + run_width(b, face, w)
    &&& forall|s: Seq<char>, i: int, face: Face|
        0 <= i <= s.len() ==> #[trigger] run_width(s.skip(i), face, w) <= run_width(s, face, w)
}

proof fn lemma_cells_fit(max: int, ten: nat, n: nat)
    requires
        max > 0,
    ensures
        cells_in(max, ten, n) <= n,
        cells(ten, cells_in(max, ten, n)) <= max,
{
    if ten == 0 {
        assert(ten * n == 0) by (nonlinear_arith)
            requires
                ten == 0,
        ;
    } else {
        let q = max * 10 / (ten as int);
        let k = cells_in(max, ten, n);
        assert(q >= 0 && q * ten <= max * 10) by (nonlinear_arith)
            requires
                q == max * 10 / (ten as int),
                ten > 0,
                max > 0,
        ;
        assert(ten * k <= max * 10) by (nonlinear_arith)
            requires
                k <= q,
                q * ten <= max * 10,
                k >= 0,
                ten > 0,
        ;
    }
}

proof fn lemma_kept_prefix(s: Seq<char>, face: Face, max: int, w: spec_fn(Seq<char>, Face) -> nat)
    ensures
        0 <= kept_prefix(s, face, max, w) <= s.len(),
        kept_prefix(s, face, max, w) > 0 ==> run_width(
            s.take(kept_prefix(s, face, max, w)),
            face,
            w,
        ) <= max,
{
    if max > 0 && s.len() > 0 {
        if in_cells(s, face) {
            lemma_cells_fit(max, w(PROBE@, Face::Mono), s.len());
        } else {
            lemma_bisect(0, s.len() as int, prefix_fits(s, face, max, w));
        }
    }
}

proof fn lemma_kept_suffix(s: Seq<char>, face: Face, max: int, w: spec_fn(Seq<char>, Face) -> nat)
    ensures
        0 <= kept_suffix(s, face, max, w) <= s.len(),
        kept_suffix(s, face, max, w) > 0 ==> run_width(
            s.skip(s.len() - kept_suffix(s, face, max, w)),
            face,
            w,
        ) <= max,
{
    if max > 0 && s.len() > 0 {
        if in_cells(s, face) {
            lemma_cells_fit(max, w(PROBE@, Face::Mono), s.len());
        } else {
            lemma_bisect(0, s.len() as int, suffix_fits(s, face, max, w));
        }
    }
}

/// Text shortened from its end fits, unless nothing is left of it.
pub proof fn law_text_without_its_end_fits(
    s: Seq<char>,
    face: Face,
    max: int,
    w: spec_fn(Seq<char>, Face) -> nat,
)
    requires
        tame(w),
    ensures
        tail_elided(s, face, max, w).len() > 0 ==> run_width(
            tail_elided(s, face, max, w),
            face,
            w,
        ) <= max,
{
    let budget = max - run_width("…"@, face, w);
    let kept = kept_prefix(s, face, budget, w);
    lemma_kept_prefix(s, face, budget, w);
    if run_width(s, face, w) > max && budget > 0 && kept > 0 {
        reveal_strlit("…");
        assert(cut_after(s, kept) =~= s.take(kept) + "…"@);
    }
}

/// Text shortened in its middle fits, unless nothing is left of it.
pub proof fn law_text_without_its_middle_fits(
    s: Seq<char>,
    face: Face,
    max: int,
    w: spec_fn(Seq<char>, Face) -> nat,
)
    requires
        tame(w),
    ensures
        middle_elided(s, face, max, w).len() > 0 ==> run_width(
            middle_elided(s, face, max, w),
            face,
            w,
        ) <= max,
{
    let budget = max - run_width("…"@, face, w);
    let head = kept_prefix(s, face, budget * 55 / 100, w);
    let used = run_width(s.take(head), face, w);
    let tail = kept_suffix(s, face, budget - used, w);
    lemma_kept_prefix(s, face, budget * 55 / 100, w);
    lemma_kept_suffix(s, face, budget - used, w);
    if run_width(s, face, w) > max && budget > 0 {
        assert(used <= budget);
        let end = s.skip(s.len() - tail);
        assert(run_width(end, face, w) <= budget - used);
        if head + tail >= s.len() {
            assert(end.skip(head - (s.len() - tail)) =~= s.skip(head));
            assert(s.take(head) + s.skip(head) =~= s);
        } else {
            let start = s.take(head) + "…"@;
            assert(run_width(start + end, face, w) <= run_width(start, face, w) + run_width(
                end,
                face,
                w,
            ));
        }
    }
}

/// Where a placed segment ends.
pub open spec fn end_of(p: PlacedView, w: spec_fn(Seq<char>, Face) -> nat) -> int {
    p.x + chip_width(p.swatch) + run_width(p.text, p.face, w)
}

/// Whether a placed segment stands between `x0` and `x1`. One of which only
/// the colour chip is left may have less room than the chip needs.
pub open spec fn inside(
    p: PlacedView,
    x0: int,
    x1: int,
    w: spec_fn(Seq<char>, Face) -> nat,
) -> bool {
    x0 <= p.x <= x1 && (p.text.len() > 0 ==> end_of(p, w) <= x1)
}

proof fn lemma_total_take(
    segs: Seq<SegView>,
    i: int,
    kind: spec_fn(SegView) -> bool,
    w: spec_fn(Seq<char>, Face) -> nat,
)
    requires
        0 <= i <= segs.len(),
    ensures
        0 <= total(segs.take(i), kind, w) <= total(segs, kind, w),
        0 <= count(segs.take(i), kind) <= count(segs, kind),
    decreases segs.len(),
{
    if i == segs.len() {
        assert(segs.take(i) =~= segs);
        if i > 0 {
            lemma_total_take(segs.drop_last(), i - 1, kind, w);
            assert(segs.drop_last().take(i - 1) =~= segs.drop_last());
        }
    } else {
        lemma_total_take(segs.drop_last(), i, kind, w);
        assert(segs.drop_last().take(i) =~= segs.take(i));
    }
}

proof fn lemma_total_step(
    segs: Seq<SegView>,
    i: int,
    kind: spec_fn(SegView) -> bool,
    w: spec_fn(Seq<char>, Face) -> nat,
)
    requires
        0 <= i < segs.len(),
    ensures
        total(segs.take(i + 1), kind, w) == total(segs.take(i), kind, w) + (if kind(segs[i]) {
            seg_width(segs[i], w)
        } else {
            0
        }),
        count(segs.take(i + 1), kind) == count(segs.take(i), kind) + (if kind(segs[i]) {
            1int
        } else {
            0
        }),
{
    assert(segs.take(i + 1).drop_last() =~= segs.take(i));
    assert(segs.take(i + 1).last() == segs[i]);
}

proof fn lemma_total_splits(segs: Seq<SegView>, w: spec_fn(Seq<char>, Face) -> nat)
    ensures
        total(segs, leading(), w) == total(segs, fixed(), w) + total(segs, flexible(), w),
    decreases segs.len(),
{
    if segs.len() > 0 {
        lemma_total_splits(segs.drop_last(), w);
    }
}

/// Whether the left part, up to segment `i`, has as much room as it wants.
spec fn roomy(
    fit: RowFit,
    segs: Seq<SegView>,
    i: int,
    x0: int,
    x: int,
    w: spec_fn(Seq<char>, Face) -> nat,
) -> bool {
    &&& x == x0 + total(segs.take(i), leading(), w) + SEG_GAP * count(segs.take(i), leading())
    &&& total(segs, leading(), w) + gaps(count(segs, leading())) <= fit.lead_end - x0
}

proof fn lemma_leads(
    fit: RowFit,
    segs: Seq<SegView>,
    i: int,
    x0: int,
    x: int,
    w: spec_fn(Seq<char>, Face) -> nat,
)
    requires
        tame(w),
        0 <= i <= segs.len(),
        0 <= fit.budget,
        fit.appetite == total(segs, flexible(), w),
        fit.appetite > fit.budget || fit.appetite == 0 || roomy(fit, segs, i, x0, x, w),
    ensures
        forall|k: int|
            0 <= k < fit.leads(segs, i, x, w).len() ==> inside(
                #[trigger] fit.leads(segs, i, x, w)[k],
                x,
                fit.lead_end,
                w,
            ),
        forall|k: int, l: int|
            0 <= k < l < fit.leads(segs, i, x, w).len() ==> end_of(
                #[trigger] fit.leads(segs, i, x, w)[k],
                w,
            ) + SEG_GAP <= (#[trigger] fit.leads(segs, i, x, w)[l]).x,
    decreases segs.len() - i,
{
    if i < segs.len() && x < fit.lead_end {
        let seg = segs[i];
        let all = fit.leads(segs, i, x, w);
        lemma_total_step(segs, i, leading(), w);
        if seg.flex == Flex::Trailing {
            lemma_leads(fit, segs, i + 1, x0, x, w);
        } else {
            let remaining = fit.lead_end - x;
            let chip = chip_width(seg.swatch);
            lemma_total_take(segs, i + 1, leading(), w);
            lemma_total_take(segs, i + 1, flexible(), w);
            lemma_total_take(segs, i, flexible(), w);
            lemma_total_step(segs, i, flexible(), w);
            let target = fit.target(seg, remaining, w);
            law_text_without_its_end_fits(seg.text, seg.face, remaining - chip, w);
            law_text_without_its_end_fits(seg.text, seg.face, target - chip, w);
            law_text_without_its_middle_fits(seg.text, seg.face, target - chip, w);
            match fit.fitted(seg, remaining, w) {
                None => {
                    lemma_leads(fit, segs, i + 1, x0, x, w);
                },
                Some(t) => {
                    let p = placed_at(seg, t, x);
                    let next = x + run_width(t, seg.face, w) + chip + SEG_GAP;
                    lemma_leads(fit, segs, i + 1, x0, next, w);
                    let rest = fit.leads(segs, i + 1, next, w);
                    assert(all == seq![p] + rest);
                    assert(inside(p, x, fit.lead_end, w));
                    assert forall|k: int| 0 <= k < all.len() implies inside(
                        #[trigger] all[k],
                        x,
                        fit.lead_end,
                        w,
                    ) by {
                        if k > 0 {
                            assert(all[k] == rest[k - 1]);
                        }
                    }
                    assert forall|k: int, l: int| 0 <= k < l < all.len() implies end_of(
                        #[trigger] all[k],
                        w,
                    ) + SEG_GAP <= (#[trigger] all[l]).x by {
                        assert(all[l] == rest[l - 1]);
                        assert(inside(rest[l - 1], next, fit.lead_end, w));
                        if k > 0 {
                            assert(all[k] == rest[k - 1]);
                        }
                    }
                },
            }
        }
    }
}

proof fn lemma_trails(
    segs: Seq<SegView>,
    n: int,
    end: int,
    w: spec_fn(Seq<char>, Face) -> nat,
)
    requires
        0 <= n <= segs.len(),
    ensures
        forall|k: int|
            0 <= k < trails(segs, n, end, w).len() ==> {
                &&& (#[trigger] trails(segs, n, end, w)[k]).x >= end - total(
                    segs.take(n),
                    trailing(),
                    w,
                ) - gaps(count(segs.take(n), trailing()))
                &&& end_of(trails(segs, n, end, w)[k], w) <= end
            },
        forall|k: int, l: int|
            0 <= k < l < trails(segs, n, end, w).len() ==> end_of(
                #[trigger] trails(segs, n, end, w)[l],
                w,
            ) + SEG_GAP <= (#[trigger] trails(segs, n, end, w)[k]).x,
    decreases n,
{
    if n > 0 {
        let seg = segs[n - 1];
        let all = trails(segs, n, end, w);
        lemma_total_step(segs, n - 1, trailing(), w);
        lemma_total_take(segs, n - 1, trailing(), w);
        if seg.flex != Flex::Trailing {
            lemma_trails(segs, n - 1, end, w);
        } else {
            let x = end - seg_width(seg, w);
            let rest = trails(segs, n - 1, x - SEG_GAP, w);
            lemma_trails(segs, n - 1, x - SEG_GAP, w);
            let low = end - total(segs.take(n), trailing(), w) - gaps(
                count(segs.take(n), trailing()),
            );
            assert(all == seq![placed_at(seg, seg.text, x)] + rest);
            assert forall|k: int| 0 <= k < all.len() implies (#[trigger] all[k]).x >= low && end_of(
                all[k],
                w,
            ) <= end by {
                if k > 0 {
                    assert(all[k] == rest[k - 1]);
                    lemma_trails_count(segs, n - 1, x - SEG_GAP, w);
                }
            }
            assert forall|k: int, l: int| 0 <= k < l < all.len() implies end_of(
                #[trigger] all[l],
                w,
            ) + SEG_GAP <= (#[trigger] all[k]).x by {
                assert(all[l] == rest[l - 1]);
                if k > 0 {
                    assert(all[k] == rest[k - 1]);
                }
            }
        }
    }
}

proof fn lemma_trails_count(
    segs: Seq<SegView>,
    n: int,
    end: int,
    w: spec_fn(Seq<char>, Face) -> nat,
)
    requires
        0 <= n <= segs.len(),
    ensures
        trails(segs, n, end, w).len() == count(segs.take(n), trailing()),
    decreases n,
{
    if n > 0 {
        lemma_total_step(segs, n - 1, trailing(), w);
        if segs[n - 1].flex != Flex::Trailing {
            lemma_trails_count(segs, n - 1, end, w);
        } else {
            lemma_trails_count(
                segs,
                n - 1,
                end - seg_width(segs[n - 1], w) - SEG_GAP,
                w,
            );
        }
    }
}

/// No text of a row runs out of the row, however long it is and however
/// narrow the row, and no two segments overlap.
pub proof fn law_segments_stay_in_their_row(
    segs: Seq<SegView>,
    x0: int,
    x1: int,
    w: spec_fn(Seq<char>, Face) -> nat,
)
    requires
        tame(w),
    ensures
        forall|k: int|
            0 <= k < placed_segs(segs, x0, x1, w).len() ==> inside(
                #[trigger] placed_segs(segs, x0, x1, w)[k],
                x0,
                x1,
                w,
            ),
        forall|k: int, l: int|
            0 <= k < placed_segs(segs, x0, x1, w).len() && 0 <= l < placed_segs(
                segs,
                x0,
                x1,
                w,
            ).len() && k != l ==> apart(
                #[trigger] placed_segs(segs, x0, x1, w)[k],
                #[trigger] placed_segs(segs, x0, x1, w)[l],
                w,
            ),
{
    let fit = row_fit(segs, x0, x1, w);
    let all = placed_segs(segs, x0, x1, w);
    if x0 < x1 {
        let left = fit.leads(segs, 0, x0, w);
        let right = trails(segs, segs.len() as int, x1, w);
        lemma_total_splits(segs, w);
        lemma_total_take(segs, 0, leading(), w);
        lemma_total_take(segs, 0, flexible(), w);
        lemma_total_take(segs, 0, trailing(), w);
        assert(segs.take(0) =~= Seq::<SegView>::empty());
        assert(segs.take(segs.len() as int) =~= segs);
        if fit.appetite <= fit.budget && fit.appetite > 0 {
            assert(roomy(fit, segs, 0, x0, x0, w));
        }
        lemma_leads(fit, segs, 0, x0, x0, w);
        lemma_trails(segs, segs.len() as int, x1, w);
        assert forall|k: int| 0 <= k < all.len() implies inside(
            #[trigger] all[k],
            x0,
            x1,
            w,
        ) by {
            if k < left.len() {
                assert(all[k] == left[k]);
            } else {
                assert(all[k] == right[k - left.len()]);
            }
        }
        assert forall|k: int, l: int|
            0 <= k < all.len() && 0 <= l < all.len() && k != l implies apart(
            #[trigger] all[k],
            #[trigger] all[l],
            w,
        ) by {
            if k < left.len() {
                assert(all[k] == left[k]);
            } else {
                assert(all[k] == right[k - left.len()]);
            }
            if l < left.len() {
                assert(all[l] == left[l]);
            } else {
                assert(all[l] == right[l - left.len()]);
            }
        }
    }
}

/// Whether two placed segments do not overlap. Where only the colour chip is
/// left of one of them, they may.
pub open spec fn apart(
    p: PlacedView,
    q: PlacedView,
    w: spec_fn(Seq<char>, Face) -> nat,
) -> bool {
    p.text.len() == 0 || q.text.len() == 0 || end_of(p, w) <= q.x || end_of(q, w) <= p.x
}

} // verus!
