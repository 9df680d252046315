//! Fitting text into a width.
//!
//! How wide a piece of text is, only the font stack knows. The functions here
//! take it as a closure from a text and a style to a width in 64ths of a
//! pixel; [`measures`] says that a closure computes a given width function.

use vstd::prelude::*;

use crate::text::{
    byte_len, char_position, chars_before, lemma_chars_before, lemma_offset_on_boundary, offset_at,
    offset_of, on_boundary,
};

verus! {

/// Whether every width that `f` gives is the one that `w` says.
pub open spec fn measures<S, F: Fn(&str, S) -> u32>(f: F, w: spec_fn(Seq<char>, S) -> nat) -> bool {
    forall|t: &str, style: S, r: u32| #[trigger]
        call_ensures(f, (t, style), r) ==> r == w(t@, style)
}

/// Whether `f` can be called on any text.
pub open spec fn measures_anything<S, F: Fn(&str, S) -> u32>(f: F) -> bool {
    forall|t: &str, style: S| #[trigger] call_requires(f, (t, style))
}

/// `s` cut behind its first `k` characters, with the cut marked.
pub open spec fn cut_after(s: Seq<char>, k: int) -> Seq<char> {
    s.take(k).push('…')
}

/// The greatest position up to `k` after which `s` can be cut to fit.
pub open spec fn last_fitting_cut<S>(
    s: Seq<char>,
    k: int,
    max: int,
    style: S,
    w: spec_fn(Seq<char>, S) -> nat,
) -> Option<int>
    decreases k + 1,
{
    if k < 0 {
        None
    } else if w(cut_after(s, k), style) <= max {
        Some(k)
    } else {
        last_fitting_cut(s, k - 1, max, style, w)
    }
}

/// `s` where it fits in `max`; else its longest prefix that fits with a mark
/// behind it; else nothing.
pub open spec fn elided<S>(
    s: Seq<char>,
    max: int,
    style: S,
    w: spec_fn(Seq<char>, S) -> nat,
) -> Seq<char> {
    if max <= 0 {
        Seq::empty()
    } else if w(s, style) <= max {
        s
    } else {
        match last_fitting_cut(s, s.len() - 1, max, style, w) {
            Some(k) => cut_after(s, k),
            None => Seq::empty(),
        }
    }
}

/// The first `k` characters of `text`, with a mark behind them.
fn cut_text(text: &str, k: usize) -> (r: String)
    requires
        k <= text@.len(),
    ensures
        r@ == cut_after(text@, k as int),
{
    let mut r = text.substring_char(0, k).to_owned();
    proof {
        assert(text@.subrange(0, k as int) =~= text@.take(k as int));
    }
    r.push('…');
    r
}

/// Shortens `text` so that it fits in `max_width`, trying one character less
/// at a time.
pub fn elide_to_width<S: Copy, F: Fn(&str, S) -> u32>(
    text: &str,
    max_width: i64,
    style: S,
    measure: F,
) -> (r: String)
    requires
        measures_anything(measure),
    ensures
        forall|w: spec_fn(Seq<char>, S) -> nat| #[trigger]
            measures(measure, w) ==> r@ == elided(text@, max_width as int, style, w),
{
    if max_width <= 0 {
        return String::new();
    }
    let whole = measure(text, style);
    if whole as i64 <= max_width {
        return text.to_owned();
    }
    let n = text.unicode_len();
    let mut end: usize = n;
    while end > 0
        invariant
            end <= n == text@.len(),
            measures_anything(measure),
            forall|w: spec_fn(Seq<char>, S) -> nat| #[trigger]
                measures(measure, w) ==> last_fitting_cut(
                    text@,
                    n - 1,
                    max_width as int,
                    style,
                    w,
                ) == last_fitting_cut(text@, end - 1, max_width as int, style, w),
            forall|w: spec_fn(Seq<char>, S) -> nat| #[trigger]
                measures(measure, w) ==> w(text@, style) > max_width,
            max_width > 0,
        decreases end,
    {
        end -= 1;
        let candidate = cut_text(text, end);
        let width = measure(candidate.as_str(), style);
        if width as i64 <= max_width {
            return candidate;
        }
    }
    String::new()
}

/// Halving search in `lo..=hi` for the greatest `k` with `fits(k)`, where `lo`
/// is taken to fit.
pub open spec fn bisect(lo: int, hi: int, fits: spec_fn(int) -> bool) -> int
    decreases hi - lo,
{
    if lo >= hi {
        lo
    } else {
        let mid = (lo + hi + 1) / 2;
        if fits(mid) {
            bisect(mid, hi, fits)
        } else {
            bisect(lo, mid - 1, fits)
        }
    }
}

/// The search ends in its range, at a position that fits or at its start.
pub proof fn lemma_bisect(lo: int, hi: int, fits: spec_fn(int) -> bool)
    requires
        lo <= hi,
    ensures
        lo <= bisect(lo, hi, fits) <= hi,
        bisect(lo, hi, fits) == lo || fits(bisect(lo, hi, fits)),
    decreases hi - lo,
{
    if lo < hi {
        let mid = (lo + hi + 1) / 2;
        if fits(mid) {
            lemma_bisect(mid, hi, fits);
        } else {
            lemma_bisect(lo, mid - 1, fits);
        }
    }
}

/// Where no longer prefix fits once one does not, the search finds the
/// greatest position that fits.
pub proof fn law_bisect_finds_the_greatest(lo: int, hi: int, fits: spec_fn(int) -> bool, k: int)
    requires
        lo < k <= hi,
        fits(k),
        forall|i: int, j: int| lo <= i <= j <= hi && #[trigger] fits(j) ==> #[trigger] fits(i),
    ensures
        k <= bisect(lo, hi, fits),
    decreases hi - lo,
{
    let mid = (lo + hi + 1) / 2;
    if fits(mid) {
        lemma_bisect(mid, hi, fits);
        if mid < k {
            law_bisect_finds_the_greatest(mid, hi, fits, k);
        }
    } else {
        if mid <= k {
            assert(fits(mid));
        }
        law_bisect_finds_the_greatest(lo, mid - 1, fits, k);
    }
}

/// Whether `s`, cut behind `k` characters, fits in `max`.
pub open spec fn cut_fits<S>(
    s: Seq<char>,
    max: int,
    style: S,
    w: spec_fn(Seq<char>, S) -> nat,
) -> spec_fn(int) -> bool {
    |k: int| w(cut_after(s, k), style) <= max
}

/// `s` where it fits in `max`; else cut where a halving search says; nothing
/// where not even one character is left.
pub open spec fn truncated<S>(
    s: Seq<char>,
    max: int,
    style: S,
    w: spec_fn(Seq<char>, S) -> nat,
) -> Seq<char> {
    if max <= 0 {
        Seq::empty()
    } else if w(s, style) <= max {
        s
    } else {
        let k = bisect(0, s.len() as int, cut_fits(s, max, style, w));
        if k == 0 {
            Seq::empty()
        } else {
            cut_after(s, k)
        }
    }
}

/// Shortens `text` so that it fits in `max_width`, by a halving search over
/// the characters kept.
pub fn truncate_to_width<S: Copy, F: Fn(&str, S) -> u32>(
    text: &str,
    max_width: i64,
    style: S,
    measure: F,
) -> (r: String)
    requires
        measures_anything(measure),
    ensures
        forall|w: spec_fn(Seq<char>, S) -> nat| #[trigger]
            measures(measure, w) ==> r@ == truncated(text@, max_width as int, style, w),
{
    if max_width <= 0 {
        return String::new();
    }
    let whole = measure(text, style);
    if whole as i64 <= max_width {
        return text.to_owned();
    }
    let n = text.unicode_len();
    let mut lo: usize = 0;
    let mut hi: usize = n;
    while lo < hi
        invariant
            lo <= hi <= n == text@.len(),
            measures_anything(measure),
            forall|w: spec_fn(Seq<char>, S) -> nat| #[trigger]
                measures(measure, w) ==> bisect(
                    0,
                    n as int,
                    cut_fits(text@, max_width as int, style, w),
                ) == bisect(lo as int, hi as int, cut_fits(text@, max_width as int, style, w)),
        decreases hi - lo,
    {
        let mid: usize = lo + (hi - lo) / 2 + (hi - lo) % 2;
        let candidate = cut_text(text, mid);
        let width = measure(candidate.as_str(), style);
        if width as i64 <= max_width {
            lo = mid;
        } else {
            hi = mid - 1;
        }
    }
    if lo == 0 {
        return String::new();
    }
    cut_text(text, lo)
}

/// Shortened text fits, as long as it keeps anything.
pub proof fn law_shortened_text_fits<S>(
    s: Seq<char>,
    max: int,
    style: S,
    w: spec_fn(Seq<char>, S) -> nat,
)
    ensures
        elided(s, max, style, w).len() > 0 ==> w(elided(s, max, style, w), style) <= max,
        truncated(s, max, style, w).len() > 0 ==> w(truncated(s, max, style, w), style) <= max,
{
    lemma_last_fitting_cut(s, s.len() - 1, max, style, w);
    lemma_bisect(0, s.len() as int, cut_fits(s, max, style, w));
}

proof fn lemma_last_fitting_cut<S>(
    s: Seq<char>,
    k: int,
    max: int,
    style: S,
    w: spec_fn(Seq<char>, S) -> nat,
)
    ensures
        last_fitting_cut(s, k, max, style, w) matches Some(j) ==> 0 <= j <= k && w(
            cut_after(s, j),
            style,
        ) <= max,
    decreases k + 1,
{
    if k >= 0 {
        lemma_last_fitting_cut(s, k - 1, max, style, w);
    }
}

/// Text that fits is not touched.
pub proof fn law_fitting_text_is_untouched<S>(
    s: Seq<char>,
    max: int,
    style: S,
    w: spec_fn(Seq<char>, S) -> nat,
)
    requires
        max > 0,
        w(s, style) <= max,
    ensures
        elided(s, max, style, w) == s,
        truncated(s, max, style, w) == s,
{
}

/// Where the text of `s` up to byte `b` ends, measured from its start.
pub open spec fn x_at<S>(s: Seq<char>, b: int, style: S, w: spec_fn(Seq<char>, S) -> nat) -> int {
    let k = if b >= byte_len(s) {
        s.len() as int
    } else {
        chars_before(s, b) as int
    };
    if k == 0 {
        0
    } else {
        w(s.take(k), style) as int
    }
}

/// How far the text of `url` up to byte `byte_offset` reaches.
pub fn url_cursor_x<S: Copy, F: Fn(&str, S) -> u32>(
    url: &str,
    byte_offset: usize,
    style: S,
    measure: F,
) -> (x: i64)
    requires
        measures_anything(measure),
        byte_offset < byte_len(url@) ==> on_boundary(url@, byte_offset as int),
    ensures
        forall|w: spec_fn(Seq<char>, S) -> nat| #[trigger]
            measures(measure, w) ==> x == x_at(url@, byte_offset as int, style, w),
        0 <= x <= u32::MAX,
{
    let k = char_position(url, byte_offset);
    proof {
        lemma_chars_before(url@, byte_offset as int);
        if byte_offset == byte_len(url@) {
            assert(url@.take(url@.len() as int) =~= url@);
            lemma_offset_on_boundary(url@, url@.len() as int);
        }
    }
    if k == 0 {
        return 0;
    }
    proof {
        assert(url@.subrange(0, k as int) =~= url@.take(k as int));
    }
    measure(url.substring_char(0, k), style) as i64
}

/// Distance of the end of the first `k` characters from `x`.
pub open spec fn miss<S>(
    s: Seq<char>,
    k: int,
    x: int,
    style: S,
    w: spec_fn(Seq<char>, S) -> nat,
) -> int {
    let at = x_at(s, offset_of(s, k) as int, style, w);
    if at >= x {
        at - x
    } else {
        x - at
    }
}

/// Whether the end of the first `k` characters is the closest to `x`, the
/// first one among equals.
pub open spec fn closest<S>(
    s: Seq<char>,
    k: int,
    n: int,
    x: int,
    style: S,
    w: spec_fn(Seq<char>, S) -> nat,
) -> bool {
    &&& 0 <= k <= n
    &&& forall|j: int| 0 <= j <= n ==> #[trigger] miss(s, j, x, style, w) >= miss(s, k, x, style, w)
    &&& forall|j: int| 0 <= j < k ==> #[trigger] miss(s, j, x, style, w) > miss(s, k, x, style, w)
}

/// The byte offset in `url` whose place on screen is closest to
/// `text_rel_x`; 0 left of the text.
pub fn url_cursor_from_x<S: Copy, F: Fn(&str, S) -> u32>(
    url: &str,
    text_rel_x: i64,
    style: S,
    measure: F,
) -> (b: usize)
    requires
        measures_anything(measure),
    ensures
        on_boundary(url@, b as int),
        text_rel_x <= 0 ==> b == 0,
        text_rel_x > 0 ==> forall|w: spec_fn(Seq<char>, S) -> nat| #[trigger]
            measures(measure, w) ==> closest(
                url@,
                chars_before(url@, b as int) as int,
                url@.len() as int,
                text_rel_x as int,
                style,
                w,
            ),
{
    proof {
        lemma_offset_on_boundary(url@, 0);
        assert(url@.take(0) =~= Seq::<char>::empty());
    }
    if text_rel_x <= 0 {
        return 0;
    }
    let n = url.unicode_len();
    let mut best: usize = 0;
    let mut best_miss: i64 = text_rel_x;
    let mut k: usize = 0;
    proof {
        assert forall|w: spec_fn(Seq<char>, S) -> nat| #[trigger] measures(measure, w) implies closest(
            url@,
            0,
            0,
            text_rel_x as int,
            style,
            w,
        ) && best_miss == miss(url@, 0, text_rel_x as int, style, w) by {
            if url@.len() == 0 {
                assert(url@.take(url@.len() as int) =~= url@);
            }
            lemma_chars_before(url@, 0);
        }
    }
    while k < n
        invariant
            best <= k <= n == url@.len(),
            text_rel_x > 0,
            best_miss >= 0,
            measures_anything(measure),
            forall|w: spec_fn(Seq<char>, S) -> nat| #[trigger]
                measures(measure, w) ==> closest(
                    url@,
                    best as int,
                    k as int,
                    text_rel_x as int,
                    style,
                    w,
                ) && best_miss == miss(url@, best as int, text_rel_x as int, style, w),
        decreases n - k,
    {
        k += 1;
        let b = offset_at(url, k);
        proof {
            lemma_offset_on_boundary(url@, k as int);
        }
        let x = url_cursor_x(url, b, style, &measure);
        let d: i64 = if x >= text_rel_x {
            x - text_rel_x
        } else {
            text_rel_x - x
        };
        proof {
            assert forall|w: spec_fn(Seq<char>, S) -> nat| #[trigger] measures(measure, w) implies d
                == miss(url@, k as int, text_rel_x as int, style, w) by {
                assert(measures(&measure, w));
            }
        }
        if d < best_miss {
            best = k;
            best_miss = d;
        }
    }
    proof {
        lemma_offset_on_boundary(url@, best as int);
    }
    offset_at(url, best)
}

proof fn lemma_last_cut<S>(
    s: Seq<char>,
    k: int,
    max: int,
    style: S,
    w: spec_fn(Seq<char>, S) -> nat,
)
    requires
        k >= -1,
    ensures
        match last_fitting_cut(s, k, max, style, w) {
            Some(c) => 0 <= c <= k && w(cut_after(s, c), style) <= max && forall|j: int|
                c < j <= k ==> w(#[trigger] cut_after(s, j), style) > max,
            None => forall|j: int| 0 <= j <= k ==> w(#[trigger] cut_after(s, j), style) > max,
        },
    decreases k + 1,
{
    if k >= 0 && w(cut_after(s, k), style) > max {
        lemma_last_cut(s, k - 1, max, style, w);
    }
}

/// A text that does not fit is cut as late as possible and marked at its end;
/// where not even the mark fits, nothing is shown.
pub proof fn law_text_is_cut_as_late_as_possible<S>(
    s: Seq<char>,
    max: int,
    style: S,
    w: spec_fn(Seq<char>, S) -> nat,
    k: int,
)
    requires
        max > 0,
        w(s, style) > max,
        0 <= k < s.len(),
    ensures
        ({
            let r = elided(s, max, style, w);
            &&& w(s.take(k) + seq!['…'], style) <= max ==> r.len() >= k + 1
            &&& r.len() > 0 ==> r.len() <= s.len() && r == s.take(r.len() - 1) + seq!['…']
        }),
{
    lemma_last_cut(s, s.len() - 1, max, style, w);
    assert(s.take(k) + seq!['…'] =~= cut_after(s, k));
    let r = elided(s, max, style, w);
    if r.len() > 0 {
        assert(r =~= s.take(r.len() - 1) + seq!['…']);
    }
}

/// A title that does not fit keeps at least one character in front of its mark,
/// and is else not shown; it is cut as late as possible where a longer one is
/// never narrower.
pub proof fn law_titles_are_cut_as_late_as_possible<S>(
    s: Seq<char>,
    max: int,
    style: S,
    w: spec_fn(Seq<char>, S) -> nat,
    k: int,
)
    requires
        max > 0,
        w(s, style) > max,
        0 < k <= s.len(),
        forall|i: int, j: int|
            0 <= i <= j <= s.len() ==> w(#[trigger] cut_after(s, i), style) <= w(
                #[trigger] cut_after(s, j),
                style,
            ),
    ensures
        ({
            let r = truncated(s, max, style, w);
            &&& w(s.take(k) + seq!['…'], style) <= max ==> r.len() >= k + 1
            &&& r.len() > 0 ==> r.len() >= 2 && r.last() == '…' && r.drop_last() == s.take(
                r.len() - 1,
            )
        }),
{
    let fits = cut_fits(s, max, style, w);
    let n = s.len() as int;
    assert(s.take(k) + seq!['…'] =~= cut_after(s, k));
    lemma_bisect_range(0, n, fits);
    if w(cut_after(s, k), style) <= max {
        assert forall|i: int, j: int| 0 <= i <= j <= n && #[trigger] fits(j) implies #[trigger] fits(
            i,
        ) by {
            assert(w(cut_after(s, i), style) <= w(cut_after(s, j), style));
        }
        assert(fits(k));
        law_bisect_finds_the_greatest(0, n, fits, k);
    }
    let c = bisect(0, n, fits);
    let r = truncated(s, max, style, w);
    if r.len() > 0 {
        assert(r == cut_after(s, c));
        assert(r.drop_last() =~= s.take(c));
    }
}

proof fn lemma_bisect_range(lo: int, hi: int, fits: spec_fn(int) -> bool)
    requires
        lo <= hi,
    ensures
        lo <= bisect(lo, hi, fits) <= hi,
    decreases hi - lo,
{
    if lo < hi {
        let mid = (lo + hi + 1) / 2;
        if fits(mid) {
            lemma_bisect_range(mid, hi, fits);
        } else {
            lemma_bisect_range(lo, mid - 1, fits);
        }
    }
}

/// A place in a text lies as far to the right as the text in front of it is
/// wide.
pub proof fn law_places_lie_behind_the_text_before_them<S>(
    s: Seq<char>,
    k: int,
    style: S,
    w: spec_fn(Seq<char>, S) -> nat,
)
    requires
        0 <= k <= s.len(),
    ensures
        k == 0 ==> x_at(s, 0, style, w) == 0,
        k > 0 ==> x_at(s, byte_len(s.take(k)) as int, style, w) == w(s.take(k), style),
{
    crate::text::lemma_offset_on_boundary(s, k);
    crate::text::lemma_chars_before(s, 0);
    assert(s.take(s.len() as int) =~= s);
    if byte_len(s.take(k)) >= byte_len(s) && k < s.len() {
        crate::text::lemma_offset_monotone(s, k, s.len() as int);
    }
    if byte_len(s) == 0 && s.len() > 0 {
        crate::text::lemma_offset_monotone(s, 0, s.len() as int);
        assert(s.take(0) =~= Seq::<char>::empty());
    }
}

/// The place nearest to a point is at least as near to it as any other, and the
/// first of those that are equally near.
pub proof fn law_the_nearest_place_is_nearest<S>(
    s: Seq<char>,
    k: int,
    n: int,
    x: int,
    style: S,
    w: spec_fn(Seq<char>, S) -> nat,
    j: int,
)
    requires
        closest(s, k, n, x, style, w),
        0 <= j <= n,
        n <= s.len(),
    ensures
        ({
            let here = (if k == 0 {
                0
            } else {
                w(s.take(k), style) as int
            }) - x;
            let there = (if j == 0 {
                0
            } else {
                w(s.take(j), style) as int
            }) - x;
            let near = if here < 0 {
                -here
            } else {
                here
            };
            let far = if there < 0 {
                -there
            } else {
                there
            };
            &&& 0 <= k <= n
            &&& near <= far
            &&& j < k ==> near < far
        }),
{
    law_places_lie_behind_the_text_before_them(s, k, style, w);
    law_places_lie_behind_the_text_before_them(s, j, style, w);
    assert(s.take(0) =~= Seq::<char>::empty());
    assert(byte_len(s.take(0)) == 0);
    assert(miss(s, j, x, style, w) >= miss(s, k, x, style, w));
}

/// Where there is no room nothing is shown.
pub proof fn law_nothing_is_shown_without_room<S>(
    s: Seq<char>,
    max: int,
    style: S,
    w: spec_fn(Seq<char>, S) -> nat,
)
    requires
        max <= 0,
    ensures
        elided(s, max, style, w).len() == 0,
        truncated(s, max, style, w).len() == 0,
{
}

} // verus!
