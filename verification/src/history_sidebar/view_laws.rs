//! What the history sidebar shows and where. Lengths are in 64ths of a pixel.

use vstd::prelude::*;

use crate::chrome::paint_laws::{fills, fills_round, px, writes};
use crate::fit::truncated;
use crate::history::{all_visits, DayView};
use crate::history_sidebar::{
    content_height, entry_covers, line_top, lines, most_scroll, sidebar_zone, stacked, wheeled,
    HistorySidebarHit, Line,
};
use crate::history_sidebar::paint::{SidebarPaintContext, SidebarPicture};
use crate::scene::{DrawView, TextStyle};

verus! {

/// A further day adds its label and then its visits, which are counted on from
/// those of the days before.
pub proof fn law_days_are_listed_with_their_visits(days: Seq<DayView>, day: DayView, k: int)
    ensures
        lines(Seq::<DayView>::empty()).len() == 0,
        ({
            let before = lines(days);
            let after = lines(days.push(day));
            let n = before.len() as int;
            &&& after.len() == n + 1 + day.records.len()
            &&& after.take(n) == before
            &&& after[n] == Line::Group(day.label)
            &&& 0 <= k < day.records.len() ==> after[n + 1 + k] == Line::Entry(
                all_visits(days).len() + k,
            ) && all_visits(days.push(day))[all_visits(days).len() + k] == day.records[k]
        }),
{
    let more = days.push(day);
    assert(more.drop_last() =~= days);
    assert(lines(more).take(lines(days).len() as int) =~= lines(days));
}

/// How high a line is: 26 pixels for a day's label, 38 for a visit.
pub open spec fn height_of(l: Line) -> int {
    match l {
        Line::Group(_) => px(26),
        Line::Entry(_) => px(38),
    }
}

/// Lines stand below each other without a gap, and the content is as high as
/// they are together.
pub proof fn law_lines_stand_below_each_other(days: Seq<DayView>, k: nat)
    requires
        k < lines(days).len(),
    ensures
        line_top(lines(days), 0) == 0,
        line_top(lines(days), k + 1) == line_top(lines(days), k) + height_of(lines(days)[k as int]),
        content_height(days) == line_top(lines(days), lines(days).len()),
{
}

/// The content can be scrolled until its end stands at the bottom of the window,
/// and not at all where it fits.
pub proof fn law_content_is_scrolled_to_its_end(
    days: Seq<DayView>,
    window_height: int,
    chrome_height: int,
)
    ensures
        ({
            let seen = window_height - chrome_height - px(30);
            let most = most_scroll(days, window_height, chrome_height);
            &&& most >= 0
            &&& seen >= 0 && content_height(days) > seen ==> most == content_height(days) - seen
            &&& seen >= 0 && content_height(days) <= seen ==> most == 0
            &&& seen < 0 && content_height(days) > 0 ==> most == content_height(days)
        }),
{
}

/// The header is 30 pixels high; in it, 62 pixels that end 12 from the right edge
/// clear the history, and the rest does nothing.
pub proof fn law_the_header_is_hit(
    days: Seq<DayView>,
    x: int,
    y: int,
    scroll: int,
    chrome_height: int,
)
    requires
        0 <= x < px(272),
        chrome_height <= y < chrome_height + px(30),
    ensures
        sidebar_zone(days, x, y, scroll, chrome_height) == if px(198) <= x < px(260) {
            HistorySidebarHit::Clear
        } else {
            HistorySidebarHit::Background
        },
{
}

proof fn lemma_tops(s: Seq<Line>, i: nat, j: nat)
    requires
        i <= j <= s.len(),
    ensures
        line_top(s, i) <= line_top(s, j),
    decreases j - i,
{
    if i < j {
        lemma_tops(s, i, (j - 1) as nat);
    }
}

/// A click on a day's label, or below the last visit, hits no visit.
pub proof fn law_labels_are_not_hit(
    days: Seq<DayView>,
    k: int,
    x: int,
    y: int,
    scroll: int,
    chrome_height: int,
)
    requires
        0 <= x < px(272),
        y >= chrome_height + px(30),
        ({
            let at = y - chrome_height - px(30) + scroll;
            let s = lines(days);
            ||| at < 0
            ||| at >= content_height(days)
            ||| 0 <= k < s.len() && s[k] is Group && line_top(s, k as nat) <= at < line_top(
                s,
                k as nat,
            ) + px(26)
        }),
    ensures
        sidebar_zone(days, x, y, scroll, chrome_height) == HistorySidebarHit::Background,
{
    let at = y - chrome_height - px(30) + scroll;
    let s = lines(days);
    assert forall|j: int| !entry_covers(s, j, at) by {
        if 0 <= j < s.len() && s[j] is Entry {
            lemma_tops(s, 0, j as nat);
            assert(line_top(s, (j + 1) as nat) == line_top(s, j as nat) + px(38));
            lemma_tops(s, (j + 1) as nat, s.len());
            if 0 <= k < s.len() && s[k] is Group {
                assert(line_top(s, (k + 1) as nat) == line_top(s, k as nat) + px(26));
                if j < k {
                    lemma_tops(s, (j + 1) as nat, k as nat);
                } else if k < j {
                    lemma_tops(s, (k + 1) as nat, j as nat);
                }
            }
        }
    }
}

/// A visit shows as much of its title as fits, or of its address where it has no
/// title; where the two differ the address stands below. The one under the
/// pointer stands on a ground of its own, marked at its left edge.
pub proof fn law_visits_show_title_and_address(q: SidebarPicture, i: int, y: int)
    ensures
        ({
            let v = all_visits(q.days)[i];
            let e = q.entry(i, y);
            let label = if v.title.len() > 0 {
                v.title
            } else {
                v.url
            };
            let title = truncated(label, px(248), TextStyle::Title, q.w);
            let address = truncated(v.url, px(248), TextStyle::Address, q.w);
            let both = v.title.len() > 0 && v.title != v.url;
            let n = if q.hovered == Some(i) {
                2int
            } else {
                0int
            };
            &&& e.len() == n + (if both {
                2int
            } else {
                1int
            })
            &&& n == 2 ==> fills(e[0], 0, y, px(272), y + px(38), q.palette.tab_inactive_bg)
                && fills(e[1], 0, y, px(2), y + px(38), q.palette.url_border_focused)
            &&& writes(
                e[n],
                title,
                TextStyle::Title,
                px(12),
                y + px(6),
                q.palette.tab_text,
                100,
            )
            &&& both ==> writes(
                e[n + 1],
                address,
                TextStyle::Address,
                px(12),
                y + px(9) + (q.h)(title, TextStyle::Title),
                q.palette.tab_text_inactive,
                100,
            )
        }),
{
}

/// A day shows its label, and a hairline from there to the right edge where
/// there is room.
pub proof fn law_days_show_their_label(q: SidebarPicture, label: Seq<char>, y: int)
    ensures
        ({
            let g = q.group(label, y);
            let x = px(20) + (q.w)(label, TextStyle::Small);
            &&& g.len() == if x < px(260) {
                2nat
            } else {
                1
            }
            &&& writes(
                g[0],
                label,
                TextStyle::Small,
                px(12),
                y + (px(26) - (q.h)(label, TextStyle::Small)) / 2,
                q.palette.tab_text_inactive,
                100,
            )
            &&& x < px(260) ==> fills(
                g[1],
                x,
                y + px(13),
                px(260),
                y + px(14),
                q.palette.url_border_idle,
            )
        }),
{
}

/// Where a line stands on the screen.
pub open spec fn stands(q: SidebarPicture, k: int) -> int {
    q.chrome_height + px(30) - q.scroll + line_top(lines(q.days), k as nat)
}

/// A line is painted where it stands, each as what it is, unless it lies wholly
/// above the header's end or below the window.
pub proof fn law_lines_are_painted_where_they_stand(q: SidebarPicture, k: int)
    requires
        0 <= k < lines(q.days).len(),
    ensures
        ({
            let y = stands(q, k);
            let l = lines(q.days)[k];
            &&& l matches Line::Group(label) ==> q.row(k) == q.group(label, y)
            &&& l matches Line::Entry(i) ==> q.row(k) == q.entry(i, y)
            &&& q.visible(k) <==> y + height_of(l) >= q.chrome_height + px(30) && y
                <= q.window_height
            &&& q.visible(k) ==> q.rows(k + 1) == q.rows(k) + q.row(k)
            &&& !q.visible(k) ==> q.rows(k + 1) == q.rows(k)
            &&& q.rows(0).len() == 0
        }),
{
}

/// The header says what the list is and offers to clear it.
pub proof fn law_the_header_is_shown(q: SidebarPicture)
    requires
        -0x1_0000_0000_0000 <= q.chrome_height <= 0x1_0000_0000_0000,
    ensures
        ({
            let h = q.header();
            let top = q.chrome_height;
            let title = "History"@;
            let clear = "Clear"@;
            &&& h.len() == 5
            &&& fills(h[0], 0, top, px(272), top + px(30), q.palette.strip_bg)
            &&& writes(
                h[1],
                title,
                TextStyle::Title,
                px(12),
                top + (px(30) - (q.h)(title, TextStyle::Title)) / 2,
                q.palette.tab_text,
                100,
            )
            &&& fills_round(
                h[2],
                px(198),
                top + px(5),
                px(260),
                top + px(25),
                px(3),
                q.palette.btn_bg,
            )
            &&& writes(
                h[3],
                clear,
                TextStyle::Small,
                px(198) + (px(62) - (q.w)(clear, TextStyle::Small)) / 2,
                top + px(5) + (px(20) - (q.h)(clear, TextStyle::Small)) / 2,
                q.palette.btn_text,
                100,
            )
            &&& fills(h[4], 0, top + px(29), px(272), top + px(30), q.palette.url_border_idle)
        }),
{
}

/// Without visits the list says that there are none, and only then.
pub proof fn law_an_empty_list_says_so(q: SidebarPicture)
    ensures
        all_visits(q.days).len() > 0 ==> q.hint().len() == 0,
        all_visits(q.days).len() == 0 ==> q.hint().len() == 1 && writes(
            q.hint()[0],
            "No pages visited yet."@,
            TextStyle::Small,
            px(12),
            q.chrome_height + px(42),
            q.palette.tab_text_inactive,
            100,
        ),
{
}

/// The scroll bar is shown where there is more than fits: its thumb is at least
/// 24 pixels high, at the top while nothing is scrolled and at the bottom at the
/// end.
pub proof fn law_the_scroll_bar_shows_the_place(q: SidebarPicture)
    ensures
        ({
            let seen = q.window_height - q.chrome_height - px(30);
            let rest = content_height(q.days) - seen;
            let top = q.chrome_height + px(30);
            &&& seen <= 0 || rest <= 0 ==> q.scroll_bar().len() == 0
            &&& seen > 0 && rest > 0 ==> {
                &&& q.scroll_bar().len() == 1
                &&& q.thumb() >= px(24)
                &&& q.scroll <= 0 ==> fills_round(
                    q.scroll_bar()[0],
                    px(266),
                    top,
                    px(269),
                    top + q.thumb(),
                    96,
                    q.palette.url_border_idle,
                )
                &&& q.scroll >= rest ==> fills_round(
                    q.scroll_bar()[0],
                    px(266),
                    top + seen - q.thumb(),
                    px(269),
                    top + seen,
                    96,
                    q.palette.url_border_idle,
                )
            }
        }),
{
    let seen = q.window_height - q.chrome_height - px(30);
    let rest = content_height(q.days) - seen;
    if seen > 0 && rest > 0 {
        let d = seen - q.thumb();
        assert(0 * d / rest == 0) by (nonlinear_arith)
            requires
                rest > 0,
        ;
        assert(rest * d / rest == d) by (nonlinear_arith)
            requires
                rest > 0,
        ;
    }
}

/// The thumb shows which share of the list is seen.
pub proof fn law_the_thumb_shows_the_share(q: SidebarPicture)
    requires
        content_height(q.days) > 0,
        q.window_height - q.chrome_height - px(30) > 0,
        q.thumb() > px(24),
    ensures
        ({
            let seen = q.window_height - q.chrome_height - px(30);
            q.thumb() * content_height(q.days) <= seen * seen < (q.thumb() + 1) * content_height(
                q.days,
            )
        }),
{
    let seen = q.window_height - q.chrome_height - px(30);
    let c = content_height(q.days);
    let share = seen * seen / c;
    assert(share * c <= seen * seen < (share + 1) * c) by (nonlinear_arith)
        requires
            c > 0,
            share == seen * seen / c,
    ;
}

/// What the sidebar shows: its ground, its header, inside the list the hint and
/// the lines, then the scroll bar and the edge.
pub proof fn law_the_sidebar_shows_all_its_parts(q: SidebarPicture)
    ensures
        ({
            let s = q.scene();
            let bottom = if q.window_height > q.chrome_height {
                q.window_height
            } else {
                q.chrome_height
            };
            let all = q.rows(lines(q.days).len() as int);
            let a = 7 + q.hint().len() as int;
            let b = a + all.len();
            let c = b + 1 + q.scroll_bar().len();
            &&& s.len() == c + 1
            &&& fills(s[0], 0, q.chrome_height, px(272), bottom, q.palette.bar_bg)
            &&& s.subrange(1, 6) == q.header()
            &&& s[6] matches DrawView::PushClip { rect } && rect.x0 == 0 && rect.y0 == (
            q.chrome_height + px(30)) as i64 && rect.x1 == px(272) && rect.y1 == bottom as i64
            &&& s.subrange(7, a) == q.hint()
            &&& s.subrange(a, b) == all
            &&& s[b] == DrawView::PopClip
            &&& s.subrange(b + 1, c) == q.scroll_bar()
            &&& fills(s[c], px(271), q.chrome_height, px(272), bottom, q.palette.url_border_idle)
        }),
{
    let s = q.scene();
    let all = q.rows(lines(q.days).len() as int);
    let a = 7 + q.hint().len() as int;
    let b = a + all.len();
    let c = b + 1 + q.scroll_bar().len();
    assert(s.subrange(1, 6) =~= q.header());
    assert(s.subrange(7, a) =~= q.hint());
    assert(s.subrange(a, b) =~= all);
    assert(s.subrange(b + 1, c) =~= q.scroll_bar());
}

/// The wheel moves the list twice as far as it turns, but not past its ends.
pub proof fn law_the_wheel_moves_the_list(
    offset: int,
    delta: int,
    days: Seq<DayView>,
    window_height: int,
    chrome_height: int,
)
    ensures
        ({
            let to = wheeled(offset, delta, days, window_height, chrome_height);
            let most = most_scroll(days, window_height, chrome_height);
            &&& 0 <= to <= most
            &&& 0 <= offset + 2 * delta <= most ==> to == offset + 2 * delta
            &&& offset + 2 * delta < 0 ==> to == 0
            &&& offset + 2 * delta > most ==> to == most
        }),
{
}

/// What is painted is the log that was given, scrolled and lit as it was given.
pub proof fn law_the_given_log_is_painted<
    F: Fn(&str, TextStyle) -> u32 + Copy,
    G: Fn(&str, TextStyle) -> u32 + Copy,
>(
    ctx: SidebarPaintContext<'_, F, G>,
    w: spec_fn(Seq<char>, TextStyle) -> nat,
    h: spec_fn(Seq<char>, TextStyle) -> nat,
)
    ensures
        ({
            let q = ctx.picture(w, h);
            &&& q.days == ctx.log@ && q.scroll == ctx.scroll_offset && q.palette == *ctx.palette
            &&& q.window_height == ctx.window_height && q.chrome_height == ctx.chrome_height
            &&& ctx.hovered is None ==> q.hovered is None
            &&& ctx.hovered matches Some(i) ==> q.hovered == Some(i as int)
            &&& q.w == w && q.h == h
        }),
{
}

/// Lines are laid out in their order, each where the ones before it end.
pub proof fn law_lines_are_laid_out_in_order(s: Seq<Line>, k: int)
    requires
        0 <= k < s.len(),
    ensures
        stacked(s).len() == s.len(),
        stacked(s)[k].line == s[k],
        stacked(s)[0].top == 0,
        k + 1 < s.len() ==> stacked(s)[k + 1].top == stacked(s)[k].top + height_of(s[k]),
{
}

} // verus!
