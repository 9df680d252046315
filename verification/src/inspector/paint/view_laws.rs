//! What the inspector paints. Lengths are in 64ths of a pixel.

use vstd::prelude::*;

use crate::chrome::paint_laws::{fills, fills_round, outlines_round, px, writes};
use crate::inspector::click_laws::tab_number;
use crate::inspector::model::types::{Face, RowKind, SegView, Tone};
use crate::inspector::paint::bars::{
    highlight, scrollbar, thumb_height, thumb_offset, TabBarPaint, TabBarPicture,
};
use crate::inspector::paint::color::Tones;
use crate::inspector::paint::drawer::{flashes, DrawerPaint, DrawerPicture};
use crate::inspector::paint::gauge::{run_width, tail_elided};
use crate::inspector::paint::panel::{PanelPaintContext, PanelPicture};
use crate::inspector::paint::rows::{highest, tallest, LineMetrics, RowPaint, RowPicture};
use crate::inspector::paint::segments::{placed_segs, PlacedView};
use crate::inspector::panel::{content_height, on_row, top_of, DrawerView, InspectorTab, PanelView};
use crate::px::Rect;
use crate::scene::{ChromePalette, DrawView, Mark, Rgba, TextStyle};
use crate::text::uppercase;

verus! {

/// The left edge of a tab's slot: the first length that belongs to it.
pub open spec fn slot_left(i: int) -> int {
    (i * px(382) + 4) / 5
}

/// Whether the pointer is on a tab's slot.
pub open spec fn pointed_at(q: TabBarPicture, i: int) -> bool {
    q.hover matches Some((x, y)) && y < px(30) && slot_left(i) <= x < slot_left(i + 1)
}

/// A tab shows its name in the middle of its slot. The shown one stands out and
/// is underlined, the one under the pointer is lit.
pub proof fn law_tabs_show_their_name(q: TabBarPicture, t: InspectorTab)
    ensures
        ({
            let i = tab_number(t);
            let d = q.tab(i);
            let x0 = q.left + slot_left(i);
            let x1 = q.left + slot_left(i + 1);
            let spare = x1 - x0 - run_width(t.name(), Face::Ui, q.w);
            let y = q.top + (px(28) - q.lines.height(Face::Ui)) / 2;
            let shown = t == q.active;
            &&& d.len() == if shown {
                3nat
            } else if pointed_at(q, i) {
                2
            } else {
                1
            }
            &&& shown ==> fills(d[0], x0, q.top, x1, q.top + px(30), q.palette.bar_bg) && fills(
                d[1],
                x0,
                q.top + px(28),
                x1,
                q.top + px(30),
                q.palette.url_border_focused,
            )
            &&& !shown && pointed_at(q, i) ==> fills(
                d[0],
                x0,
                q.top,
                x1,
                q.top + px(30),
                q.palette.tab_inactive_bg,
            )
            &&& writes(
                d.last(),
                t.name(),
                TextStyle::Panel(Face::Ui),
                x0 + (if spare > 0 {
                    spare / 2
                } else {
                    0
                }),
                y,
                if shown {
                    q.palette.tab_text
                } else {
                    q.palette.tab_text_inactive
                },
                100,
            )
        }),
{
    let i = tab_number(t);
    assert(crate::inspector::paint::bars::slot(i) == slot_left(i));
    assert(crate::inspector::paint::bars::slot(i + 1) == slot_left(i + 1));
}

/// The picker's mark stands at the right end of the bar, lit while it is on or
/// under the pointer.
pub proof fn law_the_picker_shows_whether_it_is_on(q: TabBarPicture)
    ensures
        ({
            let d = q.picker_button();
            let x = q.left + px(382);
            let pointed = q.hover matches Some((hx, hy)) && hy < px(30) && hx >= px(382);
            &&& d.len() == if q.picker {
                3nat
            } else if pointed {
                2
            } else {
                1
            }
            &&& q.picker ==> fills(d[0], x, q.top, x + px(38), q.top + px(30), q.palette.bar_bg)
                && fills(
                d[1],
                x,
                q.top + px(28),
                x + px(38),
                q.top + px(30),
                q.palette.url_border_focused,
            )
            &&& !q.picker && pointed ==> fills(
                d[0],
                x,
                q.top,
                x + px(38),
                q.top + px(30),
                q.palette.tab_inactive_bg,
            )
            &&& d.last() matches DrawView::Mark { mark, cx, cy, color } && mark == Mark::Picker
                && cx == (x + px(19)) as i64 && cy == (q.top + px(14)) as i64 && color == (
            if q.picker {
                q.palette.url_border_focused
            } else {
                q.palette.tab_text_inactive
            })
        }),
{
}

/// The bar shows all five tabs in their order, then the picker, with a hairline
/// below.
pub proof fn law_the_bar_shows_all_tabs(q: TabBarPicture)
    ensures
        ({
            let s = q.scene();
            let all = q.tab(0) + q.tab(1) + q.tab(2) + q.tab(3) + q.tab(4);
            let n = 1 + all.len() as int;
            let m = n + q.picker_button().len();
            &&& s.len() == m + 1
            &&& fills(s[0], q.left, q.top, q.right, q.top + px(30), q.palette.strip_bg)
            &&& s.subrange(1, n) == all
            &&& s.subrange(n, m) == q.picker_button()
            &&& fills(
                s[m],
                q.left,
                q.top + px(30),
                q.right,
                q.top + px(31),
                q.palette.url_border_idle,
            )
        }),
{
    let s = q.scene();
    let all = q.tab(0) + q.tab(1) + q.tab(2) + q.tab(3) + q.tab(4);
    assert(q.tabs(0) =~= Seq::<DrawView>::empty());
    assert(q.tabs(1) =~= q.tab(0));
    assert(q.tabs(2) =~= q.tab(0) + q.tab(1));
    assert(q.tabs(3) =~= q.tab(0) + q.tab(1) + q.tab(2));
    assert(q.tabs(4) =~= q.tab(0) + q.tab(1) + q.tab(2) + q.tab(3));
    assert(q.tabs(5) =~= all);
    let n = 1 + all.len() as int;
    let m = n + q.picker_button().len();
    assert(s.subrange(1, n) =~= all);
    assert(s.subrange(n, m) =~= q.picker_button());
}

/// A scroll bar is shown where there is something to scroll: a track, and in it
/// a thumb that is as high as the share that is seen, but at least 26 pixels
/// where there is room.
pub proof fn law_scroll_bars_show_the_place(
    p: ChromePalette,
    right: int,
    top: int,
    bottom: int,
    viewport: int,
    content: int,
    scroll: int,
    most: int,
)
    ensures
        ({
            let s = scrollbar(p, right, top, bottom, viewport, content, scroll, most);
            let y = top + thumb_offset(viewport, content, scroll, most);
            let h = thumb_height(viewport, content);
            &&& most <= 0 || viewport <= 0 || content <= 0 ==> s.len() == 0
            &&& most > 0 && viewport > 0 && content > 0 ==> {
                &&& s.len() == 2
                &&& fills_round(
                    s[0],
                    right - px(7),
                    top,
                    right - px(3),
                    bottom,
                    px(2),
                    p.tab_inactive_bg,
                )
                &&& fills_round(
                    s[1],
                    right - px(7),
                    y,
                    right - px(3),
                    y + h,
                    px(2),
                    p.url_border_idle,
                )
                &&& viewport <= px(26) ==> h == viewport
                &&& viewport > px(26) ==> h >= px(26)
                &&& px(26) < h < viewport ==> h * content <= viewport * viewport < (h + 1) * content
            }
        }),
{
    if content > 0 {
        let share = viewport * viewport / content;
        assert(share * content <= viewport * viewport < (share + 1) * content) by (nonlinear_arith)
            requires
                content > 0,
                share == viewport * viewport / content,
        ;
    }
}

/// Whether the pointer is on the drawer's header, at least so far to the right.
pub open spec fn points_at_header(q: DrawerPicture, x0: int) -> bool {
    q.hover matches Some((x, y)) && q.bottom - px(230) <= y < q.bottom - px(202) && x0 - q.left <= x
}

/// The drawer takes the lower 176 pixels; the button under the pointer is lit.
pub proof fn law_the_drawer_has_its_place(q: DrawerPicture)
    ensures
        ({
            let d = q.backdrop();
            let top = q.bottom - px(176);
            let close = points_at_header(q, q.right - px(28));
            let copy = points_at_header(q, q.right - px(84)) && !close;
            &&& d.len() == if close || copy {
                4nat
            } else {
                3
            }
            &&& fills(d[0], q.left, top, q.right, q.bottom, q.palette.bar_bg)
            &&& fills(d[1], q.left, top, q.right, top + px(1), q.palette.url_border_idle)
            &&& fills(d[2], q.left, top + px(1), q.right, top + px(28), q.palette.strip_bg)
            &&& close ==> fills(
                d[3],
                q.right - px(28),
                top + px(1),
                q.right,
                top + px(28),
                q.palette.tab_inactive_bg,
            )
            &&& copy ==> fills(
                d[3],
                q.right - px(84),
                top + px(1),
                q.right - px(28),
                top + px(28),
                q.palette.tab_inactive_bg,
            )
        }),
{
}

/// The drawer's header shows as much of the title as fits, in capitals, and the
/// two buttons; the one that copies says for a while that it did.
pub proof fn law_the_drawer_shows_its_title(q: DrawerPicture)
    ensures
        ({
            let top = q.bottom - px(176);
            let room = q.right - px(104) - q.left;
            let text = uppercase(
                tail_elided(
                    q.view.title,
                    Face::UiStrong,
                    if room > 0 {
                        room
                    } else {
                        0
                    },
                    q.w,
                ),
            );
            let word = if q.recent {
                "Copied"@
            } else {
                "Copy"@
            };
            &&& text.len() == 0 ==> q.title().len() == 0
            &&& text.len() > 0 ==> q.title().len() == 1 && writes(
                q.title()[0],
                text,
                TextStyle::Panel(Face::UiStrong),
                q.left + px(10),
                top + (px(28) - q.lines.height(Face::UiStrong)) / 2 + px(1),
                q.tones.accent,
                100,
            )
            &&& q.buttons().len() == 2
            &&& writes(
                q.buttons()[0],
                word,
                TextStyle::Panel(Face::Ui),
                q.right - px(84) + (px(56) - run_width(word, Face::Ui, q.w)) / 2,
                top + (px(28) - q.lines.height(Face::Ui)) / 2 + px(1),
                if q.recent {
                    q.tones.good
                } else {
                    q.tones.value
                },
                100,
            )
            &&& q.buttons()[1] matches DrawView::Mark { mark, cx, cy, color } && mark == Mark::Close
                && cx == (q.right - px(14)) as i64 && cy == (top + px(14) + 32) as i64 && color
                == q.tones.muted
        }),
{
}

/// How far a text in the drawer can be scrolled.
pub open spec fn drawer_range(content: int) -> int {
    if content > px(128) {
        content - px(128)
    } else {
        0
    }
}

/// The drawer's text is shown whole, wrapped to its width and moved up by how
/// far it is scrolled, which is never past its end.
pub proof fn law_the_drawer_shows_the_whole_text(q: DrawerPicture)
    requires
        0 <= q.content() <= 0x1_0000_0000,
    ensures
        ({
            let room = if q.right - q.left > px(30) {
                q.right - q.left - px(30)
            } else {
                0
            };
            let b = q.body();
            let head = q.bottom - px(148);
            let v = q.fitted();
            let most = drawer_range((q.wrap)(q.view.text, room as i64) as int);
            &&& v.text == q.view.text && v.title == q.view.title
            &&& v.max_scroll == most
            &&& v.scroll == if q.view.scroll < 0 {
                0
            } else if q.view.scroll > most {
                most
            } else {
                q.view.scroll as int
            }
            &&& b[0] matches DrawView::PushClip { rect } && rect.x0 == q.left as i64 && rect.y0
                == head as i64 && rect.x1 == q.right as i64 && rect.y1 == q.bottom as i64
            &&& q.view.text.len() == 0 ==> b[1] == DrawView::PopClip
            &&& q.view.text.len() > 0 ==> (b[1] matches DrawView::Wrapped {
                text,
                style,
                x,
                y,
                max_width,
                color,
            } && text == q.view.text && style == TextStyle::Panel(Face::Mono) && x == (q.left + px(
                10,
            )) as i64 && y == (head + px(10) - v.scroll) as i64 && max_width == room as i64 && color
                == q.tones.value) && b[2] == DrawView::PopClip
        }),
        q.scene() == q.backdrop() + q.title() + q.buttons() + q.body(),
{
}

/// The word that says that something was copied stays for 1.4 seconds.
pub proof fn law_the_copied_word_stays_a_while(elapsed: u64)
    ensures
        flashes(elapsed) <==> elapsed < 1_400_000_000,
{
}

/// No type face in a line is taller than the line, or reaches farther above the
/// base line than it does.
pub proof fn law_segments_stand_on_one_line(segs: Seq<SegView>, lines: LineMetrics, i: int)
    requires
        0 <= i < segs.len(),
    ensures
        tallest(segs, lines) >= lines.height(segs[i].face),
        highest(segs, lines) >= lines.ascent(segs[i].face),
    decreases segs.len(),
{
    if i < segs.len() - 1 {
        law_segments_stand_on_one_line(segs.drop_last(), lines, i);
        assert(segs.drop_last()[i] == segs[i]);
    }
}

/// A line is as tall as one of its type faces, and reaches as far above its base
/// line as one of them.
pub proof fn law_a_line_is_no_taller_than_it_must(segs: Seq<SegView>, lines: LineMetrics)
    ensures
        tallest(segs, lines) == 0 || exists|i: int|
            0 <= i < segs.len() && lines.height((#[trigger] segs[i]).face) == tallest(segs, lines),
        highest(segs, lines) == 0 || exists|i: int|
            0 <= i < segs.len() && lines.ascent((#[trigger] segs[i]).face) == highest(segs, lines),
    decreases segs.len(),
{
    if segs.len() > 0 {
        let init = segs.drop_last();
        let n = segs.len() - 1;
        law_a_line_is_no_taller_than_it_must(init, lines);
        if tallest(segs, lines) == lines.height(segs.last().face) {
            assert(lines.height(segs[n].face) == tallest(segs, lines));
        } else if tallest(segs, lines) != 0 {
            let i = choose|i: int|
                0 <= i < init.len() && lines.height((#[trigger] init[i]).face) == tallest(
                    init,
                    lines,
                );
            assert(segs[i] == init[i]);
        }
        if highest(segs, lines) == lines.ascent(segs.last().face) {
            assert(lines.ascent(segs[n].face) == highest(segs, lines));
        } else if highest(segs, lines) != 0 {
            let i = choose|i: int|
                0 <= i < init.len() && lines.ascent((#[trigger] init[i]).face) == highest(
                    init,
                    lines,
                );
            assert(segs[i] == init[i]);
        }
    }
}

/// The selected row stands out and is marked at its left edge; the one under the
/// pointer is lit; a header never is.
pub proof fn law_rows_stand_out(q: RowPicture)
    ensures
        ({
            let d = q.backdrop();
            let h = q.height();
            let lit = q.row.kind != RowKind::Header && (q.selected || q.hovered);
            let n = if lit {
                1int
            } else {
                0int
            };
            &&& d.len() == n + (if q.selected {
                1int
            } else {
                0int
            })
            &&& lit ==> fills(
                d[0],
                q.left,
                q.y,
                q.right,
                q.y + h,
                if q.selected {
                    q.palette.tab_active_bg
                } else {
                    q.palette.tab_inactive_bg
                },
            )
            &&& q.selected ==> fills(
                d[n],
                q.left,
                q.y,
                q.left + px(2),
                q.y + h,
                q.palette.url_border_focused,
            )
        }),
{
}

proof fn lemma_guides(q: RowPicture, n: int, k: int)
    requires
        0 <= k < n,
    ensures
        q.guide_lines(n).len() == n,
        q.guide_lines(n)[k] == q.guide_lines(k + 1)[k],
    decreases n,
{
    assert(q.guide_lines(0).len() == 0);
    if k < n - 1 {
        lemma_guides(q, n - 1, k);
    } else if n > 1 {
        lemma_guides(q, n - 1, 0);
    }
}

/// A row has a hairline for every level it is indented, 13 pixels apart.
pub proof fn law_levels_are_traced(q: RowPicture, n: int, k: int)
    requires
        0 <= k < n,
    ensures
        ({
            let d = q.guide_lines(n);
            let x = q.left + px(11) + k * px(13) + 416;
            &&& d.len() == n
            &&& fills(
                d[k],
                x,
                q.y,
                x + px(1),
                q.y + q.height(),
                Rgba { a: 0x44, ..q.palette.url_border_idle },
            )
        }),
{
    lemma_guides(q, n, k);
    if k > 0 {
        lemma_guides(q, k, 0);
    }
}

/// A triangle points down where the children are shown, else to the right; a row
/// without children has none.
pub proof fn law_triangles_show_what_is_open(q: RowPicture)
    ensures
        !q.row.expandable ==> q.twisty().len() == 0,
        q.row.expandable ==> q.twisty().len() == 1 && (q.twisty()[0] matches DrawView::Mark {
            mark,
            cx,
            cy,
            color,
        } && (q.row.expanded ==> mark == Mark::Expanded) && (!q.row.expanded ==> mark
            == Mark::Collapsed) && cx == (q.left + px(11) + q.row.indent * px(13) + 416) as i64
            && cy == (q.y + q.height() / 2) as i64 && color == q.palette.tab_text_inactive),
{
}

/// Where the text of a row starts: behind its indentation, and for the row of an
/// element behind the place of its triangle.
pub proof fn law_text_starts_behind_the_triangle(q: RowPicture)
    ensures
        q.start() == q.left + px(11) + q.row.indent * px(13) + (if q.row.kind == RowKind::Item
            && q.row.node is Some {
            px(13)
        } else {
            0
        }),
        q.placed() == placed_segs(q.row.segs, q.start(), q.right - px(11), q.w),
        q.row.kind == RowKind::Header ==> q.line_top() + q.line() == q.y + q.height() - px(5),
        q.row.kind != RowKind::Header ==> q.line_top() == q.y + (q.height() - q.line()) / 2,
        q.line() == tallest(q.row.segs, q.lines),
{
}

/// A segment is written in its tone and type face on the base line of its row,
/// behind its chip where it has one; the title of a header is in capitals.
pub proof fn law_segments_are_written(q: RowPicture, p: PlacedView)
    ensures
        ({
            let d = q.segment(p);
            let text = if q.row.kind == RowKind::Header && p.face == Face::UiStrong {
                uppercase(p.text)
            } else {
                p.text
            };
            let y = q.line_top() + highest(q.row.segs, q.lines) - q.lines.ascent(p.face);
            let middle = y + q.line() / 2;
            let chip = p.swatch is Some;
            let n = if chip {
                2int
            } else {
                0int
            };
            &&& d.len() == n + (if text.len() > 0 {
                1int
            } else {
                0int
            })
            &&& p.swatch matches Some((r, g, b, a)) ==> fills_round(
                d[0],
                p.x,
                middle - 288,
                p.x + 576,
                middle + 288,
                px(2),
                Rgba { r, g, b, a },
            ) && outlines_round(
                d[1],
                p.x,
                middle - 288,
                p.x + 576,
                middle + 288,
                px(2),
                Rgba { a: 0x66, ..q.palette.url_border_idle },
            )
            &&& text.len() > 0 ==> writes(
                d[n],
                text,
                TextStyle::Panel(p.face),
                p.x + (if chip {
                    896int
                } else {
                    0
                }),
                y,
                match p.tone {
                    Tone::Key => q.tones.key,
                    Tone::Value => q.tones.value,
                    Tone::Muted => q.tones.muted,
                    Tone::Accent => q.tones.accent,
                    Tone::Good => q.tones.good,
                    Tone::Bad => q.tones.bad,
                },
                100,
            )
        }),
{
}

/// A row is painted with its ground, its levels in the tree, its triangle, all
/// its placed segments in order, and its rule.
pub proof fn law_rows_show_all_their_parts(q: RowPicture, n: int)
    ensures
        ({
            let levels = q.guide_lines(
                if q.guides {
                    q.row.indent as int
                } else {
                    0
                },
            );
            q.scene() == q.backdrop() + levels + q.twisty() + q.segments(q.placed().len() as int)
                + q.rule()
        }),
        n > 0 ==> q.segments(n) == q.segments(n - 1) + q.segment(q.placed()[n - 1]),
        q.segments(0).len() == 0,
        q.row.kind != RowKind::Header ==> q.rule().len() == 0,
{
}

/// Whether the pointer is on a row.
pub open spec fn points_at_row(q: PanelPicture, i: int) -> bool {
    q.state.hover matches Some((x, y)) && px(31) <= y < q.rows_bottom() - px(54) && x < px(410)
        && on_row(q.rows, i, y - px(31) + q.scroll())
}

/// A row is painted where it stands in the content, less how far that is
/// scrolled, across the panel up to the scroll bar. The row of the selected
/// element is selected, the one under the pointer lit, and only the tree traces
/// its levels.
pub proof fn law_rows_are_painted_where_they_stand(q: PanelPicture, i: int)
    ensures
        ({
            let r = q.row(i);
            let left = if q.window_width > px(420) {
                q.window_width - px(420)
            } else {
                0
            };
            &&& r.row == q.rows[i]
            &&& r.y == px(85) + top_of(q.rows, i as nat) - q.scroll()
            &&& r.left == left && r.right == q.window_width - px(10)
            &&& r.selected <==> q.rows[i].node is Some && q.rows[i].node == q.state.selected
            &&& r.hovered <==> points_at_row(q, i)
            &&& r.guides <==> q.state.tab == InspectorTab::Elements
            &&& r.palette == q.palette && r.tones == q.tones && r.lines == q.lines
        }),
{
}

/// Every row is painted in order, unless it lies wholly above the rows' place or
/// below it.
pub proof fn law_every_row_in_sight_is_painted(q: PanelPicture, i: int)
    requires
        0 <= i < q.rows.len(),
    ensures
        ({
            let y = px(85) + top_of(q.rows, i as nat) - q.scroll();
            let next = px(85) + top_of(q.rows, (i + 1) as nat) - q.scroll();
            &&& next >= px(85) && y <= q.rows_bottom() ==> q.shown_rows(i + 1) == q.shown_rows(i)
                + q.row(i).scene()
            &&& next < px(85) || y > q.rows_bottom() ==> q.shown_rows(i + 1) == q.shown_rows(i)
            &&& q.shown_rows(0).len() == 0
        }),
{
    assert(top_of(q.rows, (i + 1) as nat) == top_of(q.rows, i as nat)
        + crate::inspector::model::types::kind_height(q.rows[i].kind));
}

/// How far the rows can be scrolled: until the last stands at the bottom of the
/// window, or above the drawer where that is open.
pub open spec fn range(q: PanelPicture) -> int {
    let bottom = if q.window_height > px(54) {
        q.window_height
    } else {
        px(54)
    };
    let end = if q.state.drawer is Some {
        bottom - px(176)
    } else {
        bottom
    };
    let seen = if end > px(85) {
        end - px(85)
    } else {
        0
    };
    if content_height(q.rows) > seen {
        content_height(q.rows) - seen
    } else {
        0
    }
}

/// Painting keeps the shown tab's rows within their range and remembers that
/// range; other tabs, the selection and what is hidden stay as they are.
pub proof fn law_painting_keeps_the_rows_in_range(q: PanelPicture, t: InspectorTab)
    requires
        q.state.scroll.len() == 5,
        range(q) <= i64::MAX,
    ensures
        ({
            let w = q.fitted();
            let at = q.state.scroll[tab_number(q.state.tab)] as int;
            &&& w.max_scroll == range(q)
            &&& w.scroll[tab_number(q.state.tab)] == if at < 0 {
                0
            } else if at > range(q) {
                range(q)
            } else {
                at
            }
            &&& q.scroll() == w.scroll[tab_number(q.state.tab)]
            &&& t != q.state.tab ==> w.scroll[tab_number(t)] == q.state.scroll[tab_number(t)]
            &&& w.selected == q.state.selected && w.collapsed == q.state.collapsed && w.tab
                == q.state.tab && w.open == q.state.open && w.picker == q.state.picker
            &&& w.drawer is Some <==> q.state.drawer is Some
        }),
{
}

/// What the panel shows: its ground, its tabs, its rows in their place, the
/// scroll bar and the edge, and over them the drawer where it is open.
pub proof fn law_the_panel_shows_all_its_parts(q: PanelPicture)
    ensures
        ({
            let f = q.frame();
            let left = if q.window_width > px(420) {
                q.window_width - px(420)
            } else {
                0
            };
            let bottom = if q.window_height > px(54) {
                q.window_height
            } else {
                px(54)
            };
            let a = 1 + q.tab_bar().scene().len() as int;
            let b = a + q.body().len();
            let c = b + q.scroll_bar().len();
            &&& f.len() == c + 1
            &&& fills(f[0], left, px(54), q.window_width, bottom, q.palette.bar_bg)
            &&& f.subrange(1, a) == q.tab_bar().scene()
            &&& f.subrange(a, b) == q.body()
            &&& f.subrange(b, c) == q.scroll_bar()
            &&& fills(f[c], left, px(54), left + px(1), bottom, q.palette.url_border_idle)
            &&& q.state.drawer is None ==> q.scene() == f
            &&& q.state.drawer is Some ==> q.scene() == f + q.drawer(q.state.drawer->0).scene()
            &&& q.tab_bar().left == left && q.tab_bar().right == q.window_width && q.tab_bar().top
                == px(54) && q.tab_bar().active == q.state.tab && q.tab_bar().picker
                == q.state.picker && q.tab_bar().hover == q.state.hover
        }),
        ({
            let b = q.body();
            let n = q.shown_rows(q.rows.len() as int).len() as int;
            &&& b.len() == n + 2
            &&& b[0] matches DrawView::PushClip { rect } && rect.y0 == px(85) && rect.x1
                == q.window_width as i64 && rect.y1 == q.rows_bottom() as i64
            &&& b.subrange(1, n + 1) == q.shown_rows(q.rows.len() as int)
            &&& b[n + 1] == DrawView::PopClip
        }),
{
    let f = q.frame();
    let a = 1 + q.tab_bar().scene().len() as int;
    let b = a + q.body().len();
    let c = b + q.scroll_bar().len();
    assert(f.subrange(1, a) =~= q.tab_bar().scene());
    assert(f.subrange(a, b) =~= q.body());
    assert(f.subrange(b, c) =~= q.scroll_bar());
    let rows = q.shown_rows(q.rows.len() as int);
    assert(q.body().subrange(1, rows.len() as int + 1) =~= rows);
}

/// The drawer is painted with the panel's own text and edges.
pub proof fn law_the_drawer_belongs_to_the_panel(q: PanelPicture, v: DrawerView)
    ensures
        ({
            let d = q.drawer(v);
            &&& d.view == v && d.left == q.left() && d.right == q.window_width && d.bottom
                == q.bottom() && d.hover == q.state.hover && d.recent == q.recent
            &&& d.tones == q.tones && d.palette == q.palette && d.lines == q.lines
        }),
{
}

/// Where the text of a placed segment ends.
pub open spec fn text_end(q: RowPicture, p: PlacedView) -> int {
    let text = if q.row.kind == RowKind::Header && p.face == Face::UiStrong {
        uppercase(p.text)
    } else {
        p.text
    };
    p.x + (if p.swatch is Some {
        896int
    } else {
        0
    }) + run_width(text, p.face, q.w)
}

/// The label of a row ends with the last of its strong segments.
pub proof fn law_labels_end_with_their_title(q: RowPicture, n: int, i: int)
    requires
        0 <= n <= q.placed().len(),
    ensures
        q.label_end(n) >= q.start(),
        0 <= i < n && q.placed()[i].face == Face::UiStrong ==> q.label_end(n) >= text_end(
            q,
            q.placed()[i],
        ),
        q.label_end(n) == q.start() || exists|j: int|
            0 <= j < n && (#[trigger] q.placed()[j]).face == Face::UiStrong && text_end(
                q,
                q.placed()[j],
            ) == q.label_end(n),
    decreases n,
{
    if n > 0 {
        law_labels_end_with_their_title(q, n - 1, i);
        let p = q.placed()[n - 1];
        assert(q.text_x(p) + run_width(q.body(p), p.face, q.w) == text_end(q, p));
        if q.label_end(n) != q.label_end(n - 1) {
            assert(text_end(q, q.placed()[n - 1]) == q.label_end(n));
        } else if q.label_end(n) != q.start() {
            let j = choose|j: int|
                0 <= j < n - 1 && (#[trigger] q.placed()[j]).face == Face::UiStrong && text_end(
                    q,
                    q.placed()[j],
                ) == q.label_end(n - 1);
            assert(text_end(q, q.placed()[j]) == q.label_end(n));
        }
    }
}

/// What follows a place in a row is the first segment behind it, or else the
/// margin.
pub proof fn law_what_follows_is_the_next_segment(q: RowPicture, x: int, n: int, i: int)
    requires
        0 <= n <= q.placed().len(),
    ensures
        q.next_start(x, n) <= q.right - px(11),
        0 <= i < n && q.placed()[i].x > x ==> q.next_start(x, n) <= q.placed()[i].x,
        q.next_start(x, n) == q.right - px(11) || exists|j: int|
            0 <= j < n && x < (#[trigger] q.placed()[j]).x == q.next_start(x, n),
    decreases n,
{
    if n > 0 {
        law_what_follows_is_the_next_segment(q, x, n - 1, i);
        if q.next_start(x, n) == q.next_start(x, n - 1) {
            if q.next_start(x, n) != q.right - px(11) {
                let j = choose|j: int|
                    0 <= j < n - 1 && x < (#[trigger] q.placed()[j]).x == q.next_start(x, n - 1);
                assert(q.placed()[j].x == q.next_start(x, n));
            }
        } else {
            assert(q.placed()[n - 1].x == q.next_start(x, n));
        }
    }
}

/// A header has a hairline from behind its title to what follows, with a margin
/// of eight pixels on both sides, where there is room.
pub proof fn law_headers_have_a_rule(q: RowPicture)
    requires
        q.row.kind == RowKind::Header,
    ensures
        ({
            let n = q.placed().len() as int;
            let x0 = q.label_end(n) + px(8);
            let x1 = q.next_start(x0, n) - px(8);
            let y = q.y + q.height() - q.line() / 2 - px(5);
            &&& x1 <= x0 ==> q.rule().len() == 0
            &&& x1 > x0 ==> q.rule().len() == 1 && fills(
                q.rule()[0],
                x0,
                y,
                x1,
                y + px(1),
                Rgba { a: 0x66, ..q.palette.url_border_idle },
            )
        }),
{
}

/// The highlight covers its element with a faint wash of the accent colour and
/// outlines it in that colour, one and a half pixels wide.
pub proof fn law_the_highlight_washes_and_outlines(rect: Rect, p: ChromePalette)
    ensures
        ({
            let d = highlight(rect, p);
            &&& d.len() == 2
            &&& d[0] == (DrawView::Fill {
                rect,
                color: Rgba { a: 0x2d, ..p.url_border_focused },
            })
            &&& d[1] == (DrawView::Outline { rect, width: 96, color: p.url_border_focused })
        }),
{
}

/// What is painted is the panel that was given.
pub proof fn law_the_given_panel_is_painted(
    ctx: PanelPaintContext<'_>,
    state: PanelView,
    recent: bool,
    w: spec_fn(Seq<char>, Face) -> nat,
    wrap: spec_fn(Seq<char>, i64) -> nat,
    i: int,
)
    ensures
        ({
            let q = ctx.picture(state, recent, w, wrap);
            &&& q.state == state && q.recent == recent && q.window_width == ctx.window_width
                && q.window_height == ctx.window_height
            &&& q.palette == *ctx.palette && q.tones == *ctx.tones && q.lines == *ctx.lines
            &&& q.w == w && q.wrap == wrap
            &&& q.rows.len() == ctx.rows@.len()
            &&& 0 <= i < ctx.rows@.len() ==> q.rows[i] == ctx.rows@[i]@
        }),
{
}

/// What is painted is the row, the tab bar and the drawer that were given.
pub proof fn law_the_given_parts_are_painted(
    row: RowPaint<'_>,
    bar: TabBarPaint<'_>,
    drawer: DrawerPaint<'_>,
    view: DrawerView,
    p: ChromePalette,
    t: Tones,
    lines: LineMetrics,
    w: spec_fn(Seq<char>, Face) -> nat,
    wrap: spec_fn(Seq<char>, i64) -> nat,
)
    ensures
        ({
            let q = row.picture(p, t, lines, w);
            &&& q.row == row.row@ && q.y == row.y && q.left == row.left && q.right
                == row.content_x1
            &&& q.selected == row.selected && q.hovered == row.hovered && q.guides
                == row.show_guides
            &&& q.palette == p && q.tones == t && q.lines == lines && q.w == w
        }),
        ({
            let q = bar.picture(w);
            &&& q.left == bar.left && q.right == bar.right && q.top == bar.top && q.active
                == bar.active && q.picker == bar.picker && q.hover == bar.hover
            &&& q.palette == *bar.palette && q.lines == *bar.lines && q.w == w
        }),
        ({
            let q = drawer.picture(view, w, wrap);
            &&& q.left == drawer.left && q.right == drawer.right && q.bottom
                == drawer.panel_bottom && q.hover == drawer.hover && q.view == view && q.recent
                == drawer.recent
            &&& q.palette == *drawer.palette && q.tones == *drawer.tones && q.lines
                == *drawer.lines && q.w == w && q.wrap == wrap
        }),
{
}

} // verus!
