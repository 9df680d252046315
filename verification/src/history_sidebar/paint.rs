//! Painting the history sidebar.

use vstd::prelude::*;

use crate::fit::{measures, measures_anything, truncate_to_width, truncated};
use crate::history::{all_visits, DayView, HistoryLog};
use crate::history_sidebar::laws::law_visits_are_listed_once_newest_first;
use crate::history_sidebar::{
    clear_button_rect, clear_rect, content_height, layout_rows, lemma_line_top_ascends,
    lemma_line_top_bounded, line_top, line_views, lines, manageable, panel_right, room, stacked,
    total_content_height, visible_height, Line, Row, CLEAR_BTN_W, GROUP_ROW_H, HEADER_HEIGHT, HPAD,
    ROW_H, SIDEBAR_WIDTH,
};
use crate::inspector::panel::clamped;
use crate::px::{floor_div, half, Rect, MAX_EXTENT, PX};
use crate::scene::{
    area, drawn_if, filled, written, ChromePalette, Draw, DrawView, Scene, TextStyle,
};

verus! {

/// Width of the bar beside the hovered visit.
pub const ACCENT_W: i64 = 2 * PX;

/// Width of the scroll bar.
pub const SCROLLBAR_W: i64 = 3 * PX;

/// Distance of the scroll bar from the sidebar's right edge.
pub const SCROLLBAR_INSET: i64 = 3 * PX;

/// The scroll bar is not shorter than this.
pub const MIN_THUMB_H: i64 = 24 * PX;

/// What the painted sidebar depends on. `width` and `height` measure text.
pub struct SidebarPaintContext<'a, F, G> {
    /// The visits.
    pub log: &'a HistoryLog,
    /// How far the rows are scrolled.
    pub scroll_offset: i64,
    /// The visit under the pointer.
    pub hovered: Option<usize>,
    /// The colours.
    pub palette: &'a ChromePalette,
    /// Height of the window.
    pub window_height: i64,
    /// Height of the chrome above the sidebar.
    pub chrome_height: i64,
    pub width: F,
    pub height: G,
}

/// The sidebar as it is painted.
pub struct SidebarPicture {
    pub days: Seq<DayView>,
    pub scroll: int,
    pub hovered: Option<int>,
    pub palette: ChromePalette,
    pub window_height: int,
    pub chrome_height: int,
    pub w: spec_fn(Seq<char>, TextStyle) -> nat,
    pub h: spec_fn(Seq<char>, TextStyle) -> nat,
}

impl SidebarPicture {
    pub open spec fn bottom(self) -> int {
        if self.window_height > self.chrome_height {
            self.window_height
        } else {
            self.chrome_height
        }
    }

    pub open spec fn content_top(self) -> int {
        self.chrome_height + HEADER_HEIGHT
    }

    /// The header: its title, the "Clear" button, and the line below.
    pub open spec fn header(self) -> Seq<DrawView> {
        let top = self.chrome_height;
        let button = clear_rect(self.chrome_height);
        seq![
            filled(0, top, SIDEBAR_WIDTH as int, top + HEADER_HEIGHT, self.palette.strip_bg),
            written(
                "History"@,
                TextStyle::Title,
                HPAD as int,
                top + (HEADER_HEIGHT - (self.h)("History"@, TextStyle::Title)) / 2,
                self.palette.tab_text,
            ),
            DrawView::FillRound {
                rect: button,
                radius: (3 * PX) as i64,
                color: self.palette.btn_bg,
            },
            written(
                "Clear"@,
                TextStyle::Small,
                button.x0 + (CLEAR_BTN_W - (self.w)("Clear"@, TextStyle::Small)) / 2,
                button.y0 + (button.y1 - button.y0 - (self.h)("Clear"@, TextStyle::Small)) / 2,
                self.palette.btn_text,
            ),
            filled(
                0,
                top + HEADER_HEIGHT - PX,
                SIDEBAR_WIDTH as int,
                top + HEADER_HEIGHT,
                self.palette.url_border_idle,
            ),
        ]
    }

    /// A day's label at `y`, with a line from it to the right edge.
    pub open spec fn group(self, label: Seq<char>, y: int) -> Seq<DrawView> {
        let x = HPAD + (self.w)(label, TextStyle::Small) + 8 * PX;
        let middle = y + GROUP_ROW_H / 2;
        seq![
            written(
                label,
                TextStyle::Small,
                HPAD as int,
                y + (GROUP_ROW_H - (self.h)(label, TextStyle::Small)) / 2,
                self.palette.tab_text_inactive,
            ),
        ] + drawn_if(
            x < SIDEBAR_WIDTH - HPAD,
            filled(
                x,
                middle,
                SIDEBAR_WIDTH - HPAD,
                middle + PX,
                self.palette.url_border_idle,
            ),
        )
    }

    /// Visit `i` at `y`: its title, and its address where that says more.
    pub open spec fn entry(self, i: int, y: int) -> Seq<DrawView> {
        let visit = all_visits(self.days)[i];
        let max = SIDEBAR_WIDTH - HPAD * 2;
        let title = truncated(visit.display_label(), max, TextStyle::Title, self.w);
        let address = truncated(visit.url, max, TextStyle::Address, self.w);
        (if self.hovered == Some(i) {
            seq![
                filled(0, y, SIDEBAR_WIDTH as int, y + ROW_H, self.palette.tab_inactive_bg),
                filled(0, y, ACCENT_W as int, y + ROW_H, self.palette.url_border_focused),
            ]
        } else {
            Seq::empty()
        }) + seq![
            written(title, TextStyle::Title, HPAD as int, y + 6 * PX, self.palette.tab_text),
        ] + drawn_if(
            visit.shows_url(),
            written(
                address,
                TextStyle::Address,
                HPAD as int,
                y + 6 * PX + (self.h)(title, TextStyle::Title) + 3 * PX,
                self.palette.tab_text_inactive,
            ),
        )
    }

    /// Top of row `k` on screen.
    pub open spec fn row_y(self, k: int) -> int {
        self.content_top() - self.scroll + line_top(lines(self.days), k as nat)
    }

    /// Row `k`.
    pub open spec fn row(self, k: int) -> Seq<DrawView> {
        match lines(self.days)[k] {
            Line::Group(label) => self.group(label, self.row_y(k)),
            Line::Entry(i) => self.entry(i, self.row_y(k)),
        }
    }

    /// Whether some of row `k` can be seen.
    pub open spec fn visible(self, k: int) -> bool {
        self.row_y(k) + lines(self.days)[k].height() >= self.content_top() && self.row_y(k)
            <= self.window_height
    }

    /// Those of the first `n` rows that can be seen.
    pub open spec fn rows(self, n: int) -> Seq<DrawView>
        decreases n,
    {
        if n <= 0 {
            Seq::empty()
        } else if self.visible(n - 1) {
            self.rows(n - 1) + self.row(n - 1)
        } else {
            self.rows(n - 1)
        }
    }

    /// A hint where nothing was visited.
    pub open spec fn hint(self) -> Seq<DrawView> {
        drawn_if(
            all_visits(self.days).len() == 0,
            written(
                "No pages visited yet."@,
                TextStyle::Small,
                HPAD as int,
                self.content_top() + HPAD,
                self.palette.tab_text_inactive,
            ),
        )
    }

    pub open spec fn thumb(self) -> int {
        let seen = room(self.window_height, self.chrome_height);
        let share = seen * seen / content_height(self.days);
        if share > MIN_THUMB_H {
            share
        } else {
            MIN_THUMB_H as int
        }
    }

    /// The scroll bar, or nothing where all fits.
    pub open spec fn scroll_bar(self) -> Seq<DrawView> {
        let seen = room(self.window_height, self.chrome_height);
        let rest = content_height(self.days) - seen;
        let y = self.content_top() + clamped(self.scroll, 0, rest) * (seen - self.thumb()) / rest;
        let right = SIDEBAR_WIDTH - SCROLLBAR_INSET;
        drawn_if(
            seen > 0 && rest > 0,
            DrawView::FillRound {
                rect: area(right - SCROLLBAR_W, y, right, y + self.thumb()),
                radius: (SCROLLBAR_W / 2) as i64,
                color: self.palette.url_border_idle,
            },
        )
    }

    /// The sidebar.
    pub open spec fn scene(self) -> Seq<DrawView> {
        let right = SIDEBAR_WIDTH as int;
        seq![filled(0, self.chrome_height, right, self.bottom(), self.palette.bar_bg)]
            + self.header() + seq![
            DrawView::PushClip { rect: area(0, self.content_top(), right, self.bottom()) },
        ] + self.hint() + self.rows(lines(self.days).len() as int) + seq![DrawView::PopClip]
            + self.scroll_bar() + seq![
            filled(
                right - PX,
                self.chrome_height,
                right,
                self.bottom(),
                self.palette.url_border_idle,
            ),
        ]
    }
}

impl<
    'a,
    F: Fn(&str, TextStyle) -> u32 + Copy,
    G: Fn(&str, TextStyle) -> u32 + Copy,
> SidebarPaintContext<'a, F, G> {
    /// The sidebar as it is painted, where text is as large as `w` and `h` say.
    pub open spec fn picture(
        &self,
        w: spec_fn(Seq<char>, TextStyle) -> nat,
        h: spec_fn(Seq<char>, TextStyle) -> nat,
    ) -> SidebarPicture {
        SidebarPicture {
            days: self.log@,
            scroll: self.scroll_offset as int,
            hovered: match self.hovered {
                Some(i) => Some(i as int),
                None => None,
            },
            palette: *self.palette,
            window_height: self.window_height as int,
            chrome_height: self.chrome_height as int,
            w,
            h,
        }
    }

    /// Whether text is as large as `w` and `h` say.
    pub open spec fn follows(
        &self,
        w: spec_fn(Seq<char>, TextStyle) -> nat,
        h: spec_fn(Seq<char>, TextStyle) -> nat,
    ) -> bool {
        measures(self.width, w) && measures(self.height, h)
    }

    /// Whether text can be measured, and nothing is absurdly large.
    pub open spec fn ready(&self) -> bool {
        &&& measures_anything(self.width)
        &&& measures_anything(self.height)
        &&& manageable(self.log@)
        &&& -MAX_EXTENT <= self.scroll_offset <= MAX_EXTENT
        &&& -MAX_EXTENT <= self.window_height <= MAX_EXTENT
        &&& -MAX_EXTENT <= self.chrome_height <= MAX_EXTENT
    }

    /// Paints the header.
    fn paint_header(&self, scene: &mut Scene)
        requires
            self.ready(),
        ensures
            forall|
                w: spec_fn(Seq<char>, TextStyle) -> nat,
                h: spec_fn(Seq<char>, TextStyle) -> nat,
            | #[trigger]
                self.follows(w, h) ==> final(scene)@ == old(scene)@ + self.picture(
                    w,
                    h,
                ).header(),
    {
        let top = self.chrome_height;
        let right = panel_right();
        scene.fill(0, top, right, top + HEADER_HEIGHT, self.palette.strip_bg);
        let title_tall = (self.height)("History", TextStyle::Title) as i64;
        scene.write(
            "History".to_owned(),
            TextStyle::Title,
            HPAD,
            top + half(HEADER_HEIGHT - title_tall),
            self.palette.tab_text,
        );
        let button = clear_button_rect(top);
        scene.push(
            Draw::FillRound { rect: button, radius: 3 * PX, color: self.palette.btn_bg },
        );
        let wide = (self.width)("Clear", TextStyle::Small) as i64;
        let tall = (self.height)("Clear", TextStyle::Small) as i64;
        scene.write(
            "Clear".to_owned(),
            TextStyle::Small,
            button.x0 + half(CLEAR_BTN_W - wide),
            button.y0 + half(button.y1 - button.y0 - tall),
            self.palette.btn_text,
        );
        scene.fill(
            0,
            top + HEADER_HEIGHT - PX,
            right,
            top + HEADER_HEIGHT,
            self.palette.url_border_idle,
        );
        proof {
            assert forall|
                w: spec_fn(Seq<char>, TextStyle) -> nat,
                h: spec_fn(Seq<char>, TextStyle) -> nat,
            | #[trigger]
                self.follows(w, h) implies scene@ == old(scene)@ + self.picture(
                w,
                h,
            ).header() by {
                assert(scene@ =~= old(scene)@ + self.picture(w, h).header());
            }
        }
    }

    /// Paints a day's label.
    fn paint_group_row(&self, scene: &mut Scene, label: &str, y: i64)
        requires
            self.ready(),
            -4 * MAX_EXTENT <= y <= 4 * MAX_EXTENT,
        ensures
            forall|
                w: spec_fn(Seq<char>, TextStyle) -> nat,
                h: spec_fn(Seq<char>, TextStyle) -> nat,
            | #[trigger]
                self.follows(w, h) ==> final(scene)@ == old(scene)@ + self.picture(
                    w,
                    h,
                ).group(label@, y as int),
    {
        let tall = (self.height)(label, TextStyle::Small) as i64;
        scene.write(
            label.to_owned(),
            TextStyle::Small,
            HPAD,
            y + half(GROUP_ROW_H - tall),
            self.palette.tab_text_inactive,
        );
        let wide = (self.width)(label, TextStyle::Small) as i64;
        let x: i64 = HPAD + wide + 8 * PX;
        let middle: i64 = y + GROUP_ROW_H / 2;
        if x < panel_right() - HPAD {
            scene.fill(
                x,
                middle,
                panel_right() - HPAD,
                middle + PX,
                self.palette.url_border_idle,
            );
        }
        proof {
            assert forall|
                w: spec_fn(Seq<char>, TextStyle) -> nat,
                h: spec_fn(Seq<char>, TextStyle) -> nat,
            | #[trigger]
                self.follows(w, h) implies scene@ == old(scene)@ + self.picture(
                w,
                h,
            ).group(label@, y as int) by {
                assert(scene@ =~= old(scene)@ + self.picture(w, h).group(label@, y as int));
            }
        }
    }

    /// Paints a visit.
    fn paint_entry_row(&self, scene: &mut Scene, index: usize, y: i64)
        requires
            self.ready(),
            index < all_visits(self.log@).len(),
            -4 * MAX_EXTENT <= y <= 4 * MAX_EXTENT,
        ensures
            forall|
                w: spec_fn(Seq<char>, TextStyle) -> nat,
                h: spec_fn(Seq<char>, TextStyle) -> nat,
            | #[trigger]
                self.follows(w, h) ==> final(scene)@ == old(scene)@ + self.picture(
                    w,
                    h,
                ).entry(index as int, y as int),
    {
        if let Some(visit) = self.log.get(index) {
            if self.hovered == Some(index) {
                scene.fill(0, y, panel_right(), y + ROW_H, self.palette.tab_inactive_bg);
                scene.fill(0, y, ACCENT_W, y + ROW_H, self.palette.url_border_focused);
            }
            let max: i64 = panel_right() - HPAD * 2;
            let title = truncate_to_width(
                visit.display_label(),
                max,
                TextStyle::Title,
                self.width,
            );
            let tall = (self.height)(title.as_str(), TextStyle::Title) as i64;
            scene.write(title, TextStyle::Title, HPAD, y + 6 * PX, self.palette.tab_text);
            if visit.shows_url() {
                let address = truncate_to_width(
                    visit.url.as_str(),
                    max,
                    TextStyle::Address,
                    self.width,
                );
                scene.write(
                    address,
                    TextStyle::Address,
                    HPAD,
                    y + 6 * PX + tall + 3 * PX,
                    self.palette.tab_text_inactive,
                );
            }
        }
        proof {
            assert forall|
                w: spec_fn(Seq<char>, TextStyle) -> nat,
                h: spec_fn(Seq<char>, TextStyle) -> nat,
            | #[trigger]
                self.follows(w, h) implies scene@ == old(scene)@ + self.picture(
                w,
                h,
            ).entry(index as int, y as int) by {
                assert(scene@ =~= old(scene)@ + self.picture(w, h).entry(index as int, y as int));
            }
        }
    }

    /// Paints the rows that can be seen.
    fn paint_rows(&self, scene: &mut Scene)
        requires
            self.ready(),
        ensures
            forall|
                w: spec_fn(Seq<char>, TextStyle) -> nat,
                h: spec_fn(Seq<char>, TextStyle) -> nat,
            | #[trigger]
                self.follows(w, h) ==> final(scene)@ == old(scene)@ + self.picture(
                    w,
                    h,
                ).rows(lines(self.log@).len() as int),
    {
        let ghost s = lines(self.log@);
        let ghost before = scene@;
        let rows = layout_rows(self.log);
        let content_top: i64 = self.chrome_height + HEADER_HEIGHT;
        let origin: i64 = content_top - self.scroll_offset;
        let mut k: usize = 0;
        proof {
            assert(rows@.len() == line_views(rows@).len());
            assert(before + Seq::<DrawView>::empty() =~= before);
            law_visits_are_listed_once_newest_first(self.log@);
            assert forall|j: int| 0 <= j < rows@.len() implies 0 <= (#[trigger] rows@[j])@.top
                <= MAX_EXTENT by {
                assert(line_views(rows@)[j] == stacked(s)[j]);
                lemma_line_top_bounded(s, j as nat);
                assert(j * ROW_H <= 0xffff_ffff * 2432) by (nonlinear_arith)
                    requires
                        0 <= j <= 0xffff_ffff,
                        ROW_H == 2432,
                ;
            }
        }
        while k < rows.len() && origin + rows[k].top() <= self.window_height
            invariant
                self.ready(),
                s == lines(self.log@),
                k <= rows@.len() == s.len(),
                line_views(rows@) == stacked(s),
                content_top == self.chrome_height + HEADER_HEIGHT,
                origin == content_top - self.scroll_offset,
                forall|j: int|
                    0 <= j < s.len() && (#[trigger] s[j]) is Entry ==> 0 <= s[j]->Entry_0
                        < all_visits(self.log@).len(),
                forall|j: int|
                    0 <= j < rows@.len() ==> 0 <= (#[trigger] rows@[j])@.top <= MAX_EXTENT,
                forall|
                    w: spec_fn(Seq<char>, TextStyle) -> nat,
                    h: spec_fn(Seq<char>, TextStyle) -> nat,
                | #[trigger]
                    self.follows(w, h) ==> scene@ == before + self.picture(
                        w,
                        h,
                    ).rows(k as int),
            decreases rows.len() - k,
        {
            let row = &rows[k];
            let y: i64 = origin + row.top();
            let ghost so_far = scene@;
            proof {
                assert(line_views(rows@)[k as int] == stacked(s)[k as int]);
                assert(row@ == stacked(s)[k as int]);
            }
            if y + row.height() >= content_top {
                match row {
                    Row::Group { label, .. } => {
                        self.paint_group_row(scene, label.as_str(), y);
                    },
                    Row::Entry { index, .. } => {
                        proof {
                            assert(s[k as int] is Entry);
                        }
                        self.paint_entry_row(scene, *index, y);
                    },
                }
                proof {
                    assert forall|
                w: spec_fn(Seq<char>, TextStyle) -> nat,
                h: spec_fn(Seq<char>, TextStyle) -> nat,
            | #[trigger]
                self.follows(w, h) implies scene@ == before + self.picture(
                        w,
                        h,
                    ).rows(k + 1) by {
                        let q = self.picture(w, h);
                        assert(y == q.row_y(k as int));
                        assert(so_far == before + q.rows(k as int));
                        assert(scene@ == so_far + q.row(k as int));
                        assert(before + q.rows(k as int) + q.row(k as int) =~= before + (q.rows(
                            k as int,
                        ) + q.row(k as int)));
                    }
                }
            } else {
                proof {
                    assert forall|
                w: spec_fn(Seq<char>, TextStyle) -> nat,
                h: spec_fn(Seq<char>, TextStyle) -> nat,
            | #[trigger]
                self.follows(w, h) implies scene@ == before + self.picture(
                        w,
                        h,
                    ).rows(k + 1) by {
                        let q = self.picture(w, h);
                        assert(!q.visible(k as int));
                    }
                }
            }
            k += 1;
        }
        proof {
            assert forall|
                w: spec_fn(Seq<char>, TextStyle) -> nat,
                h: spec_fn(Seq<char>, TextStyle) -> nat,
            | #[trigger]
                self.follows(w, h) implies scene@ == before + self.picture(
                w,
                h,
            ).rows(s.len() as int) by {
                let q = self.picture(w, h);
                if k < s.len() {
                    assert(line_views(rows@)[k as int] == stacked(s)[k as int]);
                    assert(rows@[k as int]@ == stacked(s)[k as int]);
                }
                lemma_rest_hidden(q, k as int, s.len() as int);
            }
        }
    }

    /// Paints the scroll bar, where not all fits.
    fn paint_scrollbar(&self, scene: &mut Scene)
        requires
            self.ready(),
        ensures
            forall|
                w: spec_fn(Seq<char>, TextStyle) -> nat,
                h: spec_fn(Seq<char>, TextStyle) -> nat,
            | #[trigger]
                self.follows(w, h) ==> final(scene)@ == old(scene)@ + self.picture(
                    w,
                    h,
                ).scroll_bar(),
    {
        let seen = visible_height(self.window_height, self.chrome_height);
        let content = total_content_height(self.log);
        if seen > 0 && content > seen {
            let rest: i64 = content - seen;
            proof {
                assert(0 <= seen * seen <= 0x4_0000_0000_0000 * 0x4_0000_0000_0000)
                    by (nonlinear_arith)
                    requires
                        0 <= seen <= 0x4_0000_0000_0000,
                ;
                let square = seen * seen;
                assert(0 <= square / content as int <= seen) by (nonlinear_arith)
                    requires
                        square == seen * seen,
                        0 < seen < content,
                ;
            }
            let share: i128 = seen as i128 * seen as i128 / content as i128;
            let thumb: i64 = if share > MIN_THUMB_H as i128 {
                share as i64
            } else {
                MIN_THUMB_H
            };
            let at: i64 = if self.scroll_offset < 0 {
                0
            } else if self.scroll_offset > rest {
                rest
            } else {
                self.scroll_offset
            };
            let way: i64 = seen - thumb;
            proof {
                assert(-0x1_0000_0000_0000 * 0x8_0000_0000_0000 <= at * way <= 0x1_0000_0000_0000
                    * 0x8_0000_0000_0000) by (nonlinear_arith)
                    requires
                        0 <= at <= 0x1_0000_0000_0000,
                        -0x8_0000_0000_0000 <= way <= 0x8_0000_0000_0000,
                ;
                let product = at * way;
                assert(-0x8_0000_0000_0000 <= product / rest as int <= 0x8_0000_0000_0000)
                    by (nonlinear_arith)
                    requires
                        product == at * way,
                        0 <= at <= rest,
                        rest > 0,
                        -0x8_0000_0000_0000 <= way <= 0x8_0000_0000_0000,
                ;
            }
            let offset = floor_div(at as i128 * way as i128, rest as i128);
            let y: i64 = self.chrome_height + HEADER_HEIGHT + offset as i64;
            let right: i64 = panel_right() - SCROLLBAR_INSET;
            scene.push(
                Draw::FillRound {
                    rect: Rect { x0: right - SCROLLBAR_W, y0: y, x1: right, y1: y + thumb },
                    radius: SCROLLBAR_W / 2,
                    color: self.palette.url_border_idle,
                },
            );
        }
        proof {
            assert forall|
                w: spec_fn(Seq<char>, TextStyle) -> nat,
                h: spec_fn(Seq<char>, TextStyle) -> nat,
            | #[trigger]
                self.follows(w, h) implies scene@ == old(scene)@ + self.picture(
                w,
                h,
            ).scroll_bar() by {
                assert(scene@ =~= old(scene)@ + self.picture(w, h).scroll_bar());
            }
        }
    }
}

/// No row from `i` on can be seen once row `i` is below the window.
proof fn lemma_rest_hidden(q: SidebarPicture, i: int, n: int)
    requires
        0 <= i <= n <= lines(q.days).len(),
        i < n ==> q.row_y(i) > q.window_height,
    ensures
        q.rows(n) == q.rows(i),
    decreases n - i,
{
    if i < n {
        if i < n - 1 {
            lemma_line_top_ascends(lines(q.days), i as nat, (n - 1) as nat);
        }
        lemma_rest_hidden(q, i, n - 1);
    }
}

/// Paints the sidebar.
pub fn paint_history_sidebar<
    F: Fn(&str, TextStyle) -> u32 + Copy,
    G: Fn(&str, TextStyle) -> u32 + Copy,
>(scene: &mut Scene, ctx: &SidebarPaintContext<'_, F, G>)
    requires
        ctx.ready(),
    ensures
        forall|
            w: spec_fn(Seq<char>, TextStyle) -> nat,
            h: spec_fn(Seq<char>, TextStyle) -> nat,
        | #[trigger]
            ctx.follows(w, h) ==> final(scene)@ == old(scene)@ + ctx.picture(w, h).scene(),
{
    let right = panel_right();
    let top = ctx.chrome_height;
    let bottom: i64 = if ctx.window_height > top {
        ctx.window_height
    } else {
        top
    };
    let content_top: i64 = top + HEADER_HEIGHT;
    scene.fill(0, top, right, bottom, ctx.palette.bar_bg);
    ctx.paint_header(scene);
    scene.push(Draw::PushClip { rect: Rect { x0: 0, y0: content_top, x1: right, y1: bottom } });
    if ctx.log.is_empty() {
        scene.write(
            "No pages visited yet.".to_owned(),
            TextStyle::Small,
            HPAD,
            content_top + HPAD,
            ctx.palette.tab_text_inactive,
        );
    }
    ctx.paint_rows(scene);
    scene.push(Draw::PopClip);
    ctx.paint_scrollbar(scene);
    scene.fill(right - PX, top, right, bottom, ctx.palette.url_border_idle);
    proof {
        assert forall|
            w: spec_fn(Seq<char>, TextStyle) -> nat,
            h: spec_fn(Seq<char>, TextStyle) -> nat,
        | #[trigger]
            ctx.follows(w, h) implies scene@ == old(scene)@ + ctx.picture(w, h).scene() by {
            let q = ctx.picture(w, h);
            assert(scene@ =~= old(scene)@ + q.scene());
        }
    }
}

} // verus!
