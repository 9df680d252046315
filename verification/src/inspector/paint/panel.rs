//! Painting the whole panel.

use vstd::prelude::*;

use crate::chrome::geometry::CHROME_HEIGHT;
use crate::fit::{measures, measures_anything};
use crate::inspector::model::types::{kind_height, row_views, Face, Row, RowView, HEADER_ROW_HEIGHT};
use crate::inspector::paint::bars::{
    paint_scrollbar, paint_tab_bar, scrollbar, TabBarPaint, TabBarPicture,
};
use crate::inspector::paint::color::Tones;
use crate::inspector::paint::drawer::{
    drawer_fits, paint_value_drawer, recently_copied, text_room, DrawerPaint, DrawerPicture,
};
use crate::inspector::paint::gauge::TextCtx;
use crate::inspector::paint::rows::{paint_row, LineMetrics, RowPaint, RowPicture};
use crate::inspector::paint::segments::MAX_SEGS;
use crate::inspector::panel::{
    clamped, content_height, content_top, lemma_one_row, lemma_tops_ascend, on_row, panel_left,
    row_at, row_tops, top_of, are_tops, ascending, DrawerView, InspectorState, InspectorTab,
    PanelView, DRAWER_HEIGHT, MAX_ROWS, PANEL_WIDTH, SCROLLBAR_GUTTER, TAB_BAR_HEIGHT,
};
use crate::px::{Rect, MAX_EXTENT, PX};
use crate::scene::{area, filled, ChromePalette, Draw, DrawView, Scene};

verus! {

/// Left edge of the panel.
pub open spec fn left_edge(window_width: int) -> int {
    if window_width > PANEL_WIDTH {
        window_width - PANEL_WIDTH
    } else {
        0
    }
}

/// Bottom of the panel.
pub open spec fn lower_edge(window_height: int) -> int {
    if window_height > CHROME_HEIGHT {
        window_height
    } else {
        CHROME_HEIGHT as int
    }
}

/// Bottom of the rows: the drawer takes its place away from them.
pub open spec fn rows_edge(state: PanelView, window_height: int) -> int {
    if state.drawer is Some {
        lower_edge(window_height) - DRAWER_HEIGHT
    } else {
        lower_edge(window_height)
    }
}

/// Height of the part of the rows that can be seen.
pub open spec fn rows_viewport(state: PanelView, window_height: int) -> int {
    let top = CHROME_HEIGHT + TAB_BAR_HEIGHT + PX;
    if rows_edge(state, window_height) > top {
        rows_edge(state, window_height) - top
    } else {
        0
    }
}

/// How far the rows can be scrolled.
pub open spec fn scroll_range(state: PanelView, rows: Seq<RowView>, window_height: int) -> int {
    if content_height(rows) > rows_viewport(state, window_height) {
        content_height(rows) - rows_viewport(state, window_height)
    } else {
        0
    }
}

/// The state with the scroll offset of the active tab held within its rows.
pub open spec fn rows_held(state: PanelView, rows: Seq<RowView>, window_height: int) -> PanelView {
    let most = scroll_range(state, rows, window_height);
    PanelView {
        scroll: state.scroll.update(
            state.tab.position(),
            clamped(state.scroll_offset(), 0, most) as i64,
        ),
        max_scroll: most as i64,
        ..state
    }
}

/// Whether `after` is `before` with all scroll offsets held within what is
/// shown, where the drawer's text is as high as `wrapped_height` says.
pub open spec fn panel_fits<H: Fn(&str, i64) -> u32>(
    wrapped_height: H,
    ctx: PanelPaintContext<'_>,
    before: PanelView,
    after: PanelView,
) -> bool {
    let held = rows_held(before, row_views(ctx.rows@), ctx.window_height as int);
    let width = text_room(left_edge(ctx.window_width as int), ctx.window_width as int);
    &&& after == (PanelView { drawer: after.drawer, ..held })
    &&& match (before.drawer, after.drawer) {
        (Some(b), Some(a)) => drawer_fits(wrapped_height, width, b, a),
        (None, None) => true,
        _ => false,
    }
}

/// The panel as it is painted.
pub struct PanelPicture {
    /// The panel's state before it is painted.
    pub state: PanelView,
    pub rows: Seq<RowView>,
    pub window_width: int,
    pub window_height: int,
    /// Whether the drawer's text was copied a moment ago.
    pub recent: bool,
    pub palette: ChromePalette,
    pub tones: Tones,
    pub lines: LineMetrics,
    pub w: spec_fn(Seq<char>, Face) -> nat,
    /// Height of text that is wrapped to a width.
    pub wrap: spec_fn(Seq<char>, i64) -> nat,
}

impl PanelPicture {
    pub open spec fn left(self) -> int {
        left_edge(self.window_width)
    }

    pub open spec fn bottom(self) -> int {
        lower_edge(self.window_height)
    }

    /// Top of the rows.
    pub open spec fn body_top(self) -> int {
        CHROME_HEIGHT + TAB_BAR_HEIGHT + PX
    }

    /// Bottom of the rows.
    pub open spec fn rows_bottom(self) -> int {
        rows_edge(self.state, self.window_height)
    }

    /// Height of the part of the rows that can be seen.
    pub open spec fn viewport(self) -> int {
        rows_viewport(self.state, self.window_height)
    }

    /// How far the rows can be scrolled.
    pub open spec fn max_scroll(self) -> int {
        scroll_range(self.state, self.rows, self.window_height)
    }

    /// How far the rows are scrolled.
    pub open spec fn scroll(self) -> int {
        clamped(self.state.scroll_offset(), 0, self.max_scroll())
    }

    /// The tab bar.
    pub open spec fn tab_bar(self) -> TabBarPicture {
        TabBarPicture {
            left: self.left(),
            right: self.window_width,
            top: CHROME_HEIGHT as int,
            active: self.state.tab,
            picker: self.state.picker,
            hover: self.state.hover,
            palette: self.palette,
            lines: self.lines,
            w: self.w,
        }
    }

    /// Whether the pointer is over row `i`.
    pub open spec fn over_row(self, i: int) -> bool {
        self.state.hover matches Some((x, y)) && TAB_BAR_HEIGHT + PX <= y < self.rows_bottom()
            - CHROME_HEIGHT && x < PANEL_WIDTH - SCROLLBAR_GUTTER && on_row(
            self.rows,
            i,
            y - (TAB_BAR_HEIGHT + PX) + self.scroll(),
        )
    }

    /// Top of row `i` on screen.
    pub open spec fn row_y(self, i: int) -> int {
        self.body_top() + top_of(self.rows, i as nat) - self.scroll()
    }

    /// Row `i`.
    pub open spec fn row(self, i: int) -> RowPicture {
        RowPicture {
            row: self.rows[i],
            y: self.row_y(i),
            left: self.left(),
            right: self.window_width - SCROLLBAR_GUTTER,
            selected: self.rows[i].node is Some && self.rows[i].node == self.state.selected,
            hovered: self.over_row(i),
            guides: self.state.tab == InspectorTab::Elements,
            palette: self.palette,
            tones: self.tones,
            lines: self.lines,
            w: self.w,
        }
    }

    /// Whether some of row `i` can be seen.
    pub open spec fn visible(self, i: int) -> bool {
        self.row_y(i) + kind_height(self.rows[i].kind) >= self.body_top() && self.row_y(i)
            <= self.rows_bottom()
    }

    /// Those of the first `n` rows that can be seen.
    pub open spec fn shown_rows(self, n: int) -> Seq<DrawView>
        decreases n,
    {
        if n <= 0 {
            Seq::empty()
        } else if self.visible(n - 1) {
            self.shown_rows(n - 1) + self.row(n - 1).scene()
        } else {
            self.shown_rows(n - 1)
        }
    }

    /// The drawer, if it is open.
    pub open spec fn drawer(self, view: DrawerView) -> DrawerPicture {
        DrawerPicture {
            left: self.left(),
            right: self.window_width,
            bottom: self.bottom(),
            hover: self.state.hover,
            view,
            recent: self.recent,
            palette: self.palette,
            tones: self.tones,
            lines: self.lines,
            w: self.w,
            wrap: self.wrap,
        }
    }

    /// The state with all scroll offsets held within what is shown.
    pub open spec fn fitted(self) -> PanelView {
        PanelView {
            drawer: match self.state.drawer {
                Some(view) => Some(self.drawer(view).fitted()),
                None => None,
            },
            ..rows_held(self.state, self.rows, self.window_height)
        }
    }

    /// The rows inside their frame.
    pub open spec fn body(self) -> Seq<DrawView> {
        seq![
            DrawView::PushClip {
                rect: area(self.left(), self.body_top(), self.window_width, self.rows_bottom()),
            },
        ] + self.shown_rows(self.rows.len() as int) + seq![DrawView::PopClip]
    }

    /// The scroll bar beside the rows.
    pub open spec fn scroll_bar(self) -> Seq<DrawView> {
        scrollbar(
            self.palette,
            self.window_width,
            self.body_top(),
            self.rows_bottom(),
            self.viewport(),
            content_height(self.rows),
            self.scroll(),
            self.max_scroll(),
        )
    }

    /// The panel without the drawer.
    pub open spec fn frame(self) -> Seq<DrawView> {
        seq![
            filled(
                self.left(),
                CHROME_HEIGHT as int,
                self.window_width,
                self.bottom(),
                self.palette.bar_bg,
            ),
        ] + self.tab_bar().scene() + self.body() + self.scroll_bar() + seq![
            filled(
                self.left(),
                CHROME_HEIGHT as int,
                self.left() + PX,
                self.bottom(),
                self.palette.url_border_idle,
            ),
        ]
    }

    /// The panel.
    pub open spec fn scene(self) -> Seq<DrawView> {
        match self.state.drawer {
            Some(view) => self.frame() + self.drawer(view).scene(),
            None => self.frame(),
        }
    }
}

/// What the painted panel depends on, besides its state.
pub struct PanelPaintContext<'a> {
    /// The rows of the active tab.
    pub rows: &'a [Row],
    /// Width of the window.
    pub window_width: i64,
    /// Height of the window.
    pub window_height: i64,
    /// The colours of surfaces.
    pub palette: &'a ChromePalette,
    /// The colours of text.
    pub tones: &'a Tones,
    /// Heights of lines.
    pub lines: &'a LineMetrics,
}

impl<'a> PanelPaintContext<'a> {
    /// The panel as it is painted.
    pub open spec fn picture(
        &self,
        state: PanelView,
        recent: bool,
        w: spec_fn(Seq<char>, Face) -> nat,
        wrap: spec_fn(Seq<char>, i64) -> nat,
    ) -> PanelPicture {
        PanelPicture {
            state,
            rows: row_views(self.rows@),
            window_width: self.window_width as int,
            window_height: self.window_height as int,
            recent,
            palette: *self.palette,
            tones: *self.tones,
            lines: *self.lines,
            w,
            wrap,
        }
    }

    /// Whether nothing is absurdly large.
    pub open spec fn sane(&self) -> bool {
        &&& 0 <= self.window_width <= MAX_EXTENT / 2
        &&& -MAX_EXTENT <= self.window_height <= MAX_EXTENT / 2
        &&& self.rows@.len() <= MAX_ROWS
        &&& forall|i: int|
            0 <= i < self.rows@.len() ==> (#[trigger] self.rows@[i]).segs@.len() <= MAX_SEGS
    }
}

/// Where the rows are, for one painting.
struct Viewport {
    left: i64,
    rows_bottom: i64,
    viewport: i64,
    content: i64,
    scroll: i64,
    max_scroll: i64,
    hovered: Option<usize>,
}

impl Viewport {
    /// Whether this is where picture `q` has its rows.
    spec fn of(&self, q: PanelPicture) -> bool {
        &&& self.left == q.left()
        &&& self.rows_bottom == q.rows_bottom()
        &&& self.viewport == q.viewport()
        &&& self.content == content_height(q.rows)
        &&& self.scroll == q.scroll()
        &&& self.max_scroll == q.max_scroll()
        &&& forall|i: int| 0 <= i < q.rows.len() ==> (#[trigger] q.over_row(i) <==> self.hovered
            == Some(i as usize))
    }

    spec fn sane(&self) -> bool {
        &&& 0 <= self.left <= MAX_EXTENT / 2
        &&& -MAX_EXTENT <= self.rows_bottom <= MAX_EXTENT / 2
        &&& 0 <= self.viewport <= MAX_EXTENT / 2
        &&& 0 <= self.scroll <= self.max_scroll <= self.content <= MAX_EXTENT / 2
    }
}

/// Finds out where the rows are, and holds the scroll offset within them.
fn lay_out(
    state: &mut InspectorState,
    ctx: &PanelPaintContext<'_>,
    tops: &[i64],
    drawer_open: bool,
) -> (v: Viewport)
    requires
        ctx.sane(),
        are_tops(tops@, row_views(ctx.rows@)),
        ascending(tops@),
        drawer_open == (old(state).value_view is Some),
    ensures
        v.sane(),
        v.left == left_edge(ctx.window_width as int),
        v.left <= ctx.window_width <= v.left + PANEL_WIDTH,
        forall|
            recent: bool,
            w: spec_fn(Seq<char>, Face) -> nat,
            wrap: spec_fn(Seq<char>, i64) -> nat,
        | v.of(#[trigger] ctx.picture(old(state)@, recent, w, wrap)),
        final(state)@ == (PanelView {
            scroll: old(state)@.scroll.update(old(state).tab.position(), v.scroll),
            max_scroll: v.max_scroll,
            ..old(state)@
        }),
        final(state)@ == rows_held(old(state)@, row_views(ctx.rows@), ctx.window_height as int),
        final(state).value_view == old(state).value_view,
        final(state).last_events_refresh == old(state).last_events_refresh,
{
    let ghost rows = row_views(ctx.rows@);
    let left = panel_left(ctx.window_width);
    let bottom: i64 = if ctx.window_height > CHROME_HEIGHT {
        ctx.window_height
    } else {
        CHROME_HEIGHT
    };
    let body_top: i64 = CHROME_HEIGHT + content_top();
    let rows_bottom: i64 = if drawer_open {
        bottom - DRAWER_HEIGHT
    } else {
        bottom
    };
    let viewport: i64 = if rows_bottom > body_top {
        rows_bottom - body_top
    } else {
        0
    };
    let content = tops[tops.len() - 1];
    proof {
        lemma_tops_ascend(rows, rows.len(), rows.len());
        assert(rows.len() * HEADER_ROW_HEIGHT <= 0xffff_ffff * 1920) by (nonlinear_arith)
            requires
                rows.len() <= 0xffff_ffff,
                HEADER_ROW_HEIGHT == 1920,
        ;
    }
    let max_scroll: i64 = if content > viewport {
        content - viewport
    } else {
        0
    };
    let i = state.tab.index();
    let was = state.scroll[i];
    let scroll: i64 = if was < 0 {
        0
    } else if was > max_scroll {
        max_scroll
    } else {
        was
    };
    state.max_scroll = max_scroll;
    state.scroll[i] = scroll;
    let mut hovered: Option<usize> = None;
    if let Some((x, y)) = state.hover {
        if content_top() <= y && y < rows_bottom - CHROME_HEIGHT && x < PANEL_WIDTH
            - SCROLLBAR_GUTTER {
            hovered = row_at(tops, y - content_top() + scroll);
        }
    }
    let v = Viewport { left, rows_bottom, viewport, content, scroll, max_scroll, hovered };
    proof {
        assert forall|
            recent: bool,
            w: spec_fn(Seq<char>, Face) -> nat,
            wrap: spec_fn(Seq<char>, i64) -> nat,
        | v.of(#[trigger] ctx.picture(old(state)@, recent, w, wrap)) by {
            let q = ctx.picture(old(state)@, recent, w, wrap);
            assert forall|j: int| 0 <= j < q.rows.len() implies (#[trigger] q.over_row(j)
                <==> v.hovered == Some(j as usize)) by {
                lemma_hovered_row(q, tops@, v.hovered, j);
            }
        }
        assert(state@ =~= (PanelView {
            scroll: old(state)@.scroll.update(old(state).tab.position(), v.scroll),
            max_scroll: v.max_scroll,
            ..old(state)@
        }));
    }
    v
}

/// The row that covers the pointer is the one it is over.
proof fn lemma_hovered_row(q: PanelPicture, tops: Seq<i64>, hovered: Option<usize>, j: int)
    requires
        are_tops(tops, q.rows),
        0 <= j < q.rows.len() <= MAX_ROWS,
        ascending(tops),
        match q.state.hover {
            Some((x, y)) => if TAB_BAR_HEIGHT + PX <= y < q.rows_bottom() - CHROME_HEIGHT && x
                < PANEL_WIDTH - SCROLLBAR_GUTTER {
                crate::inspector::panel::row_covering(
                    tops,
                    y - (TAB_BAR_HEIGHT + PX) + q.scroll(),
                    match hovered {
                        Some(i) => Some(i as int),
                        None => None,
                    },
                )
            } else {
                hovered is None
            },
            None => hovered is None,
        },
    ensures
        q.over_row(j) <==> hovered == Some(j as usize),
{
    if let Some((x, y)) = q.state.hover {
        if TAB_BAR_HEIGHT + PX <= y < q.rows_bottom() - CHROME_HEIGHT && x < PANEL_WIDTH
            - SCROLLBAR_GUTTER {
            let at = y - (TAB_BAR_HEIGHT + PX) + q.scroll();
            match hovered {
                Some(i) => {
                    assert(on_row(q.rows, i as int, at)) by {
                        assert(tops[i as int] == top_of(q.rows, i as nat));
                        if i + 1 < q.rows.len() {
                            assert(tops[i + 1] == top_of(q.rows, (i + 1) as nat));
                        }
                    }
                    if on_row(q.rows, j, at) {
                        lemma_one_row(q.rows, i as int, j, at);
                    }
                },
                None => {
                    if on_row(q.rows, j, at) {
                        assert(tops[0] == top_of(q.rows, 0));
                        lemma_tops_ascend(q.rows, 0, j as nat);
                        if j + 1 < q.rows.len() {
                            lemma_tops_ascend(q.rows, (j + 1) as nat, q.rows.len());
                        }
                    }
                },
            }
        }
    }
}

/// No row from `i` on can be seen once row `i` is below the rows' bottom.
proof fn lemma_rest_hidden(q: PanelPicture, i: int, n: int)
    requires
        0 <= i <= n <= q.rows.len(),
        i < n ==> q.row_y(i) > q.rows_bottom(),
    ensures
        q.shown_rows(n) == q.shown_rows(i),
    decreases n - i,
{
    if i < n {
        lemma_tops_ascend(q.rows, i as nat, (n - 1) as nat);
        lemma_rest_hidden(q, i, n - 1);
    }
}

/// Paints the rows that can be seen.
fn paint_rows<F: Fn(&str, Face) -> u32>(
    scene: &mut Scene,
    text: &mut TextCtx<F>,
    state: &InspectorState,
    ctx: &PanelPaintContext<'_>,
    tops: &[i64],
    v: &Viewport,
)
    requires
        old(text).ready(),
        ctx.sane(),
        v.sane(),
        v.left <= ctx.window_width <= v.left + PANEL_WIDTH,
        are_tops(tops@, row_views(ctx.rows@)),
    ensures
        final(text).goes_on(old(text)),
        forall|q: PanelPicture|
            v.of(q) && q == ctx.picture(q.state, q.recent, q.w, q.wrap) && q.state.tab == state.tab
                && q.state.selected == state.selected && old(text).follows(q.w) ==> final(scene)@
                == old(scene)@ + #[trigger] q.body(),
{
    let ghost rows = row_views(ctx.rows@);
    let body_top: i64 = CHROME_HEIGHT + content_top();
    let guides = state.tab == InspectorTab::Elements;
    scene.push(
        Draw::PushClip {
            rect: Rect {
                x0: v.left,
                y0: body_top,
                x1: ctx.window_width,
                y1: v.rows_bottom,
            },
        },
    );
    let ghost base = scene@;
    proof {
        assert(base + Seq::<DrawView>::empty() =~= base);
        assert forall|j: int| 0 <= j < rows.len() implies 0 <= #[trigger] tops@[j] <= MAX_EXTENT
            / 2 by {
            assert(tops@[j] == top_of(rows, j as nat));
            lemma_tops_ascend(rows, j as nat, j as nat);
            assert(j * HEADER_ROW_HEIGHT <= 0xffff_ffff * 1920) by (nonlinear_arith)
                requires
                    0 <= j <= 0xffff_ffff,
                    HEADER_ROW_HEIGHT == 1920,
            ;
        }
    }
    let mut i: usize = 0;
    while i < ctx.rows.len() && body_top + tops[i] - v.scroll <= v.rows_bottom
        invariant
            i <= ctx.rows@.len(),
            rows == row_views(ctx.rows@),
            body_top == CHROME_HEIGHT + TAB_BAR_HEIGHT + PX,
            guides == (state.tab == InspectorTab::Elements),
            text.goes_on(old(text)),
            ctx.sane(),
            v.sane(),
            v.left <= ctx.window_width <= v.left + PANEL_WIDTH,
            are_tops(tops@, rows),
            forall|j: int| 0 <= j < rows.len() ==> 0 <= #[trigger] tops@[j] <= MAX_EXTENT / 2,
            forall|q: PanelPicture|
                v.of(q) && q == ctx.picture(q.state, q.recent, q.w, q.wrap) && q.state.tab
                    == state.tab && q.state.selected == state.selected && old(text).follows(q.w)
                    ==> scene@ == base + #[trigger] q.shown_rows(i as int),
        decreases ctx.rows.len() - i,
    {
        let row = &ctx.rows[i];
        let y: i64 = body_top + tops[i] - v.scroll;
        let ghost so_far = scene@;
        proof {
            assert(rows[i as int] == row@);
            assert(tops@[i as int] == top_of(rows, i as nat));
        }
        if y + row.height() >= body_top {
            let selected = match (row.node, state.selected) {
                (Some(a), Some(b)) => a == b,
                _ => false,
            };
            let hovered = match v.hovered {
                Some(h) => h == i,
                None => false,
            };
            let paint = RowPaint {
                row,
                y,
                left: v.left,
                content_x1: ctx.window_width - SCROLLBAR_GUTTER,
                selected,
                hovered,
                show_guides: guides,
            };
            proof {
                assert(paint.sane());
            }
            paint_row(scene, text, ctx.palette, ctx.tones, ctx.lines, &paint);
            proof {
                assert forall|q: PanelPicture|
                    v.of(q) && q == ctx.picture(q.state, q.recent, q.w, q.wrap) && q.state.tab
                        == state.tab && q.state.selected == state.selected && old(text).follows(
                        q.w,
                    ) implies scene@ == base + #[trigger] q.shown_rows(i + 1) by {
                    assert(q.over_row(i as int) <==> v.hovered == Some(i));
                    let p = paint.picture(*ctx.palette, *ctx.tones, *ctx.lines, q.w);
                    assert(p == q.row(i as int));
                    assert(so_far == base + q.shown_rows(i as int));
                    assert(base + q.shown_rows(i as int) + p.scene() =~= base + (q.shown_rows(
                        i as int,
                    ) + p.scene()));
                }
            }
        } else {
            proof {
                assert forall|q: PanelPicture|
                    v.of(q) && q == ctx.picture(q.state, q.recent, q.w, q.wrap) && q.state.tab
                        == state.tab && q.state.selected == state.selected && old(text).follows(
                        q.w,
                    ) implies scene@ == base + #[trigger] q.shown_rows(i + 1) by {
                    assert(!q.visible(i as int));
                    assert(so_far == base + q.shown_rows(i as int));
                }
            }
        }
        i += 1;
    }
    scene.push(Draw::PopClip);
    proof {
        assert forall|q: PanelPicture|
            v.of(q) && q == ctx.picture(q.state, q.recent, q.w, q.wrap) && q.state.tab == state.tab
                && q.state.selected == state.selected && old(text).follows(q.w) implies scene@
            == old(scene)@ + #[trigger] q.body() by {
            if i < rows.len() {
                assert(tops@[i as int] == top_of(rows, i as nat));
            }
            lemma_rest_hidden(q, i as int, rows.len() as int);
            assert(scene@ =~= old(scene)@ + q.body());
        }
    }
}

/// Paints everything but the drawer.
fn paint_frame<F: Fn(&str, Face) -> u32>(
    scene: &mut Scene,
    text: &mut TextCtx<F>,
    state: &InspectorState,
    ctx: &PanelPaintContext<'_>,
    tops: &[i64],
    v: &Viewport,
    bottom: i64,
)
    requires
        old(text).ready(),
        ctx.sane(),
        v.sane(),
        v.left <= ctx.window_width <= v.left + PANEL_WIDTH,
        are_tops(tops@, row_views(ctx.rows@)),
    ensures
        final(text).goes_on(old(text)),
        forall|q: PanelPicture|
            v.of(q) && q == ctx.picture(q.state, q.recent, q.w, q.wrap) && q.state.tab == state.tab
                && q.state.selected == state.selected && q.state.picker == state.picker
                && q.state.hover == state.hover && bottom == q.bottom() && old(text).follows(q.w)
                ==> final(scene)@ == old(scene)@ + #[trigger] q.frame(),
{
    let body_top: i64 = CHROME_HEIGHT + content_top();
    scene.fill(v.left, CHROME_HEIGHT, ctx.window_width, bottom, ctx.palette.bar_bg);
    let bar = TabBarPaint {
        palette: ctx.palette,
        lines: ctx.lines,
        left: v.left,
        right: ctx.window_width,
        top: CHROME_HEIGHT,
        active: state.tab,
        picker: state.picker,
        hover: state.hover,
    };
    paint_tab_bar(scene, text, &bar);
    paint_rows(scene, text, state, ctx, tops, v);
    paint_scrollbar(
        scene,
        ctx.palette,
        ctx.window_width,
        body_top,
        v.rows_bottom,
        v.viewport,
        v.content,
        v.scroll,
        v.max_scroll,
    );
    scene.fill(v.left, CHROME_HEIGHT, v.left + PX, bottom, ctx.palette.url_border_idle);
    proof {
        assert forall|q: PanelPicture|
            v.of(q) && q == ctx.picture(q.state, q.recent, q.w, q.wrap) && q.state.tab == state.tab
                && q.state.selected == state.selected && q.state.picker == state.picker
                && q.state.hover == state.hover && bottom == q.bottom() && old(text).follows(
                q.w,
            ) implies scene@ == old(scene)@ + #[trigger] q.frame() by {
            assert(bar.picture(q.w) == q.tab_bar());
            assert(scene@ =~= old(scene)@ + q.frame());
        }
    }
}

/// Paints the panel, where `recent` says whether the drawer's text was copied a
/// moment ago.
pub fn paint_panel_at<F: Fn(&str, Face) -> u32, H: Fn(&str, i64) -> u32>(
    scene: &mut Scene,
    text: &mut TextCtx<F>,
    state: &mut InspectorState,
    ctx: &PanelPaintContext<'_>,
    wrapped_height: H,
    recent: bool,
)
    requires
        old(text).ready(),
        measures_anything(wrapped_height),
        ctx.sane(),
    ensures
        final(text).goes_on(old(text)),
        final(state).keeps_times(*old(state)),
        panel_fits(wrapped_height, *ctx, old(state)@, final(state)@),
        forall|w: spec_fn(Seq<char>, Face) -> nat, wrap: spec_fn(Seq<char>, i64) -> nat|
            old(text).follows(w) && measures(wrapped_height, wrap) ==> {
                let q = #[trigger] ctx.picture(old(state)@, recent, w, wrap);
                &&& final(scene)@ == old(scene)@ + q.scene()
                &&& final(state)@ == q.fitted()
            },
{
    let tops = row_tops(ctx.rows);
    let drawer_open = state.value_view.is_some();
    let v = lay_out(state, ctx, tops.as_slice(), drawer_open);
    let bottom: i64 = if ctx.window_height > CHROME_HEIGHT {
        ctx.window_height
    } else {
        CHROME_HEIGHT
    };
    paint_frame(scene, text, state, ctx, tops.as_slice(), &v, bottom);
    let ghost framed = scene@;
    let drawer = DrawerPaint {
        palette: ctx.palette,
        tones: ctx.tones,
        lines: ctx.lines,
        left: v.left,
        right: ctx.window_width,
        panel_bottom: bottom,
        hover: state.hover,
        recent,
    };
    proof {
        assert forall|w: spec_fn(Seq<char>, Face) -> nat, wrap: spec_fn(Seq<char>, i64) -> nat|
            old(text).follows(w) implies framed == old(scene)@ + (#[trigger] ctx.picture(
            old(state)@,
            recent,
            w,
            wrap,
        )).frame() by {
            let q = ctx.picture(old(state)@, recent, w, wrap);
            assert(v.of(q));
            assert(q == ctx.picture(q.state, q.recent, q.w, q.wrap));
        }
    }
    if let Some(mut view) = state.value_view.take() {
        let ghost shown = view@;
        paint_value_drawer(scene, text, &mut view, &drawer, wrapped_height);
        state.value_view = Some(view);
        proof {
            let held = rows_held(old(state)@, row_views(ctx.rows@), ctx.window_height as int);
            assert(state@ =~= PanelView { drawer: state@.drawer, ..held });
            assert forall|w: spec_fn(Seq<char>, Face) -> nat, wrap: spec_fn(Seq<char>, i64) -> nat|
                old(text).follows(w) && measures(wrapped_height, wrap) implies ({
                let q = #[trigger] ctx.picture(old(state)@, recent, w, wrap);
                &&& scene@ == old(scene)@ + q.scene()
                &&& state@ == q.fitted()
            }) by {
                let q = ctx.picture(old(state)@, recent, w, wrap);
                assert(v.of(q));
                assert(drawer.picture(shown, w, wrap) == q.drawer(shown));
                assert(old(scene)@ + q.frame() + q.drawer(shown).scene() =~= old(scene)@ + (
                q.frame() + q.drawer(shown).scene()));
                assert(state@ =~= q.fitted());
            }
        }
    } else {
        proof {
            let held = rows_held(old(state)@, row_views(ctx.rows@), ctx.window_height as int);
            assert(state@ =~= PanelView { drawer: state@.drawer, ..held });
            assert forall|w: spec_fn(Seq<char>, Face) -> nat, wrap: spec_fn(Seq<char>, i64) -> nat|
                old(text).follows(w) && measures(wrapped_height, wrap) implies ({
                let q = #[trigger] ctx.picture(old(state)@, recent, w, wrap);
                &&& scene@ == old(scene)@ + q.scene()
                &&& state@ == q.fitted()
            }) by {
                let q = ctx.picture(old(state)@, recent, w, wrap);
                assert(v.of(q));
                assert(state@ =~= q.fitted());
            }
        }
    }
}

/// Paints the panel.
pub fn paint_panel<F: Fn(&str, Face) -> u32, H: Fn(&str, i64) -> u32>(
    scene: &mut Scene,
    text: &mut TextCtx<F>,
    state: &mut InspectorState,
    ctx: &PanelPaintContext<'_>,
    wrapped_height: H,
)
    requires
        old(text).ready(),
        measures_anything(wrapped_height),
        ctx.sane(),
    ensures
        final(text).goes_on(old(text)),
        final(state).keeps_times(*old(state)),
        panel_fits(wrapped_height, *ctx, old(state)@, final(state)@),
        exists|recent: bool|
            (recent ==> (old(state)@.drawer matches Some(d) && d.copied)) && #[trigger] painted(
                *old(text),
                wrapped_height,
                *ctx,
                old(state)@,
                old(scene)@,
                recent,
                final(scene)@,
                final(state)@,
            ),
{
    let recent = match &state.value_view {
        Some(view) => recently_copied(view),
        None => false,
    };
    paint_panel_at(scene, text, state, ctx, wrapped_height, recent);
    proof {
        assert(painted(
            *old(text),
            wrapped_height,
            *ctx,
            old(state)@,
            old(scene)@,
            recent,
            scene@,
            state@,
        ));
    }
}

/// Whether painting the panel turned one scene and state into another.
pub open spec fn painted<F: Fn(&str, Face) -> u32, H: Fn(&str, i64) -> u32>(
    text: TextCtx<F>,
    wrapped_height: H,
    ctx: PanelPaintContext<'_>,
    state: PanelView,
    scene: Seq<DrawView>,
    recent: bool,
    scene_after: Seq<DrawView>,
    state_after: PanelView,
) -> bool {
    forall|w: spec_fn(Seq<char>, Face) -> nat, wrap: spec_fn(Seq<char>, i64) -> nat|
        text.follows(w) && measures(wrapped_height, wrap) ==> {
            let q = #[trigger] ctx.picture(state, recent, w, wrap);
            &&& scene_after == scene + q.scene()
            &&& state_after == q.fitted()
        }
}

} // verus!
