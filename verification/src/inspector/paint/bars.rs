//! Painting the tab bar, the scroll bar, and the highlight of a page element.

use vstd::prelude::*;

use crate::inspector::model::types::Face;
use crate::inspector::paint::gauge::{run_width, TextCtx};
use crate::inspector::paint::rows::LineMetrics;
use crate::inspector::panel::{
    clamped, tab_at, tab_bar_zone, InspectorTab, PanelHit, PANEL_WIDTH, PICKER_BTN_WIDTH,
    TAB_BAR_HEIGHT, TAB_COUNT,
};
use crate::px::{half, Rect, MAX_EXTENT, PX};
use crate::scene::{
    area, drawn_if, faded, faded_color, filled, written, ChromePalette, Draw, DrawView, Mark, Scene,
    TextStyle,
};

verus! {

/// Opacity of the fill of a highlighted page element.
pub const HIGHLIGHT_FILL_ALPHA: u8 = 0x2d;

/// Height of the line below the active tab.
pub const ACTIVE_UNDERLINE_H: i64 = 2 * PX;

/// Width of the scroll bar.
pub const SCROLLBAR_W: i64 = 4 * PX;

/// Distance of the scroll bar from the panel's right edge.
pub const SCROLLBAR_INSET: i64 = 3 * PX;

/// The scroll bar's thumb is not shorter than this.
pub const MIN_THUMB_H: i64 = 26 * PX;

/// Width that the tabs share.
pub const STRIP_W: i64 = PANEL_WIDTH - PICKER_BTN_WIDTH;

/// Left end of the slot of tab `i`, rounded up.
pub open spec fn slot(i: int) -> int {
    (i * STRIP_W + TAB_COUNT - 1) / TAB_COUNT as int
}

/// The tab bar as it is painted.
pub struct TabBarPicture {
    pub left: int,
    pub right: int,
    pub top: int,
    pub active: InspectorTab,
    pub picker: bool,
    /// The pointer, from the panel's top left corner.
    pub hover: Option<(i64, i64)>,
    pub palette: ChromePalette,
    pub lines: LineMetrics,
    pub w: spec_fn(Seq<char>, Face) -> nat,
}

impl TabBarPicture {
    /// Whether the pointer is over the tab bar, between two edges.
    pub open spec fn over(self, x0: int, x1: int) -> bool {
        self.hover matches Some((x, y)) && y < TAB_BAR_HEIGHT && x0 <= x < x1
    }

    /// Slot `i` of the tab bar.
    pub open spec fn tab(self, i: int) -> Seq<DrawView> {
        let tab = tab_at(i);
        let x0 = self.left + slot(i);
        let x1 = self.left + slot(i + 1);
        let bottom = self.top + TAB_BAR_HEIGHT;
        let spare = x1 - x0 - run_width(tab.name(), Face::Ui, self.w);
        (if tab == self.active {
            seq![filled(x0, self.top, x1, bottom, self.palette.bar_bg)]
        } else {
            drawn_if(
                self.over(slot(i), slot(i + 1)),
                filled(x0, self.top, x1, bottom, self.palette.tab_inactive_bg),
            )
        }) + drawn_if(
            tab == self.active,
            filled(
                x0,
                bottom - ACTIVE_UNDERLINE_H,
                x1,
                bottom,
                self.palette.url_border_focused,
            ),
        ) + seq![
            written(
                tab.name(),
                TextStyle::Panel(Face::Ui),
                x0 + (if spare > 0 {
                    spare / 2
                } else {
                    0
                }),
                self.top + (TAB_BAR_HEIGHT - ACTIVE_UNDERLINE_H - self.lines.height(Face::Ui)) / 2,
                if tab == self.active {
                    self.palette.tab_text
                } else {
                    self.palette.tab_text_inactive
                },
            ),
        ]
    }

    /// The first `n` slots.
    pub open spec fn tabs(self, n: int) -> Seq<DrawView>
        decreases n,
    {
        if n <= 0 {
            Seq::empty()
        } else {
            self.tabs(n - 1) + self.tab(n - 1)
        }
    }

    /// The picker button.
    pub open spec fn picker_button(self) -> Seq<DrawView> {
        let x0 = self.left + STRIP_W;
        let x1 = x0 + PICKER_BTN_WIDTH;
        let bottom = self.top + TAB_BAR_HEIGHT;
        let hovered = self.hover matches Some((x, y)) && y < TAB_BAR_HEIGHT && x >= STRIP_W;
        drawn_if(
            self.picker || hovered,
            filled(
                x0,
                self.top,
                x1,
                bottom,
                if self.picker {
                    self.palette.bar_bg
                } else {
                    self.palette.tab_inactive_bg
                },
            ),
        ) + drawn_if(
            self.picker,
            filled(
                x0,
                bottom - ACTIVE_UNDERLINE_H,
                x1,
                bottom,
                self.palette.url_border_focused,
            ),
        ) + seq![
            DrawView::Mark {
                mark: Mark::Picker,
                cx: (x0 + PICKER_BTN_WIDTH / 2) as i64,
                cy: (self.top + (TAB_BAR_HEIGHT - ACTIVE_UNDERLINE_H) / 2) as i64,
                color: if self.picker {
                    self.palette.url_border_focused
                } else {
                    self.palette.tab_text_inactive
                },
            },
        ]
    }

    /// The tab bar.
    pub open spec fn scene(self) -> Seq<DrawView> {
        let bottom = self.top + TAB_BAR_HEIGHT;
        seq![filled(self.left, self.top, self.right, bottom, self.palette.strip_bg)] + self.tabs(
            TAB_COUNT as int,
        ) + self.picker_button() + seq![
            filled(self.left, bottom, self.right, bottom + PX, self.palette.url_border_idle),
        ]
    }
}

/// The tab bar to be painted.
pub struct TabBarPaint<'a> {
    pub palette: &'a ChromePalette,
    pub lines: &'a LineMetrics,
    pub left: i64,
    pub right: i64,
    pub top: i64,
    pub active: InspectorTab,
    pub picker: bool,
    pub hover: Option<(i64, i64)>,
}

impl<'a> TabBarPaint<'a> {
    /// The tab bar as it is painted.
    pub open spec fn picture(&self, w: spec_fn(Seq<char>, Face) -> nat) -> TabBarPicture {
        TabBarPicture {
            left: self.left as int,
            right: self.right as int,
            top: self.top as int,
            active: self.active,
            picker: self.picker,
            hover: self.hover,
            palette: *self.palette,
            lines: *self.lines,
            w,
        }
    }

    /// Whether nothing about the tab bar is absurdly large.
    pub open spec fn sane(&self) -> bool {
        -MAX_EXTENT <= self.left <= MAX_EXTENT && -MAX_EXTENT <= self.top <= MAX_EXTENT
    }

    /// Paints slot `i`.
    fn paint_tab<F: Fn(&str, Face) -> u32>(&self, scene: &mut Scene, text: &mut TextCtx<F>, i: usize)
        requires
            old(text).ready(),
            self.sane(),
            i < TAB_COUNT,
        ensures
            final(text).goes_on(old(text)),
            forall|w: spec_fn(Seq<char>, Face) -> nat| #[trigger]
                old(text).follows(w) ==> final(scene)@ == old(scene)@ + self.picture(w).tab(
                    i as int,
                ),
    {
        let tab = InspectorTab::at(i);
        proof {
            assert(STRIP_W == 24448);
        }
        let start: i64 = (i as i64 * STRIP_W + TAB_COUNT - 1) / TAB_COUNT;
        let end: i64 = ((i as i64 + 1) * STRIP_W + TAB_COUNT - 1) / TAB_COUNT;
        let x0: i64 = self.left + start;
        let x1: i64 = self.left + end;
        let bottom: i64 = self.top + TAB_BAR_HEIGHT;
        let active = tab == self.active;
        let hovered = match self.hover {
            Some((x, y)) => y < TAB_BAR_HEIGHT && start <= x && x < end,
            None => false,
        };
        if active {
            scene.fill(x0, self.top, x1, bottom, self.palette.bar_bg);
            scene.fill(
                x0,
                bottom - ACTIVE_UNDERLINE_H,
                x1,
                bottom,
                self.palette.url_border_focused,
            );
        } else if hovered {
            scene.fill(x0, self.top, x1, bottom, self.palette.tab_inactive_bg);
        }
        let label = tab.label();
        let width = text.width(label, Face::Ui) as i128;
        let spare: i128 = x1 as i128 - x0 as i128 - width;
        let shift: i64 = if spare > 0 {
            spare as i64 / 2
        } else {
            0
        };
        let color = if active {
            self.palette.tab_text
        } else {
            self.palette.tab_text_inactive
        };
        scene.write(
            label.to_owned(),
            TextStyle::Panel(Face::Ui),
            x0 + shift,
            self.top + half(
                TAB_BAR_HEIGHT - ACTIVE_UNDERLINE_H - self.lines.line_height(Face::Ui),
            ),
            color,
        );
        proof {
            assert forall|w: spec_fn(Seq<char>, Face) -> nat| #[trigger]
                old(text).follows(w) implies scene@ == old(scene)@ + self.picture(w).tab(
                i as int,
            ) by {
                assert(scene@ =~= old(scene)@ + self.picture(w).tab(i as int));
            }
        }
    }

    /// Paints the picker button.
    fn paint_picker(&self, scene: &mut Scene)
        requires
            self.sane(),
        ensures
            forall|w: spec_fn(Seq<char>, Face) -> nat|
                final(scene)@ == old(scene)@ + (#[trigger] self.picture(w)).picker_button(),
    {
        let x0: i64 = self.left + STRIP_W;
        let x1: i64 = x0 + PICKER_BTN_WIDTH;
        let bottom: i64 = self.top + TAB_BAR_HEIGHT;
        let hovered = match self.hover {
            Some((x, y)) => y < TAB_BAR_HEIGHT && x >= STRIP_W,
            None => false,
        };
        if self.picker || hovered {
            let color = if self.picker {
                self.palette.bar_bg
            } else {
                self.palette.tab_inactive_bg
            };
            scene.fill(x0, self.top, x1, bottom, color);
        }
        if self.picker {
            scene.fill(
                x0,
                bottom - ACTIVE_UNDERLINE_H,
                x1,
                bottom,
                self.palette.url_border_focused,
            );
        }
        scene.push(
            Draw::Mark {
                mark: Mark::Picker,
                cx: x0 + PICKER_BTN_WIDTH / 2,
                cy: self.top + (TAB_BAR_HEIGHT - ACTIVE_UNDERLINE_H) / 2,
                color: if self.picker {
                    self.palette.url_border_focused
                } else {
                    self.palette.tab_text_inactive
                },
            },
        );
        proof {
            assert forall|w: spec_fn(Seq<char>, Face) -> nat|
                scene@ == old(scene)@ + (#[trigger] self.picture(w)).picker_button() by {
                assert(scene@ =~= old(scene)@ + self.picture(w).picker_button());
            }
        }
    }
}

/// Paints the tab bar.
pub fn paint_tab_bar<F: Fn(&str, Face) -> u32>(
    scene: &mut Scene,
    text: &mut TextCtx<F>,
    bar: &TabBarPaint<'_>,
)
    requires
        old(text).ready(),
        bar.sane(),
    ensures
        final(text).goes_on(old(text)),
        forall|w: spec_fn(Seq<char>, Face) -> nat| #[trigger]
            old(text).follows(w) ==> final(scene)@ == old(scene)@ + bar.picture(w).scene(),
{
    let bottom: i64 = bar.top + TAB_BAR_HEIGHT;
    scene.fill(bar.left, bar.top, bar.right, bottom, bar.palette.strip_bg);
    let ghost base = scene@;
    proof {
        assert(base + Seq::<DrawView>::empty() =~= base);
    }
    let mut i: usize = 0;
    while i < TAB_COUNT as usize
        invariant
            i <= TAB_COUNT,
            bar.sane(),
            text.goes_on(old(text)),
            forall|w: spec_fn(Seq<char>, Face) -> nat| #[trigger]
                old(text).follows(w) ==> scene@ == base + bar.picture(w).tabs(i as int),
        decreases TAB_COUNT - i,
    {
        bar.paint_tab(scene, text, i);
        proof {
            assert forall|w: spec_fn(Seq<char>, Face) -> nat| #[trigger]
                old(text).follows(w) implies scene@ == base + bar.picture(w).tabs(i + 1) by {
                let q = bar.picture(w);
                assert(base + q.tabs(i as int) + q.tab(i as int) =~= base + (q.tabs(i as int)
                    + q.tab(i as int)));
            }
        }
        i += 1;
    }
    bar.paint_picker(scene);
    scene.fill(bar.left, bottom, bar.right, bottom + PX, bar.palette.url_border_idle);
    proof {
        assert forall|w: spec_fn(Seq<char>, Face) -> nat| #[trigger]
            old(text).follows(w) implies scene@ == old(scene)@ + bar.picture(w).scene() by {
            let q = bar.picture(w);
            assert(scene@ =~= old(scene)@ + q.scene());
        }
    }
}

/// A tab lights up exactly where a click activates it, and the picker button
/// where a click toggles it.
pub proof fn law_the_tab_bar_lights_up_where_it_is_clicked(q: TabBarPicture, x: i64, y: i64, i: int)
    requires
        q.hover == Some((x, y)),
        y < TAB_BAR_HEIGHT,
        0 <= x,
        0 <= i < TAB_COUNT,
    ensures
        q.over(slot(i), slot(i + 1)) <==> tab_bar_zone(x as int) == PanelHit::Tab(tab_at(i)),
        x >= STRIP_W <==> tab_bar_zone(x as int) == PanelHit::Picker,
{
    assert(STRIP_W == 24448);
}

/// Height of the scroll bar's thumb.
pub open spec fn thumb_height(viewport: int, content: int) -> int {
    let share = viewport * viewport / content;
    let least = if share > MIN_THUMB_H {
        share
    } else {
        MIN_THUMB_H as int
    };
    if least < viewport {
        least
    } else {
        viewport
    }
}

/// How far the thumb has moved down its track.
pub open spec fn thumb_offset(viewport: int, content: int, scroll: int, max_scroll: int) -> int {
    clamped(scroll, 0, max_scroll) * (viewport - thumb_height(viewport, content)) / max_scroll
}

/// The scroll bar: a track and a thumb, or nothing where all fits.
pub open spec fn scrollbar(
    palette: ChromePalette,
    right: int,
    body_top: int,
    bottom: int,
    viewport: int,
    content: int,
    scroll: int,
    max_scroll: int,
) -> Seq<DrawView> {
    let x1 = right - SCROLLBAR_INSET;
    let x0 = x1 - SCROLLBAR_W;
    let y = body_top + thumb_offset(viewport, content, scroll, max_scroll);
    if max_scroll <= 0 || viewport <= 0 || content <= 0 {
        Seq::empty()
    } else {
        seq![
            DrawView::FillRound {
                rect: area(x0, body_top, x1, bottom),
                radius: (SCROLLBAR_W / 2) as i64,
                color: palette.tab_inactive_bg,
            },
            DrawView::FillRound {
                rect: area(x0, y, x1, y + thumb_height(viewport, content)),
                radius: (SCROLLBAR_W / 2) as i64,
                color: palette.url_border_idle,
            },
        ]
    }
}

/// The thumb does not leave its track, starts at its top, and ends at its
/// bottom.
pub proof fn law_the_thumb_stays_in_its_track(
    viewport: int,
    content: int,
    scroll: int,
    max_scroll: int,
)
    requires
        viewport > 0,
        content > 0,
        max_scroll > 0,
    ensures
        0 <= thumb_height(viewport, content) <= viewport,
        0 <= thumb_offset(viewport, content, scroll, max_scroll) <= viewport - thumb_height(
            viewport,
            content,
        ),
        scroll <= 0 ==> thumb_offset(viewport, content, scroll, max_scroll) == 0,
        scroll >= max_scroll ==> thumb_offset(viewport, content, scroll, max_scroll) == viewport
            - thumb_height(viewport, content),
{
    let share = viewport * viewport / content;
    assert(share >= 0) by (nonlinear_arith)
        requires
            share == viewport * viewport / content,
            viewport > 0,
            content > 0,
    ;
    let at = clamped(scroll, 0, max_scroll);
    let way = viewport - thumb_height(viewport, content);
    assert(0 <= at * way / max_scroll <= way) by (nonlinear_arith)
        requires
            0 <= at <= max_scroll,
            way >= 0,
            max_scroll > 0,
    ;
    assert(at == 0 ==> at * way / max_scroll == 0) by (nonlinear_arith)
        requires
            max_scroll > 0,
    ;
    assert(at == max_scroll ==> at * way / max_scroll == way) by (nonlinear_arith)
        requires
            max_scroll > 0,
    ;
}

/// Paints a scroll bar at the panel's right edge.
pub fn paint_scrollbar(
    scene: &mut Scene,
    palette: &ChromePalette,
    right: i64,
    body_top: i64,
    bottom: i64,
    viewport: i64,
    content: i64,
    scroll: i64,
    max_scroll: i64,
)
    requires
        -2 * MAX_EXTENT <= right <= 2 * MAX_EXTENT,
        -2 * MAX_EXTENT <= body_top <= 2 * MAX_EXTENT,
        viewport <= 2 * MAX_EXTENT,
    ensures
        final(scene)@ == old(scene)@ + scrollbar(
            *palette,
            right as int,
            body_top as int,
            bottom as int,
            viewport as int,
            content as int,
            scroll as int,
            max_scroll as int,
        ),
{
    if max_scroll > 0 && viewport > 0 && content > 0 {
        let x1: i64 = right - SCROLLBAR_INSET;
        let x0: i64 = x1 - SCROLLBAR_W;
        let radius: i64 = SCROLLBAR_W / 2;
        scene.push(
            Draw::FillRound {
                rect: Rect { x0, y0: body_top, x1, y1: bottom },
                radius,
                color: palette.tab_inactive_bg,
            },
        );
        proof {
            law_the_thumb_stays_in_its_track(
                viewport as int,
                content as int,
                scroll as int,
                max_scroll as int,
            );
            assert(0 <= viewport * viewport <= 0x2_0000_0000_0000 * 0x2_0000_0000_0000)
                by (nonlinear_arith)
                requires
                    0 <= viewport <= 0x2_0000_0000_0000,
            ;
        }
        let share: i128 = viewport as i128 * viewport as i128 / content as i128;
        let least: i128 = if share > MIN_THUMB_H as i128 {
            share
        } else {
            MIN_THUMB_H as i128
        };
        let thumb: i64 = if least < viewport as i128 {
            least as i64
        } else {
            viewport
        };
        let at: i64 = if scroll < 0 {
            0
        } else if scroll > max_scroll {
            max_scroll
        } else {
            scroll
        };
        let way: i64 = viewport - thumb;
        proof {
            assert(0 <= at * way <= 0x7fff_ffff_ffff_ffff * 0x2_0000_0000_0000)
                by (nonlinear_arith)
                requires
                    0 <= at <= 0x7fff_ffff_ffff_ffff,
                    0 <= way <= 0x2_0000_0000_0000,
            ;
        }
        let offset: i128 = at as i128 * way as i128 / max_scroll as i128;
        let y: i64 = body_top + offset as i64;
        scene.push(
            Draw::FillRound {
                rect: Rect { x0, y0: y, x1, y1: y + thumb },
                radius,
                color: palette.url_border_idle,
            },
        );
    }
    proof {
        assert(scene@ =~= old(scene)@ + scrollbar(
            *palette,
            right as int,
            body_top as int,
            bottom as int,
            viewport as int,
            content as int,
            scroll as int,
            max_scroll as int,
        ));
    }
}

/// The highlight over a page element.
pub open spec fn highlight(rect: Rect, palette: ChromePalette) -> Seq<DrawView> {
    seq![
        DrawView::Fill {
            rect,
            color: faded_color(palette.url_border_focused, HIGHLIGHT_FILL_ALPHA),
        },
        DrawView::Outline { rect, width: 96, color: palette.url_border_focused },
    ]
}

/// Paints the highlight over a page element.
pub fn paint_node_highlight(scene: &mut Scene, rect: Rect, palette: &ChromePalette)
    ensures
        final(scene)@ == old(scene)@ + highlight(rect, *palette),
{
    let accent = palette.url_border_focused;
    scene.push(Draw::Fill { rect, color: faded(accent, HIGHLIGHT_FILL_ALPHA) });
    scene.push(Draw::Outline { rect, width: 96, color: accent });
    proof {
        assert(scene@ =~= old(scene)@ + highlight(rect, *palette));
    }
}

} // verus!
