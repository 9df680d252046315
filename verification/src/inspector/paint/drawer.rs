//! Painting the drawer that shows one value in full.

use vstd::prelude::*;

use crate::chrome::geometry::CHROME_HEIGHT;
use crate::clock::nanos_since;
use crate::fit::{measures, measures_anything};
use crate::inspector::model::types::{Face, Tone};
use crate::inspector::paint::bars::{paint_scrollbar, scrollbar};
use crate::inspector::paint::color::Tones;
use crate::inspector::paint::gauge::{run_width, tail_elided, TextCtx};
use crate::inspector::paint::rows::LineMetrics;
use crate::inspector::panel::{
    clamped, drawer_zone, DrawerView, PanelHit, ValueView, DRAWER_CLOSE_WIDTH, DRAWER_COPY_WIDTH,
    DRAWER_HEADER_HEIGHT, DRAWER_HEIGHT, DRAWER_PAD, PANEL_WIDTH, SCROLLBAR_GUTTER,
};
use crate::px::{half, Rect, MAX_EXTENT, PX};
use crate::scene::{
    area, drawn_if, filled, written, ChromePalette, Draw, DrawView, Mark, Scene, TextStyle,
};
use crate::text::{to_upper, uppercase};

verus! {

/// How long the copy button says that it copied, in nanoseconds.
pub const COPIED_FLASH: u64 = 1_400_000_000;

/// Width that the text of a drawer between `left` and `right` is wrapped to.
pub open spec fn text_room(left: int, right: int) -> int {
    let room = right - left - DRAWER_PAD * 2 - SCROLLBAR_GUTTER;
    if room > 0 {
        room
    } else {
        0
    }
}

/// Height of the part of the drawer's text that can be seen.
pub open spec fn text_viewport() -> int {
    DRAWER_HEIGHT - DRAWER_HEADER_HEIGHT - DRAWER_PAD * 2
}

/// The drawer with its scroll offset held within a text of height `content`.
pub open spec fn held_within(view: DrawerView, content: int) -> DrawerView {
    let most = if content > text_viewport() {
        content - text_viewport()
    } else {
        0
    };
    DrawerView {
        scroll: clamped(view.scroll as int, 0, most) as i64,
        max_scroll: most as i64,
        ..view
    }
}

/// Whether `after` is `before` with its scroll offset held within its text,
/// which is as high as `wrapped_height` says.
pub open spec fn drawer_fits<H: Fn(&str, i64) -> u32>(
    wrapped_height: H,
    width: int,
    before: DrawerView,
    after: DrawerView,
) -> bool {
    exists|t: &str, h: u32|
        t@ == before.text && #[trigger] call_ensures(wrapped_height, (t, width as i64), h) && after
            == held_within(before, h as int)
}

/// The drawer as it is painted.
pub struct DrawerPicture {
    pub left: int,
    pub right: int,
    /// The panel's bottom.
    pub bottom: int,
    /// The pointer, from the panel's left edge and the top of its tab bar.
    pub hover: Option<(i64, i64)>,
    pub view: DrawerView,
    /// Whether the text was copied a moment ago.
    pub recent: bool,
    pub palette: ChromePalette,
    pub tones: Tones,
    pub lines: LineMetrics,
    pub w: spec_fn(Seq<char>, Face) -> nat,
    /// Height of text that is wrapped to a width.
    pub wrap: spec_fn(Seq<char>, i64) -> nat,
}

impl DrawerPicture {
    pub open spec fn top(self) -> int {
        self.bottom - DRAWER_HEIGHT
    }

    pub open spec fn close_x(self) -> int {
        self.right - DRAWER_CLOSE_WIDTH
    }

    pub open spec fn copy_x(self) -> int {
        self.close_x() - DRAWER_COPY_WIDTH
    }

    /// Whether the pointer is in the drawer's header, behind `x0`.
    pub open spec fn over_header(self, x0: int) -> bool {
        self.hover matches Some((x, y)) && self.top() - CHROME_HEIGHT <= y < self.top()
            - CHROME_HEIGHT + DRAWER_HEADER_HEIGHT && x0 - self.left <= x
    }

    pub open spec fn over_close(self) -> bool {
        self.over_header(self.close_x())
    }

    pub open spec fn over_copy(self) -> bool {
        self.over_header(self.copy_x()) && !self.over_header(self.close_x())
    }

    /// The drawer's background, its edge, and its header's background.
    pub open spec fn backdrop(self) -> Seq<DrawView> {
        let head = self.top() + DRAWER_HEADER_HEIGHT;
        seq![
            filled(self.left, self.top(), self.right, self.bottom, self.palette.bar_bg),
            filled(self.left, self.top(), self.right, self.top() + PX, self.palette.url_border_idle),
            filled(self.left, self.top() + PX, self.right, head, self.palette.strip_bg),
        ] + drawn_if(
            self.over_close(),
            filled(
                self.close_x(),
                self.top() + PX,
                self.right,
                head,
                self.palette.tab_inactive_bg,
            ),
        ) + drawn_if(
            self.over_copy(),
            filled(
                self.copy_x(),
                self.top() + PX,
                self.close_x(),
                head,
                self.palette.tab_inactive_bg,
            ),
        )
    }

    /// The title, shortened to end before the buttons, in capitals.
    pub open spec fn title(self) -> Seq<DrawView> {
        let room = self.copy_x() - DRAWER_PAD - (self.left + DRAWER_PAD);
        let text = uppercase(
            tail_elided(
                self.view.title,
                Face::UiStrong,
                if room > 0 {
                    room
                } else {
                    0
                },
                self.w,
            ),
        );
        drawn_if(
            text.len() > 0,
            written(
                text,
                TextStyle::Panel(Face::UiStrong),
                self.left + DRAWER_PAD,
                self.top() + (DRAWER_HEADER_HEIGHT - self.lines.height(Face::UiStrong)) / 2 + PX,
                self.tones.of(Tone::Accent),
            ),
        )
    }

    pub open spec fn copy_label(self) -> Seq<char> {
        if self.recent {
            "Copied"@
        } else {
            "Copy"@
        }
    }

    /// The copy button and the close button.
    pub open spec fn buttons(self) -> Seq<DrawView> {
        seq![
            written(
                self.copy_label(),
                TextStyle::Panel(Face::Ui),
                self.copy_x() + (DRAWER_COPY_WIDTH - run_width(
                    self.copy_label(),
                    Face::Ui,
                    self.w,
                )) / 2,
                self.top() + (DRAWER_HEADER_HEIGHT - self.lines.height(Face::Ui)) / 2 + PX,
                self.tones.of(
                    if self.recent {
                        Tone::Good
                    } else {
                        Tone::Value
                    },
                ),
            ),
            DrawView::Mark {
                mark: Mark::Close,
                cx: (self.close_x() + DRAWER_CLOSE_WIDTH / 2) as i64,
                cy: (self.top() + DRAWER_HEADER_HEIGHT / 2 + PX / 2) as i64,
                color: self.tones.of(Tone::Muted),
            },
        ]
    }

    pub open spec fn body_top(self) -> int {
        self.top() + DRAWER_HEADER_HEIGHT
    }

    /// Width that the text is wrapped to.
    pub open spec fn body_width(self) -> int {
        text_room(self.left, self.right)
    }

    /// Height of the whole text.
    pub open spec fn content(self) -> int {
        (self.wrap)(self.view.text, self.body_width() as i64) as int
    }

    /// The drawer with its scroll offset held within the text.
    pub open spec fn fitted(self) -> DrawerView {
        held_within(self.view, self.content())
    }

    /// The text and its scroll bar.
    pub open spec fn body(self) -> Seq<DrawView> {
        seq![
            DrawView::PushClip {
                rect: area(self.left, self.body_top(), self.right, self.bottom),
            },
        ] + drawn_if(
            self.view.text.len() > 0,
            DrawView::Wrapped {
                text: self.view.text,
                style: TextStyle::Panel(Face::Mono),
                x: (self.left + DRAWER_PAD) as i64,
                y: (self.body_top() + DRAWER_PAD - self.fitted().scroll) as i64,
                max_width: self.body_width() as i64,
                color: self.tones.of(Tone::Value),
            },
        ) + seq![DrawView::PopClip] + scrollbar(
            self.palette,
            self.right,
            self.body_top() + DRAWER_PAD,
            self.bottom - DRAWER_PAD,
            text_viewport(),
            self.content(),
            self.fitted().scroll as int,
            self.fitted().max_scroll as int,
        )
    }

    /// The drawer.
    pub open spec fn scene(self) -> Seq<DrawView> {
        self.backdrop() + self.title() + self.buttons() + self.body()
    }
}

/// The drawer's buttons light up exactly where a click presses them.
pub proof fn law_the_drawer_lights_up_where_it_is_clicked(q: DrawerPicture, x: i64, y: i64)
    requires
        q.hover == Some((x, y)),
        q.right - q.left == PANEL_WIDTH,
        q.top() - CHROME_HEIGHT <= y,
    ensures
        q.over_close() <==> drawer_zone(x as int, y - (q.top() - CHROME_HEIGHT))
            == PanelHit::DrawerClose,
        q.over_copy() <==> drawer_zone(x as int, y - (q.top() - CHROME_HEIGHT))
            == PanelHit::DrawerCopy,
{
}

/// The drawer to be painted.
pub struct DrawerPaint<'a> {
    pub palette: &'a ChromePalette,
    pub tones: &'a Tones,
    pub lines: &'a LineMetrics,
    pub left: i64,
    pub right: i64,
    pub panel_bottom: i64,
    pub hover: Option<(i64, i64)>,
    /// Whether the text was copied a moment ago.
    pub recent: bool,
}

impl<'a> DrawerPaint<'a> {
    /// The drawer as it is painted.
    pub open spec fn picture(
        &self,
        view: DrawerView,
        w: spec_fn(Seq<char>, Face) -> nat,
        wrap: spec_fn(Seq<char>, i64) -> nat,
    ) -> DrawerPicture {
        DrawerPicture {
            left: self.left as int,
            right: self.right as int,
            bottom: self.panel_bottom as int,
            hover: self.hover,
            view,
            recent: self.recent,
            palette: *self.palette,
            tones: *self.tones,
            lines: *self.lines,
            w,
            wrap,
        }
    }

    /// Whether nothing about the drawer is absurdly large.
    pub open spec fn sane(&self) -> bool {
        &&& -MAX_EXTENT <= self.left <= MAX_EXTENT
        &&& -MAX_EXTENT <= self.right <= MAX_EXTENT
        &&& -MAX_EXTENT <= self.panel_bottom <= MAX_EXTENT
    }

    /// Whether the pointer is in the drawer's header, behind `x0`.
    fn over_header(&self, x0: i64) -> (r: bool)
        requires
            self.sane(),
            -2 * MAX_EXTENT <= x0 <= 2 * MAX_EXTENT,
        ensures
            forall|
                view: DrawerView,
                w: spec_fn(Seq<char>, Face) -> nat,
                wrap: spec_fn(Seq<char>, i64) -> nat,
            | r == (#[trigger] self.picture(view, w, wrap)).over_header(x0 as int),
    {
        let top: i64 = self.panel_bottom - DRAWER_HEIGHT - CHROME_HEIGHT;
        match self.hover {
            Some((x, y)) => top <= y && y < top + DRAWER_HEADER_HEIGHT && x0 - self.left <= x,
            None => false,
        }
    }

    /// Paints the drawer's background.
    fn paint_backdrop(&self, scene: &mut Scene)
        requires
            self.sane(),
        ensures
            forall|
                view: DrawerView,
                w: spec_fn(Seq<char>, Face) -> nat,
                wrap: spec_fn(Seq<char>, i64) -> nat,
            | final(scene)@ == old(scene)@ + (#[trigger] self.picture(view, w, wrap)).backdrop(),
    {
        let top: i64 = self.panel_bottom - DRAWER_HEIGHT;
        let head: i64 = top + DRAWER_HEADER_HEIGHT;
        let close_x: i64 = self.right - DRAWER_CLOSE_WIDTH;
        let copy_x: i64 = close_x - DRAWER_COPY_WIDTH;
        scene.fill(self.left, top, self.right, self.panel_bottom, self.palette.bar_bg);
        scene.fill(self.left, top, self.right, top + PX, self.palette.url_border_idle);
        scene.fill(self.left, top + PX, self.right, head, self.palette.strip_bg);
        let over_close = self.over_header(close_x);
        let over_copy = self.over_header(copy_x) && !over_close;
        if over_close {
            scene.fill(close_x, top + PX, self.right, head, self.palette.tab_inactive_bg);
        }
        if over_copy {
            scene.fill(copy_x, top + PX, close_x, head, self.palette.tab_inactive_bg);
        }
        proof {
            assert forall|
                view: DrawerView,
                w: spec_fn(Seq<char>, Face) -> nat,
                wrap: spec_fn(Seq<char>, i64) -> nat,
            |
                scene@ == old(scene)@ + (#[trigger] self.picture(view, w, wrap)).backdrop() by {
                let q = self.picture(view, w, wrap);
                assert(scene@ =~= old(scene)@ + q.backdrop());
            }
        }
    }

    /// Paints the title and the buttons.
    fn paint_header<F: Fn(&str, Face) -> u32>(
        &self,
        scene: &mut Scene,
        text: &mut TextCtx<F>,
        view: &ValueView,
    )
        requires
            old(text).ready(),
            self.sane(),
        ensures
            final(text).goes_on(old(text)),
            forall|w: spec_fn(Seq<char>, Face) -> nat, wrap: spec_fn(Seq<char>, i64) -> nat|
                old(text).follows(w) ==> final(scene)@ == old(scene)@ + (#[trigger] self.picture(
                    view@,
                    w,
                    wrap,
                )).title() + self.picture(view@, w, wrap).buttons(),
    {
        let top: i64 = self.panel_bottom - DRAWER_HEIGHT;
        let close_x: i64 = self.right - DRAWER_CLOSE_WIDTH;
        let copy_x: i64 = close_x - DRAWER_COPY_WIDTH;
        let room: i64 = copy_x - DRAWER_PAD - (self.left + DRAWER_PAD);
        let max: i128 = if room > 0 {
            room as i128
        } else {
            0
        };
        let short = text.elide_tail(view.title.as_str(), Face::UiStrong, max);
        let title = to_upper(short.as_str());
        if title.as_str().unicode_len() > 0 {
            scene.write(
                title,
                TextStyle::Panel(Face::UiStrong),
                self.left + DRAWER_PAD,
                top + half(DRAWER_HEADER_HEIGHT - self.lines.line_height(Face::UiStrong)) + PX,
                self.tones.get(Tone::Accent),
            );
        }
        let ghost titled = scene@;
        let (label, tone) = if self.recent {
            ("Copied", Tone::Good)
        } else {
            ("Copy", Tone::Value)
        };
        let wide = text.width(label, Face::Ui);
        let spare: i128 = DRAWER_COPY_WIDTH as i128 - wide as i128;
        let shift: i128 = if spare >= 0 {
            spare / 2
        } else {
            -((1 - spare) / 2)
        };
        let x: i128 = copy_x as i128 + shift;
        scene.write(
            label.to_owned(),
            TextStyle::Panel(Face::Ui),
            x as i64,
            top + half(DRAWER_HEADER_HEIGHT - self.lines.line_height(Face::Ui)) + PX,
            self.tones.get(tone),
        );
        scene.push(
            Draw::Mark {
                mark: Mark::Close,
                cx: close_x + DRAWER_CLOSE_WIDTH / 2,
                cy: top + DRAWER_HEADER_HEIGHT / 2 + PX / 2,
                color: self.tones.get(Tone::Muted),
            },
        );
        proof {
            assert forall|w: spec_fn(Seq<char>, Face) -> nat, wrap: spec_fn(Seq<char>, i64) -> nat|
                old(text).follows(w) implies scene@ == old(scene)@ + (#[trigger] self.picture(
                view@,
                w,
                wrap,
            )).title() + self.picture(view@, w, wrap).buttons() by {
                let q = self.picture(view@, w, wrap);
                assert(titled =~= old(scene)@ + q.title());
                assert(scene@ =~= titled + q.buttons());
            }
        }
    }

    /// Holds the scroll offset within the text, and paints the text.
    fn paint_body<H: Fn(&str, i64) -> u32>(
        &self,
        scene: &mut Scene,
        view: &mut ValueView,
        wrapped_height: H,
    )
        requires
            self.sane(),
            measures_anything(wrapped_height),
        ensures
            final(view).copied_at == old(view).copied_at,
            drawer_fits(
                wrapped_height,
                text_room(self.left as int, self.right as int),
                old(view)@,
                final(view)@,
            ),
            forall|w: spec_fn(Seq<char>, Face) -> nat, wrap: spec_fn(Seq<char>, i64) -> nat|
                measures(wrapped_height, wrap) ==> {
                    let q = #[trigger] self.picture(old(view)@, w, wrap);
                    &&& final(scene)@ == old(scene)@ + q.body()
                    &&& final(view)@ == q.fitted()
                },
    {
        let body_top: i64 = self.panel_bottom - DRAWER_HEIGHT + DRAWER_HEADER_HEIGHT;
        let wide: i64 = self.right - self.left - DRAWER_PAD * 2 - SCROLLBAR_GUTTER;
        let body_width: i64 = if wide > 0 {
            wide
        } else {
            0
        };
        let measured = wrapped_height(view.text.as_str(), body_width);
        let content = measured as i64;
        let viewport: i64 = DRAWER_HEIGHT - DRAWER_HEADER_HEIGHT - DRAWER_PAD * 2;
        let most: i64 = if content > viewport {
            content - viewport
        } else {
            0
        };
        view.max_scroll = most;
        if view.scroll < 0 {
            view.scroll = 0;
        } else if view.scroll > most {
            view.scroll = most;
        }
        proof {
            assert(view@ =~= held_within(old(view)@, content as int));
        }
        scene.push(
            Draw::PushClip {
                rect: Rect {
                    x0: self.left,
                    y0: body_top,
                    x1: self.right,
                    y1: self.panel_bottom,
                },
            },
        );
        if view.text.as_str().unicode_len() > 0 {
            scene.push(
                Draw::Wrapped {
                    text: view.text.clone(),
                    style: TextStyle::Panel(Face::Mono),
                    x: self.left + DRAWER_PAD,
                    y: body_top + DRAWER_PAD - view.scroll,
                    max_width: body_width,
                    color: self.tones.get(Tone::Value),
                },
            );
        }
        scene.push(Draw::PopClip);
        paint_scrollbar(
            scene,
            self.palette,
            self.right,
            body_top + DRAWER_PAD,
            self.panel_bottom - DRAWER_PAD,
            viewport,
            content,
            view.scroll,
            view.max_scroll,
        );
        proof {
            assert forall|w: spec_fn(Seq<char>, Face) -> nat, wrap: spec_fn(Seq<char>, i64) -> nat|
                measures(wrapped_height, wrap) implies ({
                let q = #[trigger] self.picture(old(view)@, w, wrap);
                &&& scene@ == old(scene)@ + q.body()
                &&& view@ == q.fitted()
            }) by {
                let q = self.picture(old(view)@, w, wrap);
                assert(view@ =~= q.fitted());
                assert(scene@ =~= old(scene)@ + q.body());
            }
        }
    }
}

/// Paints the value drawer at the panel's bottom: title, copy and close
/// button, and the whole text, wrapped and scrolled on its own.
pub fn paint_value_drawer<F: Fn(&str, Face) -> u32, H: Fn(&str, i64) -> u32>(
    scene: &mut Scene,
    text: &mut TextCtx<F>,
    view: &mut ValueView,
    drawer: &DrawerPaint<'_>,
    wrapped_height: H,
)
    requires
        old(text).ready(),
        drawer.sane(),
        measures_anything(wrapped_height),
    ensures
        final(text).goes_on(old(text)),
        final(view).copied_at == old(view).copied_at,
        drawer_fits(
            wrapped_height,
            text_room(drawer.left as int, drawer.right as int),
            old(view)@,
            final(view)@,
        ),
        forall|w: spec_fn(Seq<char>, Face) -> nat, wrap: spec_fn(Seq<char>, i64) -> nat|
            old(text).follows(w) && measures(wrapped_height, wrap) ==> {
                let q = #[trigger] drawer.picture(old(view)@, w, wrap);
                &&& final(scene)@ == old(scene)@ + q.scene()
                &&& final(view)@ == q.fitted()
            },
{
    drawer.paint_backdrop(scene);
    drawer.paint_header(scene, text, view);
    drawer.paint_body(scene, view, wrapped_height);
    proof {
        assert forall|w: spec_fn(Seq<char>, Face) -> nat, wrap: spec_fn(Seq<char>, i64) -> nat|
            old(text).follows(w) && measures(wrapped_height, wrap) implies ({
            let q = #[trigger] drawer.picture(old(view)@, w, wrap);
            &&& scene@ == old(scene)@ + q.scene()
            &&& view@ == q.fitted()
        }) by {
            let q = drawer.picture(old(view)@, w, wrap);
            assert(scene@ == old(scene)@ + q.backdrop() + q.title() + q.buttons() + q.body());
            assert(scene@ =~= old(scene)@ + q.scene());
        }
    }
}

/// Whether the button still says "Copied", so many nanoseconds after the text
/// was copied.
pub open spec fn flashes(elapsed: u64) -> bool {
    elapsed < COPIED_FLASH
}

/// Whether the button still says "Copied", so many nanoseconds after the text
/// was copied.
pub fn says_copied(elapsed: u64) -> (r: bool)
    ensures
        r == flashes(elapsed),
{
    elapsed < COPIED_FLASH
}

/// Whether the drawer's text was copied a moment ago.
pub fn recently_copied(view: &ValueView) -> (r: bool)
    ensures
        exists|elapsed: u64| r == (view@.copied && #[trigger] flashes(elapsed)),
{
    match &view.copied_at {
        Some(at) => {
            let elapsed = nanos_since(at);
            proof {
                assert(flashes(elapsed) == (elapsed < COPIED_FLASH));
            }
            says_copied(elapsed)
        },
        None => {
            proof {
                assert(flashes(0));
            }
            false
        },
    }
}

} // verus!
