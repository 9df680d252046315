//! Painting the rows.

use vstd::prelude::*;

use crate::inspector::model::types::{
    kind_height, seg_views, Face, Row, RowKind, RowView, Seg, SegView,
};
use crate::inspector::paint::color::Tones;
use crate::inspector::paint::gauge::{run_width, TextCtx};
use crate::inspector::paint::segments::{
    chip_width, place_segs, placed_segs, placed_views, Placed, PlacedView, MAX_SEGS, SWATCH_GAP,
    SWATCH_SIZE,
};
use crate::inspector::panel::{row_content_left, HPAD, INDENT_STEP, PANEL_WIDTH, TWISTY_WIDTH};
use crate::px::{half, Rect, MAX_EXTENT, PX};
use crate::scene::{
    area, drawn_if, faded, faded_color, filled, written, ChromePalette, Draw, DrawView, Mark, Rgba,
    Scene, TextStyle,
};
use crate::text::{to_upper, uppercase};

verus! {

/// Opacity of the guides that trace the tree's indentation.
pub const GUIDE_ALPHA: u8 = 0x44;

/// Opacity of a section header's line.
pub const RULE_ALPHA: u8 = 0x66;

/// Width of the bar beside the selected row.
pub const SELECTION_BAR_W: i64 = 2 * PX;

/// Heights of a line in each face, and of the part above its baseline.
#[derive(Debug, Clone, Copy, PartialEq, Eq, Structural)]
pub struct LineMetrics {
    pub ui_height: u32,
    pub ui_ascent: u32,
    pub strong_height: u32,
    pub strong_ascent: u32,
    pub mono_height: u32,
    pub mono_ascent: u32,
}

impl LineMetrics {
    pub open spec fn height(self, face: Face) -> int {
        match face {
            Face::Ui => self.ui_height as int,
            Face::UiStrong => self.strong_height as int,
            Face::Mono => self.mono_height as int,
        }
    }

    pub open spec fn ascent(self, face: Face) -> int {
        match face {
            Face::Ui => self.ui_ascent as int,
            Face::UiStrong => self.strong_ascent as int,
            Face::Mono => self.mono_ascent as int,
        }
    }

    /// Height of a line.
    pub fn line_height(&self, face: Face) -> (h: i64)
        ensures
            h == self.height(face),
            0 <= h <= u32::MAX,
    {
        match face {
            Face::Ui => self.ui_height as i64,
            Face::UiStrong => self.strong_height as i64,
            Face::Mono => self.mono_height as i64,
        }
    }

    /// Height of a line above its baseline.
    pub fn line_ascent(&self, face: Face) -> (h: i64)
        ensures
            h == self.ascent(face),
            0 <= h <= u32::MAX,
    {
        match face {
            Face::Ui => self.ui_ascent as i64,
            Face::UiStrong => self.strong_ascent as i64,
            Face::Mono => self.mono_ascent as i64,
        }
    }
}

/// Height of the tallest line of a row.
pub open spec fn tallest(segs: Seq<SegView>, lines: LineMetrics) -> int
    decreases segs.len(),
{
    if segs.len() == 0 {
        0
    } else {
        let rest = tallest(segs.drop_last(), lines);
        if lines.height(segs.last().face) > rest {
            lines.height(segs.last().face)
        } else {
            rest
        }
    }
}

/// Greatest height above the baseline in a row.
pub open spec fn highest(segs: Seq<SegView>, lines: LineMetrics) -> int
    decreases segs.len(),
{
    if segs.len() == 0 {
        0
    } else {
        let rest = highest(segs.drop_last(), lines);
        if lines.ascent(segs.last().face) > rest {
            lines.ascent(segs.last().face)
        } else {
            rest
        }
    }
}

/// One row as it is painted.
pub struct RowPicture {
    pub row: RowView,
    pub y: int,
    pub left: int,
    /// Right end of the content.
    pub right: int,
    pub selected: bool,
    pub hovered: bool,
    /// Whether the indentation is traced.
    pub guides: bool,
    pub palette: ChromePalette,
    pub tones: Tones,
    pub lines: LineMetrics,
    pub w: spec_fn(Seq<char>, Face) -> nat,
}

impl RowPicture {
    pub open spec fn height(self) -> int {
        kind_height(self.row.kind) as int
    }

    /// Background and selection bar.
    pub open spec fn backdrop(self) -> Seq<DrawView> {
        drawn_if(
            self.row.kind != RowKind::Header && (self.selected || self.hovered),
            filled(
                self.left,
                self.y,
                self.right,
                self.y + self.height(),
                if self.selected {
                    self.palette.tab_active_bg
                } else {
                    self.palette.tab_inactive_bg
                },
            ),
        ) + drawn_if(
            self.selected,
            filled(
                self.left,
                self.y,
                self.left + SELECTION_BAR_W,
                self.y + self.height(),
                self.palette.url_border_focused,
            ),
        )
    }

    /// The guides of the first `n` levels.
    pub open spec fn guide_lines(self, n: int) -> Seq<DrawView>
        decreases n,
    {
        let x = self.left + HPAD + (n - 1) * INDENT_STEP + TWISTY_WIDTH / 2;
        if n <= 0 {
            Seq::empty()
        } else {
            self.guide_lines(n - 1).push(
                filled(
                    x,
                    self.y,
                    x + PX,
                    self.y + self.height(),
                    faded_color(self.palette.url_border_idle, GUIDE_ALPHA),
                ),
            )
        }
    }

    /// Left end of the content: behind the indentation, and behind the place
    /// of a triangle in a tree row.
    pub open spec fn start(self) -> int {
        self.left + HPAD + self.row.indent * INDENT_STEP + (if self.row.kind == RowKind::Item
            && self.row.node is Some {
            TWISTY_WIDTH as int
        } else {
            0
        })
    }

    /// The triangle of a row with children.
    pub open spec fn twisty(self) -> Seq<DrawView> {
        drawn_if(
            self.row.expandable,
            DrawView::Mark {
                mark: if self.row.expanded {
                    Mark::Expanded
                } else {
                    Mark::Collapsed
                },
                cx: (self.left + HPAD + self.row.indent * INDENT_STEP + TWISTY_WIDTH / 2) as i64,
                cy: (self.y + self.height() / 2) as i64,
                color: self.palette.tab_text_inactive,
            },
        )
    }

    pub open spec fn line(self) -> int {
        tallest(self.row.segs, self.lines)
    }

    /// Top of the row's line: headers sit low, others in the middle.
    pub open spec fn line_top(self) -> int {
        if self.row.kind == RowKind::Header {
            self.y + self.height() - self.line() - 5 * PX
        } else {
            self.y + (self.height() - self.line()) / 2
        }
    }

    pub open spec fn placed(self) -> Seq<PlacedView> {
        placed_segs(self.row.segs, self.start(), self.right - HPAD, self.w)
    }

    /// What is written of a placed segment: a header's label in capitals.
    pub open spec fn body(self, p: PlacedView) -> Seq<char> {
        if self.row.kind == RowKind::Header && p.face == Face::UiStrong {
            uppercase(p.text)
        } else {
            p.text
        }
    }

    /// Where the text of a placed segment starts: behind its colour chip.
    pub open spec fn text_x(self, p: PlacedView) -> int {
        p.x + chip_width(p.swatch)
    }

    /// Top of a placed segment: all stand on one baseline.
    pub open spec fn text_y(self, p: PlacedView) -> int {
        self.line_top() + highest(self.row.segs, self.lines) - self.lines.ascent(p.face)
    }

    /// A placed segment: its colour chip, and its text.
    pub open spec fn segment(self, p: PlacedView) -> Seq<DrawView> {
        let middle = self.text_y(p) + self.line() / 2;
        let rect = area(
            p.x,
            middle - SWATCH_SIZE / 2,
            p.x + SWATCH_SIZE,
            middle + SWATCH_SIZE / 2,
        );
        (match p.swatch {
            Some((r, g, b, a)) => seq![
                DrawView::FillRound { rect, radius: (2 * PX) as i64, color: Rgba { r, g, b, a } },
                DrawView::OutlineRound {
                    rect,
                    radius: (2 * PX) as i64,
                    width: PX,
                    color: faded_color(self.palette.url_border_idle, RULE_ALPHA),
                },
            ],
            None => Seq::empty(),
        }) + drawn_if(
            self.body(p).len() > 0,
            written(
                self.body(p),
                TextStyle::Panel(p.face),
                self.text_x(p),
                self.text_y(p),
                self.tones.of(p.tone),
            ),
        )
    }

    /// The first `n` placed segments.
    pub open spec fn segments(self, n: int) -> Seq<DrawView>
        decreases n,
    {
        if n <= 0 {
            Seq::empty()
        } else {
            self.segments(n - 1) + self.segment(self.placed()[n - 1])
        }
    }

    /// Where the label of a header ends, among the first `n` placed segments;
    /// a count behind it is not part of it.
    pub open spec fn label_end(self, n: int) -> int
        decreases n,
    {
        if n <= 0 {
            self.start()
        } else {
            let p = self.placed()[n - 1];
            let end = self.text_x(p) + run_width(self.body(p), p.face, self.w);
            if p.face == Face::UiStrong && end > self.label_end(n - 1) {
                end
            } else {
                self.label_end(n - 1)
            }
        }
    }

    /// The leftmost of the first `n` placed segments that starts behind `x`,
    /// or else the end of the content.
    pub open spec fn next_start(self, x: int, n: int) -> int
        decreases n,
    {
        if n <= 0 {
            self.right - HPAD
        } else {
            let at = self.placed()[n - 1].x;
            if at > x && at < self.next_start(x, n - 1) {
                at
            } else {
                self.next_start(x, n - 1)
            }
        }
    }

    /// A header's line: from its label to the right edge, or to the count that
    /// stands there.
    pub open spec fn rule(self) -> Seq<DrawView> {
        let n = self.placed().len() as int;
        let x0 = self.label_end(n) + 8 * PX;
        let x1 = self.next_start(x0, n) - 8 * PX;
        let y = self.y + self.height() - self.line() / 2 - 5 * PX;
        drawn_if(
            self.row.kind == RowKind::Header && x1 > x0,
            filled(x0, y, x1, y + PX, faded_color(self.palette.url_border_idle, RULE_ALPHA)),
        )
    }

    /// The row.
    pub open spec fn scene(self) -> Seq<DrawView> {
        self.backdrop() + self.guide_lines(
            if self.guides {
                self.row.indent as int
            } else {
                0
            },
        ) + self.twisty() + self.segments(self.placed().len() as int) + self.rule()
    }
}

/// One row to be painted.
pub struct RowPaint<'a> {
    pub row: &'a Row,
    pub y: i64,
    pub left: i64,
    pub content_x1: i64,
    pub selected: bool,
    pub hovered: bool,
    pub show_guides: bool,
}

impl<'a> RowPaint<'a> {
    /// The row as it is painted.
    pub open spec fn picture(
        &self,
        palette: ChromePalette,
        tones: Tones,
        lines: LineMetrics,
        w: spec_fn(Seq<char>, Face) -> nat,
    ) -> RowPicture {
        RowPicture {
            row: self.row@,
            y: self.y as int,
            left: self.left as int,
            right: self.content_x1 as int,
            selected: self.selected,
            hovered: self.hovered,
            guides: self.show_guides,
            palette,
            tones,
            lines,
            w,
        }
    }

    /// Whether nothing about the row is absurdly large.
    pub open spec fn sane(&self) -> bool {
        &&& -MAX_EXTENT <= self.y <= MAX_EXTENT
        &&& -MAX_EXTENT <= self.left <= MAX_EXTENT
        &&& self.left <= self.content_x1 + PANEL_WIDTH
        &&& self.content_x1 <= self.left + PANEL_WIDTH
        &&& self.row.segs@.len() <= MAX_SEGS
    }
}

/// Paints a row's background, guides and triangle.
fn paint_backdrop(scene: &mut Scene, palette: &ChromePalette, p: &RowPaint<'_>)
    requires
        p.sane(),
    ensures
        forall|tones: Tones, lines: LineMetrics, w: spec_fn(Seq<char>, Face) -> nat|
            final(scene)@ == old(scene)@ + (#[trigger] p.picture(
                *palette,
                tones,
                lines,
                w,
            )).backdrop() + p.picture(*palette, tones, lines, w).guide_lines(
                if p.show_guides {
                    p.row.indent as int
                } else {
                    0
                },
            ) + p.picture(*palette, tones, lines, w).twisty(),
{
    let h = p.row.height();
    let bottom: i64 = p.y + h;
    if p.row.kind != RowKind::Header && (p.selected || p.hovered) {
        let color = if p.selected {
            palette.tab_active_bg
        } else {
            palette.tab_inactive_bg
        };
        scene.fill(p.left, p.y, p.content_x1, bottom, color);
    }
    if p.selected {
        scene.fill(p.left, p.y, p.left + SELECTION_BAR_W, bottom, palette.url_border_focused);
    }
    let ghost plain = scene@;
    proof {
        assert forall|tones: Tones, lines: LineMetrics, w: spec_fn(Seq<char>, Face) -> nat|
            plain == old(scene)@ + (#[trigger] p.picture(
                *palette,
                tones,
                lines,
                w,
            )).backdrop() by {
            assert(plain =~= old(scene)@ + p.picture(*palette, tones, lines, w).backdrop());
        }
        assert(plain + Seq::<DrawView>::empty() =~= plain);
    }
    if p.show_guides {
        let guide = faded(palette.url_border_idle, GUIDE_ALPHA);
        let mut d: u8 = 0;
        while d < p.row.indent
            invariant
                p.sane(),
                d <= p.row.indent,
                bottom == p.y + kind_height(p.row.kind),
                guide == faded_color(palette.url_border_idle, GUIDE_ALPHA),
                forall|tones: Tones, lines: LineMetrics, w: spec_fn(Seq<char>, Face) -> nat|
                    scene@ == plain + (#[trigger] p.picture(
                        *palette,
                        tones,
                        lines,
                        w,
                    )).guide_lines(d as int),
            decreases p.row.indent - d,
        {
            let x: i64 = p.left + row_content_left(d) + TWISTY_WIDTH / 2;
            scene.fill(x, p.y, x + PX, bottom, guide);
            proof {
                assert forall|tones: Tones, lines: LineMetrics, w: spec_fn(Seq<char>, Face) -> nat|
                    scene@ == plain + (#[trigger] p.picture(
                        *palette,
                        tones,
                        lines,
                        w,
                    )).guide_lines(d + 1) by {
                    let q = p.picture(*palette, tones, lines, w);
                    assert(scene@ =~= plain + q.guide_lines(d + 1));
                }
            }
            d += 1;
        }
    }
    let ghost guided = scene@;
    if p.row.expandable {
        let mark = if p.row.expanded {
            Mark::Expanded
        } else {
            Mark::Collapsed
        };
        scene.push(
            Draw::Mark {
                mark,
                cx: p.left + row_content_left(p.row.indent) + TWISTY_WIDTH / 2,
                cy: p.y + h / 2,
                color: palette.tab_text_inactive,
            },
        );
    }
    proof {
        assert forall|tones: Tones, lines: LineMetrics, w: spec_fn(Seq<char>, Face) -> nat|
            scene@ == guided + (#[trigger] p.picture(*palette, tones, lines, w)).twisty() by {
            assert(scene@ =~= guided + p.picture(*palette, tones, lines, w).twisty());
        }
    }
}

/// The tallest line of a row, and its greatest height above the baseline.
fn line_of(segs: &[Seg], lines: &LineMetrics) -> (r: (i64, i64))
    ensures
        r.0 == tallest(seg_views(segs@), *lines),
        r.1 == highest(seg_views(segs@), *lines),
        0 <= r.0 <= u32::MAX,
        0 <= r.1 <= u32::MAX,
{
    let ghost views = seg_views(segs@);
    let mut tall: i64 = 0;
    let mut high: i64 = 0;
    let mut i: usize = 0;
    while i < segs.len()
        invariant
            i <= segs@.len(),
            views == seg_views(segs@),
            tall == tallest(views.take(i as int), *lines),
            high == highest(views.take(i as int), *lines),
            0 <= tall <= u32::MAX,
            0 <= high <= u32::MAX,
        decreases segs.len() - i,
    {
        let face = segs[i].face;
        let line = lines.line_height(face);
        let ascent = lines.line_ascent(face);
        proof {
            assert(views.take(i + 1).drop_last() =~= views.take(i as int));
            assert(views.take(i + 1).last() == segs@[i as int]@);
        }
        if line > tall {
            tall = line;
        }
        if ascent > high {
            high = ascent;
        }
        i += 1;
    }
    proof {
        assert(views.take(views.len() as int) =~= views);
    }
    (tall, high)
}

/// What the segments of a row need to be painted.
struct SegmentPaint {
    line: i64,
    high: i64,
    top: i64,
    header: bool,
}

impl SegmentPaint {
    /// Whether this is what row `q` needs.
    spec fn of(&self, q: RowPicture) -> bool {
        &&& self.line == q.line()
        &&& self.high == highest(q.row.segs, q.lines)
        &&& self.top == q.line_top()
        &&& self.header == (q.row.kind == RowKind::Header)
    }

    spec fn sane(&self) -> bool {
        &&& 0 <= self.line <= u32::MAX
        &&& 0 <= self.high <= u32::MAX
        &&& -2 * MAX_EXTENT <= self.top <= 2 * MAX_EXTENT
    }

    /// Paints a placed segment, and says where its text ends.
    fn paint<F: Fn(&str, Face) -> u32>(
        &self,
        scene: &mut Scene,
        text: &mut TextCtx<F>,
        palette: &ChromePalette,
        tones: &Tones,
        lines: &LineMetrics,
        p: &Placed,
    ) -> (end: i128)
        requires
            old(text).ready(),
            self.sane(),
            -MAX_EXTENT <= p.x <= 2 * MAX_EXTENT,
        ensures
            final(text).goes_on(old(text)),
            -2 * MAX_EXTENT <= end < 0x2_0000_0000_0000_0000_0000_0000,
            forall|q: RowPicture| #[trigger]
                self.of(q) && q.palette == *palette && q.tones == *tones && q.lines == *lines
                    ==> final(scene)@ == old(scene)@ + q.segment(p@),
            forall|q: RowPicture| #[trigger]
                self.of(q) && old(text).follows(q.w) ==> end == q.text_x(p@) + run_width(
                    q.body(p@),
                    p.face,
                    q.w,
                ),
    {
        let y: i64 = self.top + (self.high - lines.line_ascent(p.face));
        let mut x: i64 = p.x;
        if let Some((r, g, b, a)) = p.swatch {
            let middle: i64 = y + self.line / 2;
            let rect = Rect {
                x0: x,
                y0: middle - SWATCH_SIZE / 2,
                x1: x + SWATCH_SIZE,
                y1: middle + SWATCH_SIZE / 2,
            };
            scene.push(Draw::FillRound { rect, radius: 2 * PX, color: Rgba { r, g, b, a } });
            scene.push(
                Draw::OutlineRound {
                    rect,
                    radius: 2 * PX,
                    width: PX,
                    color: faded(palette.url_border_idle, RULE_ALPHA),
                },
            );
            x = x + SWATCH_SIZE + SWATCH_GAP;
        }
        let body = if self.header && p.face == Face::UiStrong {
            to_upper(p.text.as_str())
        } else {
            p.text.clone()
        };
        let width = text.width(body.as_str(), p.face);
        let empty = body.as_str().unicode_len() == 0;
        if !empty {
            scene.write(body, TextStyle::Panel(p.face), x, y, tones.get(p.tone));
        }
        proof {
            assert forall|q: RowPicture| #[trigger]
                self.of(q) && q.palette == *palette && q.tones == *tones && q.lines
                    == *lines implies scene@ == old(scene)@ + q.segment(p@) by {
                assert(scene@ =~= old(scene)@ + q.segment(p@));
            }
        }
        x as i128 + width as i128
    }
}

/// Places and paints the segments of a row between `x0` and `x1`, and says
/// where a header's label ends.
fn paint_segments<F: Fn(&str, Face) -> u32>(
    scene: &mut Scene,
    text: &mut TextCtx<F>,
    palette: &ChromePalette,
    tones: &Tones,
    lines: &LineMetrics,
    p: &RowPaint<'_>,
    how: &SegmentPaint,
    x0: i64,
    x1: i64,
) -> (r: (Vec<Placed>, i128))
    requires
        old(text).ready(),
        p.sane(),
        how.sane(),
        -MAX_EXTENT <= x0 <= 2 * MAX_EXTENT,
        x1 <= 2 * MAX_EXTENT,
        forall|w: spec_fn(Seq<char>, Face) -> nat|
            {
                let q = #[trigger] p.picture(*palette, *tones, *lines, w);
                how.of(q) && x0 == q.start() && x1 == q.right - HPAD
            },
    ensures
        final(text).goes_on(old(text)),
        -2 * MAX_EXTENT <= r.1 < 0x2_0000_0000_0000_0000_0000_0000,
        forall|j: int|
            0 <= j < r.0@.len() ==> -MAX_EXTENT <= (#[trigger] r.0@[j]).x <= 2 * MAX_EXTENT,
        forall|w: spec_fn(Seq<char>, Face) -> nat| #[trigger]
            old(text).follows(w) ==> {
                let q = p.picture(*palette, *tones, *lines, w);
                &&& placed_views(r.0@) == q.placed()
                &&& final(scene)@ == old(scene)@ + q.segments(q.placed().len() as int)
                &&& r.1 == q.label_end(q.placed().len() as int)
            },
{
    let ghost base = scene@;
    let placed = place_segs(p.row.segs.as_slice(), x0, x1, text);
    let mut end: i128 = x0 as i128;
    let mut i: usize = 0;
    proof {
        assert(base + Seq::<DrawView>::empty() =~= base);
        assert forall|w: spec_fn(Seq<char>, Face) -> nat| #[trigger]
            old(text).follows(w) implies placed_views(placed@) == p.picture(
            *palette,
            *tones,
            *lines,
            w,
        ).placed() by {
            let q = p.picture(*palette, *tones, *lines, w);
            assert(x0 == q.start());
        }
    }
    while i < placed.len()
        invariant
            i <= placed@.len(),
            how.sane(),
            text.goes_on(old(text)),
            -2 * MAX_EXTENT <= end < 0x2_0000_0000_0000_0000_0000_0000,
            forall|j: int|
                0 <= j < placed@.len() ==> -MAX_EXTENT <= (#[trigger] placed@[j]).x <= 2
                    * MAX_EXTENT,
            forall|w: spec_fn(Seq<char>, Face) -> nat|
                how.of(#[trigger] p.picture(*palette, *tones, *lines, w)),
            forall|w: spec_fn(Seq<char>, Face) -> nat| #[trigger]
                old(text).follows(w) ==> {
                    let q = p.picture(*palette, *tones, *lines, w);
                    &&& placed_views(placed@) == q.placed()
                    &&& scene@ == base + q.segments(i as int)
                    &&& end == q.label_end(i as int)
                },
        decreases placed.len() - i,
    {
        let seg_end = how.paint(scene, text, palette, tones, lines, &placed[i]);
        proof {
            assert forall|w: spec_fn(Seq<char>, Face) -> nat| #[trigger]
                old(text).follows(w) implies ({
                let q = p.picture(*palette, *tones, *lines, w);
                &&& scene@ == base + q.segments(i + 1)
                &&& q.placed()[i as int] == placed@[i as int]@
                &&& seg_end == q.text_x(placed@[i as int]@) + run_width(
                    q.body(placed@[i as int]@),
                    placed@[i as int].face,
                    w,
                )
            }) by {
                let q = p.picture(*palette, *tones, *lines, w);
                let seg = placed@[i as int]@;
                assert(how.of(q));
                assert(q.placed()[i as int] == seg);
                assert(base + q.segments(i as int) + q.segment(seg) =~= base + (q.segments(
                    i as int,
                ) + q.segment(seg)));
            }
        }
        if placed[i].face == Face::UiStrong && seg_end > end {
            end = seg_end;
        }
        i += 1;
    }
    (placed, end)
}

/// Where the first placed segment behind `x` starts, or else `x1`.
fn start_behind(placed: &[Placed], x: i128, x1: i64) -> (next: i128)
    requires
        forall|j: int|
            0 <= j < placed@.len() ==> -MAX_EXTENT <= (#[trigger] placed@[j]).x <= 2 * MAX_EXTENT,
        -2 * MAX_EXTENT <= x1 <= 2 * MAX_EXTENT,
    ensures
        -2 * MAX_EXTENT <= next <= x1,
        forall|q: RowPicture|
            placed_views(placed@) == #[trigger] q.placed() && x1 == q.right - HPAD ==> next
                == q.next_start(x as int, placed@.len() as int),
{
    let mut next: i128 = x1 as i128;
    let mut j: usize = 0;
    while j < placed.len()
        invariant
            j <= placed@.len(),
            -2 * MAX_EXTENT <= next <= x1,
            forall|q: RowPicture|
                placed_views(placed@) == #[trigger] q.placed() && x1 == q.right - HPAD ==> next
                    == q.next_start(x as int, j as int),
            forall|k: int|
                0 <= k < placed@.len() ==> -MAX_EXTENT <= (#[trigger] placed@[k]).x <= 2
                    * MAX_EXTENT,
        decreases placed.len() - j,
    {
        let at = placed[j].x as i128;
        proof {
            assert(placed_views(placed@)[j as int] == placed@[j as int]@);
        }
        if at > x && at < next {
            next = at;
        }
        j += 1;
    }
    next
}

/// Paints a header's line.
fn paint_rule(
    scene: &mut Scene,
    palette: &ChromePalette,
    p: &RowPaint<'_>,
    placed: &[Placed],
    end: i128,
    line: i64,
    x1: i64,
)
    requires
        p.sane(),
        p.row.kind == RowKind::Header,
        0 <= line <= u32::MAX,
        x1 == p.content_x1 - HPAD,
        -2 * MAX_EXTENT <= end < 0x2_0000_0000_0000_0000_0000_0000,
        forall|j: int|
            0 <= j < placed@.len() ==> -MAX_EXTENT <= (#[trigger] placed@[j]).x <= 2 * MAX_EXTENT,
    ensures
        forall|tones: Tones, lines: LineMetrics, w: spec_fn(Seq<char>, Face) -> nat|
            {
                let q = #[trigger] p.picture(*palette, tones, lines, w);
                placed_views(placed@) == q.placed() && line == q.line() && end == q.label_end(
                    placed@.len() as int,
                ) ==> final(scene)@ == old(scene)@ + q.rule()
            },
{
    let rule_x0: i128 = end + 8 * PX as i128;
    let next = start_behind(placed, rule_x0, x1);
    let rule_x1: i128 = next - 8 * PX as i128;
    let y: i64 = p.y + p.row.height() - line / 2 - 5 * PX;
    if rule_x1 > rule_x0 {
        scene.fill(
            rule_x0 as i64,
            y,
            rule_x1 as i64,
            y + PX,
            faded(palette.url_border_idle, RULE_ALPHA),
        );
    }
    proof {
        assert forall|tones: Tones, lines: LineMetrics, w: spec_fn(Seq<char>, Face) -> nat|
            {
                let q = #[trigger] p.picture(*palette, tones, lines, w);
                placed_views(placed@) == q.placed() && line == q.line() && end == q.label_end(
                    placed@.len() as int,
                ) ==> scene@ == old(scene)@ + q.rule()
            } by {
            let q = p.picture(*palette, tones, lines, w);
            if placed_views(placed@) == q.placed() && line == q.line() && end == q.label_end(
                placed@.len() as int,
            ) {
                assert(q.placed().len() == placed@.len());
                assert(scene@ =~= old(scene)@ + q.rule());
            }
        }
    }
}

proof fn lemma_row_scene(before: Seq<DrawView>, q: RowPicture)
    ensures
        before + q.backdrop() + q.guide_lines(
            if q.guides {
                q.row.indent as int
            } else {
                0
            },
        ) + q.twisty() + q.segments(q.placed().len() as int) + q.rule() == before + q.scene(),
        q.row.kind != RowKind::Header ==> before + q.backdrop() + q.guide_lines(
            if q.guides {
                q.row.indent as int
            } else {
                0
            },
        ) + q.twisty() + q.segments(q.placed().len() as int) == before + q.scene(),
{
    let guides = q.guide_lines(
        if q.guides {
            q.row.indent as int
        } else {
            0
        },
    );
    assert(before + q.backdrop() + guides + q.twisty() + q.segments(q.placed().len() as int)
        + q.rule() =~= before + q.scene());
    if q.row.kind != RowKind::Header {
        assert(q.rule() =~= Seq::<DrawView>::empty());
        let all = before + q.backdrop() + guides + q.twisty() + q.segments(
            q.placed().len() as int,
        );
        assert(all + q.rule() =~= all);
    }
}

/// Paints a row.
pub fn paint_row<F: Fn(&str, Face) -> u32>(
    scene: &mut Scene,
    text: &mut TextCtx<F>,
    palette: &ChromePalette,
    tones: &Tones,
    lines: &LineMetrics,
    p: &RowPaint<'_>,
)
    requires
        old(text).ready(),
        p.sane(),
    ensures
        final(text).goes_on(old(text)),
        forall|w: spec_fn(Seq<char>, Face) -> nat| #[trigger]
            old(text).follows(w) ==> final(scene)@ == old(scene)@ + p.picture(
                *palette,
                *tones,
                *lines,
                w,
            ).scene(),
{
    paint_backdrop(scene, palette, p);
    let row = p.row;
    let h = row.height();
    let mut x0: i64 = p.left + row_content_left(row.indent);
    if row.kind == RowKind::Item && row.node.is_some() {
        x0 = x0 + TWISTY_WIDTH;
    }
    let (line, high) = line_of(row.segs.as_slice(), lines);
    let header = row.kind == RowKind::Header;
    let top: i64 = if header {
        p.y + h - line - 5 * PX
    } else {
        p.y + half(h - line)
    };
    let how = SegmentPaint { line, high, top, header };
    let x1: i64 = p.content_x1 - HPAD;
    proof {
        assert forall|w: spec_fn(Seq<char>, Face) -> nat|
            {
                let q = #[trigger] p.picture(*palette, *tones, *lines, w);
                how.of(q) && x0 == q.start() && x1 == q.right - HPAD
            } by {}
    }
    let (placed, end) = paint_segments(
        scene,
        text,
        palette,
        tones,
        lines,
        p,
        &how,
        x0,
        x1,
    );
    if header {
        paint_rule(scene, palette, p, placed.as_slice(), end, line, x1);
    }
    proof {
        assert forall|w: spec_fn(Seq<char>, Face) -> nat| #[trigger]
            old(text).follows(w) implies scene@ == old(scene)@ + p.picture(
            *palette,
            *tones,
            *lines,
            w,
        ).scene() by {
            let q = p.picture(*palette, *tones, *lines, w);
            assert(q.placed() == placed_views(placed@));
            lemma_row_scene(old(scene)@, q);
        }
    }
}

} // verus!
