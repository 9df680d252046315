//! The panel's state, its geometry, and what a click in it does.
//!
//! Rows differ in height, so [`row_tops`] is the one place that says where they
//! are, and [`panel_hit`] the one that says what a point belongs to: painting
//! and clicking both go by them.

use std::collections::HashSet;
use std::time::Instant;

use vstd::prelude::*;

use crate::clock::now;
use crate::dom::{depth, is_document, lemma_parent_depth, Dom, Link};
use crate::inspector::model::types::{kind_height, row_views, Row, RowView, HEADER_ROW_HEIGHT};
use crate::px::{floor_div, PX};
use crate::text::same_text;

verus! {

/// Width of the panel.
pub const PANEL_WIDTH: i64 = 420 * PX;

/// Height of the tab bar at its top.
pub const TAB_BAR_HEIGHT: i64 = 30 * PX;

/// Width of the picker button at the right end of the tab bar.
pub const PICKER_BTN_WIDTH: i64 = 38 * PX;

/// Space between the panel's edges and its content.
pub const HPAD: i64 = 11 * PX;

/// Offset of each tree level.
pub const INDENT_STEP: i64 = 13 * PX;

/// Width of the disclosure triangle of an expandable row.
pub const TWISTY_WIDTH: i64 = 13 * PX;

/// Width kept free for the scrollbar.
pub const SCROLLBAR_GUTTER: i64 = 10 * PX;

/// Space above the first row and below the last.
pub const CONTENT_VPAD: i64 = 4 * PX;

/// Height of the drawer that shows a value in full.
pub const DRAWER_HEIGHT: i64 = 176 * PX;

/// Height of the drawer's header.
pub const DRAWER_HEADER_HEIGHT: i64 = 28 * PX;

/// Space inside the drawer.
pub const DRAWER_PAD: i64 = 10 * PX;

/// Width of the drawer's close button.
pub const DRAWER_CLOSE_WIDTH: i64 = 28 * PX;

/// Width of the drawer's copy button, left of the close button.
pub const DRAWER_COPY_WIDTH: i64 = 56 * PX;

/// Number of tabs.
pub const TAB_COUNT: i64 = 5;

/// Most rows whose heights can be added up.
pub const MAX_ROWS: usize = 0xffff_ffff;

/// The panel's tabs.
#[derive(Debug, Clone, Copy, PartialEq, Eq, Structural)]
pub enum InspectorTab {
    /// The document tree.
    Elements,
    /// The selected element's style.
    Style,
    /// Variables, derived values and functions.
    Logic,
    /// Timers, reactions and the event log.
    Events,
    /// Addresses, storage and the request log.
    Network,
}

/// The tab at a position.
pub open spec fn tab_at(i: int) -> InspectorTab {
    if i <= 0 {
        InspectorTab::Elements
    } else if i == 1 {
        InspectorTab::Style
    } else if i == 2 {
        InspectorTab::Logic
    } else if i == 3 {
        InspectorTab::Events
    } else {
        InspectorTab::Network
    }
}

impl InspectorTab {
    /// The tabs in their order.
    pub const ALL: [InspectorTab; 5] = [
        InspectorTab::Elements,
        InspectorTab::Style,
        InspectorTab::Logic,
        InspectorTab::Events,
        InspectorTab::Network,
    ];

    /// The tab's position.
    pub open spec fn position(self) -> int {
        match self {
            InspectorTab::Elements => 0,
            InspectorTab::Style => 1,
            InspectorTab::Logic => 2,
            InspectorTab::Events => 3,
            InspectorTab::Network => 4,
        }
    }

    /// The tab at a position.
    pub fn at(i: usize) -> (t: InspectorTab)
        ensures
            t == tab_at(i as int),
    {
        match i {
            0 => InspectorTab::Elements,
            1 => InspectorTab::Style,
            2 => InspectorTab::Logic,
            3 => InspectorTab::Events,
            _ => InspectorTab::Network,
        }
    }

    /// What the tab is called.
    pub open spec fn name(self) -> Seq<char> {
        match self {
            InspectorTab::Elements => "Elements"@,
            InspectorTab::Style => "Style"@,
            InspectorTab::Logic => "Logic"@,
            InspectorTab::Events => "Events"@,
            InspectorTab::Network => "Network"@,
        }
    }

    /// What the tab is called.
    pub fn label(self) -> (s: &'static str)
        ensures
            s@ == self.name(),
    {
        match self {
            InspectorTab::Elements => "Elements",
            InspectorTab::Style => "Style",
            InspectorTab::Logic => "Logic",
            InspectorTab::Events => "Events",
            InspectorTab::Network => "Network",
        }
    }

    /// The tab's position.
    pub fn index(self) -> (i: usize)
        ensures
            i == self.position(),
            i < 5,
    {
        match self {
            InspectorTab::Elements => 0,
            InspectorTab::Style => 1,
            InspectorTab::Logic => 2,
            InspectorTab::Events => 3,
            InspectorTab::Network => 4,
        }
    }
}

/// The drawer that shows one row's full value.
#[derive(Debug)]
pub struct ValueView {
    /// Short label of the value.
    pub title: String,
    /// The complete value.
    pub text: String,
    /// How far the text is scrolled.
    pub scroll: i64,
    /// How far it can be scrolled, as of the last paint.
    pub max_scroll: i64,
    /// When it was last copied.
    pub copied_at: Option<Instant>,
}

/// What a [`ValueView`] shows.
#[verifier::ext_equal]
pub struct DrawerView {
    pub title: Seq<char>,
    pub text: Seq<char>,
    pub scroll: i64,
    pub max_scroll: i64,
    pub copied: bool,
}

impl View for ValueView {
    type V = DrawerView;

    open spec fn view(&self) -> DrawerView {
        DrawerView {
            title: self.title@,
            text: self.text@,
            scroll: self.scroll,
            max_scroll: self.max_scroll,
            copied: self.copied_at is Some,
        }
    }
}

impl ValueView {
    /// A drawer that shows `text`, at its top.
    pub fn new(title: String, text: String) -> (v: ValueView)
        ensures
            v@ == DrawerView::opened(title@, text@),
    {
        ValueView { title, text, scroll: 0, max_scroll: 0, copied_at: None }
    }
}

impl DrawerView {
    /// A drawer that shows `text`, at its top.
    pub open spec fn opened(title: Seq<char>, text: Seq<char>) -> DrawerView {
        DrawerView { title, text, scroll: 0, max_scroll: 0, copied: false }
    }
}

/// The panel's state.
#[derive(Debug)]
pub struct InspectorState {
    /// Whether the panel is shown.
    pub open: bool,
    /// The active tab.
    pub tab: InspectorTab,
    /// The selected node.
    pub selected: Option<usize>,
    /// Nodes whose children are hidden in the tree.
    pub collapsed: HashSet<usize>,
    /// Whether the next click in the page selects what it hits.
    pub picker: bool,
    /// The node under the pointer while the picker is on.
    pub picker_hover: Option<usize>,
    /// The pointer, from the panel's left edge and the top of its tab bar.
    pub hover: Option<(i64, i64)>,
    /// How far each tab is scrolled.
    pub scroll: [i64; 5],
    /// How far the active tab can be scrolled, as of the last paint.
    pub max_scroll: i64,
    /// When the Events tab was last refreshed.
    pub last_events_refresh: Instant,
    /// Information flow: sources, sinks and violations.
    pub flow_metrics: Option<(usize, usize, usize)>,
    /// The value drawer, where it is open.
    pub value_view: Option<ValueView>,
}

/// What an [`InspectorState`] holds.
#[verifier::ext_equal]
pub struct PanelView {
    pub open: bool,
    pub tab: InspectorTab,
    pub selected: Option<usize>,
    pub collapsed: Set<usize>,
    pub picker: bool,
    pub picker_hover: Option<usize>,
    pub hover: Option<(i64, i64)>,
    pub scroll: Seq<i64>,
    pub max_scroll: i64,
    pub flow_metrics: Option<(usize, usize, usize)>,
    pub drawer: Option<DrawerView>,
}

impl View for InspectorState {
    type V = PanelView;

    open spec fn view(&self) -> PanelView {
        PanelView {
            open: self.open,
            tab: self.tab,
            selected: self.selected,
            collapsed: self.collapsed@,
            picker: self.picker,
            picker_hover: self.picker_hover,
            hover: self.hover,
            scroll: self.scroll@,
            max_scroll: self.max_scroll,
            flow_metrics: self.flow_metrics,
            drawer: match self.value_view {
                Some(v) => Some(v@),
                None => None,
            },
        }
    }
}

impl InspectorState {
    /// Whether the times that the state holds are those that it held before.
    pub open spec fn keeps_times(&self, before: InspectorState) -> bool {
        &&& self.last_events_refresh == before.last_events_refresh
        &&& (self.value_view matches Some(v) && v.copied_at is Some) ==> (
        before.value_view matches Some(u) && u.copied_at == self.value_view->0.copied_at)
    }
}

/// `v` held between `lo` and `hi`.
pub open spec fn clamped(v: int, lo: int, hi: int) -> int {
    if v < lo {
        lo
    } else if v > hi {
        hi
    } else {
        v
    }
}

/// The ancestors of node `i`, and the node itself.
pub open spec fn lineage(links: Seq<Link>, i: usize) -> Set<usize>
    decreases depth(links, i as int),
    when is_document(links) && i < links.len()
{
    proof {
        lemma_parent_depth(links, i as int);
    }
    match links[i as int].parent {
        Some(p) => lineage(links, p).insert(i),
        None => Set::empty().insert(i),
    }
}

impl PanelView {
    /// A panel that is closed, with everything else at its start.
    pub open spec fn initial() -> PanelView {
        PanelView {
            open: false,
            tab: InspectorTab::Elements,
            selected: None,
            collapsed: Set::empty(),
            picker: false,
            picker_hover: None,
            hover: None,
            scroll: Seq::new(5, |i: int| 0i64),
            max_scroll: 0,
            flow_metrics: None,
            drawer: None,
        }
    }

    /// Picker mode switched on or off.
    pub open spec fn picking(self, on: bool) -> PanelView {
        PanelView {
            picker: on,
            picker_hover: if on {
                self.picker_hover
            } else {
                None
            },
            ..self
        }
    }

    /// The panel opened or closed.
    pub open spec fn toggled(self) -> PanelView {
        if self.open {
            PanelView { open: false, hover: None, drawer: None, ..self.picking(false) }
        } else {
            PanelView { open: true, ..self }
        }
    }

    /// Everything that belongs to a document forgotten.
    pub open spec fn reset(self) -> PanelView {
        PanelView {
            selected: None,
            collapsed: Set::empty(),
            hover: None,
            scroll: Seq::new(5, |i: int| 0i64),
            max_scroll: 0,
            drawer: None,
            ..self.picking(false)
        }
    }

    /// The active tab scrolled to `to`.
    pub open spec fn scrolled_to(self, to: int) -> PanelView {
        PanelView { scroll: self.scroll.update(self.tab.position(), to as i64), ..self }
    }

    /// The active tab scrolled so that the row at `row_top` is in the upper
    /// third of a viewport of height `viewport`.
    pub open spec fn revealing(self, row_top: int, viewport: int) -> PanelView {
        self.scrolled_to(
            if row_top - viewport * 33 / 100 > 0 {
                row_top - viewport * 33 / 100
            } else {
                0
            },
        )
    }

    /// How far the active tab is scrolled.
    pub open spec fn scroll_offset(self) -> int {
        self.scroll[self.tab.position()] as int
    }

    /// The active tab scrolled by `delta`, within its content.
    pub open spec fn scrolled_by(self, delta: int) -> PanelView {
        self.scrolled_to(
            clamped(
                self.scroll_offset() + delta,
                0,
                if self.max_scroll > 0 {
                    self.max_scroll as int
                } else {
                    0
                },
            ),
        )
    }

    /// A node selected in the tree, with every ancestor expanded.
    pub open spec fn selecting(self, links: Seq<Link>, node: usize) -> PanelView {
        PanelView {
            selected: Some(node),
            tab: InspectorTab::Elements,
            collapsed: if node < links.len() {
                self.collapsed.difference(lineage(links, node))
            } else {
                self.collapsed
            },
            ..self
        }
    }
}

impl Default for InspectorState {
    fn default() -> (s: InspectorState)
        ensures
            s@ == PanelView::initial(),
    {
        InspectorState::new()
    }
}

impl InspectorState {
    /// A closed panel.
    pub fn new() -> (s: InspectorState)
        ensures
            s@ == PanelView::initial(),
    {
        broadcast use vstd::std_specs::hash::group_hash_axioms;

        let s = InspectorState {
            open: false,
            tab: InspectorTab::Elements,
            selected: None,
            collapsed: HashSet::new(),
            picker: false,
            picker_hover: None,
            hover: None,
            scroll: [0, 0, 0, 0, 0],
            max_scroll: 0,
            last_events_refresh: now(),
            flow_metrics: None,
            value_view: None,
        };
        proof {
            assert(s@.scroll =~= PanelView::initial().scroll);
        }
        s
    }

    /// Opens or closes the panel. Closing also ends picker mode and closes the
    /// drawer.
    pub fn toggle(&mut self)
        ensures
            final(self)@ == old(self)@.toggled(),
            final(self).keeps_times(*old(self)),
    {
        self.open = !self.open;
        if !self.open {
            self.set_picker(false);
            self.hover = None;
            self.value_view = None;
        }
    }

    /// Switches picker mode.
    pub fn set_picker(&mut self, on: bool)
        ensures
            final(self)@ == old(self)@.picking(on),
            final(self).keeps_times(*old(self)),
    {
        self.picker = on;
        if !on {
            self.picker_hover = None;
        }
    }

    /// Forgets everything that belongs to a document, after a navigation.
    pub fn reset_document_state(&mut self)
        ensures
            final(self)@ == old(self)@.reset(),
            final(self).keeps_times(*old(self)),
    {
        broadcast use vstd::std_specs::hash::group_hash_axioms;

        self.selected = None;
        self.collapsed.clear();
        self.set_picker(false);
        self.hover = None;
        self.scroll = [0, 0, 0, 0, 0];
        self.max_scroll = 0;
        self.value_view = None;
        proof {
            assert(self@.scroll =~= old(self)@.reset().scroll);
        }
    }

    /// Scrolls the active tab so that the row at `row_top` is in the upper
    /// third of a viewport of height `viewport_h`.
    pub fn scroll_to(&mut self, row_top: i64, viewport_h: i64)
        requires
            row_top - viewport_h * 33 / 100 <= i64::MAX,
        ensures
            final(self)@ == old(self)@.revealing(row_top as int, viewport_h as int),
            final(self).keeps_times(*old(self)),
    {
        let third: i128 = floor_div(viewport_h as i128 * 33, 100);
        let to: i128 = row_top as i128 - third;
        let i = self.tab.index();
        self.scroll[i] = if to > 0 {
            to as i64
        } else {
            0
        };
    }

    /// How far the active tab is scrolled.
    pub fn scroll_offset(&self) -> (y: i64)
        ensures
            y == self@.scroll_offset(),
    {
        self.scroll[self.tab.index()]
    }

    /// Scrolls the active tab by `delta`, within its content.
    pub fn scroll_by(&mut self, delta: i64)
        ensures
            final(self)@ == old(self)@.scrolled_by(delta as int),
            final(self).keeps_times(*old(self)),
    {
        let i = self.tab.index();
        let most: i64 = if self.max_scroll > 0 {
            self.max_scroll
        } else {
            0
        };
        let to: i128 = self.scroll[i] as i128 + delta as i128;
        self.scroll[i] = if to < 0 {
            0
        } else if to > most as i128 {
            most
        } else {
            to as i64
        };
    }

    /// Selects `node` in the tree and expands all its ancestors.
    pub fn select_with_ancestors(&mut self, dom: &Dom<'_>, node: usize)
        requires
            dom.valid(),
        ensures
            final(self)@ == old(self)@.selecting(dom.links(), node),
            final(self).keeps_times(*old(self)),
    {
        broadcast use vstd::std_specs::hash::group_hash_axioms;

        self.selected = Some(node);
        self.tab = InspectorTab::Elements;
        if node >= dom.len() {
            return;
        }
        let ghost links = dom.links();
        let ghost start = old(self)@.collapsed;
        let mut at: usize = node;
        loop
            invariant
                dom.valid(),
                links == dom.links(),
                node < links.len(),
                at < links.len(),
                start == old(self)@.collapsed,
                self.keeps_times(*old(self)),
                self@ == (PanelView {
                    selected: Some(node),
                    tab: InspectorTab::Elements,
                    collapsed: self@.collapsed,
                    ..old(self)@
                }),
                self@.collapsed.difference(lineage(links, at)) == start.difference(
                    lineage(links, node),
                ),
            decreases depth(links, at as int),
        {
            proof {
                lemma_parent_depth(links, at as int);
            }
            let ghost prev = self@.collapsed;
            self.collapsed.remove(&at);
            match dom.parent(at) {
                Some(p) => {
                    proof {
                        assert(prev.remove(at).difference(lineage(links, p)) =~= prev.difference(
                            lineage(links, at),
                        ));
                    }
                    at = p;
                },
                None => {
                    proof {
                        assert(prev.remove(at) =~= prev.difference(lineage(links, at)));
                    }
                    return;
                },
            }
        }
    }
}

/// Left edge of the panel in a window of this width.
pub fn panel_left(window_width: i64) -> (x: i64)
    ensures
        x == (if window_width > PANEL_WIDTH {
            window_width - PANEL_WIDTH
        } else {
            0
        }),
{
    if window_width > PANEL_WIDTH {
        window_width - PANEL_WIDTH
    } else {
        0
    }
}

/// Top of the rows, from the top of the panel: below the tab bar and its line.
pub fn content_top() -> (y: i64)
    ensures
        y == TAB_BAR_HEIGHT + PX,
{
    TAB_BAR_HEIGHT + PX
}

/// Top of row `i`, from the top of the rows.
pub open spec fn top_of(rows: Seq<RowView>, i: nat) -> int
    decreases i,
{
    if i == 0 {
        CONTENT_VPAD as int
    } else {
        top_of(rows, (i - 1) as nat) + kind_height(rows[i - 1].kind)
    }
}

/// Height of all rows with the space around them.
pub open spec fn content_height(rows: Seq<RowView>) -> int {
    top_of(rows, rows.len()) + CONTENT_VPAD
}

/// Where row `i` ends: where the next one begins, and at the end of the
/// content for the last one.
pub open spec fn row_end(rows: Seq<RowView>, i: nat) -> int {
    if i + 1 < rows.len() {
        top_of(rows, i + 1)
    } else {
        content_height(rows)
    }
}

/// Whether `tops` holds the tops of all rows and the height of all.
pub open spec fn are_tops(tops: Seq<i64>, rows: Seq<RowView>) -> bool {
    &&& tops.len() == rows.len() + 1
    &&& forall|i: int| 0 <= i < rows.len() ==> (#[trigger] tops[i]) == top_of(rows, i as nat)
    &&& tops[rows.len() as int] == content_height(rows)
}

/// Whether the tops stand in order.
pub open spec fn ascending(tops: Seq<i64>) -> bool {
    forall|i: int, j: int| 0 <= i <= j < tops.len() ==> tops[i] <= tops[j]
}

/// A later row lies below an earlier one, and no row is higher than a header.
pub proof fn lemma_tops_ascend(rows: Seq<RowView>, i: nat, j: nat)
    requires
        i <= j,
    ensures
        top_of(rows, i) <= top_of(rows, j),
        i < j ==> top_of(rows, i) < top_of(rows, j),
        CONTENT_VPAD <= top_of(rows, i) <= CONTENT_VPAD + i * HEADER_ROW_HEIGHT,
    decreases j,
{
    if i < j {
        lemma_tops_ascend(rows, i, (j - 1) as nat);
    } else if i > 0 {
        lemma_tops_ascend(rows, (i - 1) as nat, (i - 1) as nat);
        assert((i - 1) * HEADER_ROW_HEIGHT + HEADER_ROW_HEIGHT == i * HEADER_ROW_HEIGHT)
            by (nonlinear_arith);
    }
}

/// The top of every row, and behind them the height of all: row `i` lies
/// between entry `i` and entry `i + 1`.
pub fn row_tops(rows: &[Row]) -> (tops: Vec<i64>)
    requires
        rows@.len() <= MAX_ROWS,
    ensures
        are_tops(tops@, row_views(rows@)),
        ascending(tops@),
{
    let ghost rv = row_views(rows@);
    let mut tops: Vec<i64> = Vec::new();
    let mut y: i64 = CONTENT_VPAD;
    let mut i: usize = 0;
    while i < rows.len()
        invariant
            i <= rows@.len() <= MAX_ROWS,
            rv == row_views(rows@),
            tops@.len() == i,
            y == top_of(rv, i as nat),
            0 <= y <= 256 + i * 1920,
            forall|j: int| 0 <= j < i ==> (#[trigger] tops@[j]) == top_of(rv, j as nat),
        decreases rows@.len() - i,
    {
        tops.push(y);
        let h = rows[i].height();
        proof {
            assert(rv[i as int] == rows@[i as int]@);
            assert(HEADER_ROW_HEIGHT == 1920);
        }
        y = y + h;
        i += 1;
    }
    tops.push(y + CONTENT_VPAD);
    proof {
        assert forall|a: int, b: int| 0 <= a <= b < tops@.len() implies tops@[a] <= tops@[b] by {
            lemma_tops_ascend(rv, a as nat, rv.len());
            if b < rv.len() {
                lemma_tops_ascend(rv, a as nat, b as nat);
            }
        }
    }
    tops
}

/// The row that covers `y`, if any does.
pub open spec fn row_covering(tops: Seq<i64>, y: int, r: Option<int>) -> bool {
    match r {
        Some(i) => 0 <= i < tops.len() - 1 && tops[i] <= y < tops[i + 1],
        None => tops.len() < 2 || y < tops[0] || y >= tops[tops.len() - 1],
    }
}

/// The index of the row that covers `y`, measured from the top of the rows.
pub fn row_at(tops: &[i64], y: i64) -> (r: Option<usize>)
    requires
        ascending(tops@),
    ensures
        row_covering(
            tops@,
            y as int,
            match r {
                Some(i) => Some(i as int),
                None => None,
            },
        ),
{
    let n = tops.len();
    if n < 2 || y < tops[0] || y >= tops[n - 1] {
        return None;
    }
    let mut lo: usize = 0;
    let mut hi: usize = n - 1;
    while hi - lo > 1
        invariant
            lo < hi < n == tops@.len(),
            tops@[lo as int] <= y < tops@[hi as int],
        decreases hi - lo,
    {
        let mid: usize = lo + (hi - lo) / 2;
        if tops[mid] <= y {
            lo = mid;
        } else {
            hi = mid;
        }
    }
    Some(lo)
}

/// Left edge of a row's content.
pub fn row_content_left(indent: u8) -> (x: i64)
    ensures
        x == HPAD + indent * INDENT_STEP,
        x <= HPAD + 255 * INDENT_STEP,
{
    HPAD + indent as i64 * INDENT_STEP
}

/// What a point in the panel belongs to.
#[derive(Debug, Clone, Copy, PartialEq, Eq, Structural)]
pub enum PanelHit {
    /// A tab.
    Tab(InspectorTab),
    /// The picker button.
    Picker,
    /// The disclosure triangle of the row with this index.
    Twisty(usize),
    /// The row with this index.
    Row(usize),
    /// The drawer's close button.
    DrawerClose,
    /// The drawer's copy button.
    DrawerCopy,
    /// The rest of the drawer.
    DrawerBody,
    /// Nothing in particular.
    Background,
}

/// What a point in the tab bar belongs to.
pub open spec fn tab_bar_zone(x: int) -> PanelHit {
    if x >= PANEL_WIDTH - PICKER_BTN_WIDTH {
        PanelHit::Picker
    } else if x < 0 {
        PanelHit::Tab(InspectorTab::Elements)
    } else {
        PanelHit::Tab(tab_at(x * TAB_COUNT / (PANEL_WIDTH - PICKER_BTN_WIDTH)))
    }
}

/// What a point in the drawer belongs to, `y` from the drawer's top.
pub open spec fn drawer_zone(x: int, y: int) -> PanelHit {
    if y >= DRAWER_HEADER_HEIGHT {
        PanelHit::DrawerBody
    } else if x >= PANEL_WIDTH - DRAWER_CLOSE_WIDTH {
        PanelHit::DrawerClose
    } else if x >= PANEL_WIDTH - DRAWER_CLOSE_WIDTH - DRAWER_COPY_WIDTH {
        PanelHit::DrawerCopy
    } else {
        PanelHit::DrawerBody
    }
}

/// What a point on row `i` belongs to.
pub open spec fn row_zone(row: RowView, i: usize, x: int) -> PanelHit {
    let left = HPAD + row.indent * INDENT_STEP;
    if row.expandable && left <= x < left + TWISTY_WIDTH {
        PanelHit::Twisty(i)
    } else {
        PanelHit::Row(i)
    }
}

/// Whether content height `y` lies on row `i`.
pub open spec fn on_row(rows: Seq<RowView>, i: int, y: int) -> bool {
    0 <= i < rows.len() && top_of(rows, i as nat) <= y < row_end(rows, i as nat)
}

/// What a point in the panel belongs to.
pub open spec fn panel_zone(
    rows: Seq<RowView>,
    scroll: int,
    panel_height: int,
    drawer_open: bool,
    x: int,
    y: int,
) -> PanelHit {
    let content_y = y - (TAB_BAR_HEIGHT + PX) + scroll;
    if y < TAB_BAR_HEIGHT {
        tab_bar_zone(x)
    } else if drawer_open && y >= panel_height - DRAWER_HEIGHT {
        drawer_zone(x, y - (panel_height - DRAWER_HEIGHT))
    } else if exists|i: int| on_row(rows, i, content_y) {
        let i = choose|i: int| on_row(rows, i, content_y);
        row_zone(rows[i], i as usize, x)
    } else {
        PanelHit::Background
    }
}

/// At most one row covers a height.
pub proof fn lemma_one_row(rows: Seq<RowView>, i: int, j: int, y: int)
    requires
        on_row(rows, i, y),
        on_row(rows, j, y),
    ensures
        i == j,
{
    if i < j {
        lemma_tops_ascend(rows, (i + 1) as nat, j as nat);
    } else if j < i {
        lemma_tops_ascend(rows, (j + 1) as nat, i as nat);
    }
}

/// What a point in the drawer belongs to, `y` from the drawer's top.
fn drawer_hit(x: i64, y: i128) -> (h: PanelHit)
    ensures
        h == drawer_zone(x as int, y as int),
{
    if y < DRAWER_HEADER_HEIGHT as i128 {
        if x >= PANEL_WIDTH - DRAWER_CLOSE_WIDTH {
            return PanelHit::DrawerClose;
        }
        if x >= PANEL_WIDTH - DRAWER_CLOSE_WIDTH - DRAWER_COPY_WIDTH {
            return PanelHit::DrawerCopy;
        }
    }
    PanelHit::DrawerBody
}

/// What a point in the panel belongs to. `x` and `y` count from the panel's top
/// left corner; `rows` and `scroll` are those that were painted.
pub fn panel_hit(
    rows: &[Row],
    scroll: i64,
    panel_height: i64,
    drawer_open: bool,
    x: i64,
    y: i64,
) -> (h: PanelHit)
    requires
        rows@.len() <= MAX_ROWS,
    ensures
        h == panel_zone(
            row_views(rows@),
            scroll as int,
            panel_height as int,
            drawer_open,
            x as int,
            y as int,
        ),
{
    let ghost rv = row_views(rows@);
    if y < TAB_BAR_HEIGHT {
        if x >= PANEL_WIDTH - PICKER_BTN_WIDTH {
            return PanelHit::Picker;
        }
        if x < 0 {
            return PanelHit::Tab(InspectorTab::Elements);
        }
        let i: i64 = x * TAB_COUNT / (PANEL_WIDTH - PICKER_BTN_WIDTH);
        return PanelHit::Tab(InspectorTab::at(i as usize));
    }
    if drawer_open {
        let top: i128 = panel_height as i128 - DRAWER_HEIGHT as i128;
        if y as i128 >= top {
            return drawer_hit(x, y as i128 - top);
        }
    }
    let tops = row_tops(rows);
    let content_y: i128 = y as i128 - content_top() as i128 + scroll as i128;
    let n = rows.len();
    let covered = if content_y < tops[0] as i128 || content_y >= tops[n] as i128 {
        None
    } else {
        row_at(tops.as_slice(), content_y as i64)
    };
    match covered {
        None => {
            proof {
                assert forall|i: int| !on_row(rv, i, content_y as int) by {
                    if on_row(rv, i, content_y as int) {
                        lemma_tops_ascend(rv, 0, i as nat);
                        lemma_tops_ascend(rv, i as nat, rv.len());
                        if i + 1 < rv.len() {
                            lemma_tops_ascend(rv, (i + 1) as nat, rv.len());
                        }
                        if n == 0 {
                            assert(false);
                        }
                        assert(tops@[0] == top_of(rv, 0));
                    }
                }
            }
            PanelHit::Background
        },
        Some(i) => {
            proof {
                assert(on_row(rv, i as int, content_y as int));
                let j = choose|j: int| on_row(rv, j, content_y as int);
                lemma_one_row(rv, i as int, j, content_y as int);
                assert(rv[i as int] == rows@[i as int]@);
            }
            let row = &rows[i];
            if row.expandable {
                let left = row_content_left(row.indent);
                if left <= x && x < left + TWISTY_WIDTH {
                    return PanelHit::Twisty(i);
                }
            }
            PanelHit::Row(i)
        },
    }
}

/// What a click in the panel came to.
#[derive(Debug, Clone, PartialEq, Eq)]
pub struct ClickOutcome {
    /// Whether something changed that has to be painted.
    pub changed: bool,
    /// Text to put on the clipboard.
    pub copy: Option<String>,
}

/// What a [`ClickOutcome`] says.
#[verifier::ext_equal]
pub struct OutcomeOfClick {
    pub changed: bool,
    pub copy: Option<Seq<char>>,
}

impl View for ClickOutcome {
    type V = OutcomeOfClick;

    open spec fn view(&self) -> OutcomeOfClick {
        OutcomeOfClick {
            changed: self.changed,
            copy: match self.copy {
                Some(s) => Some(s@),
                None => None,
            },
        }
    }
}

impl Default for ClickOutcome {
    fn default() -> (o: ClickOutcome)
        ensures
            o@ == (OutcomeOfClick { changed: false, copy: None }),
    {
        ClickOutcome { changed: false, copy: None }
    }
}

impl ClickOutcome {
    /// Something changed.
    fn changed() -> (o: ClickOutcome)
        ensures
            o@ == (OutcomeOfClick { changed: true, copy: None }),
    {
        ClickOutcome { changed: true, copy: None }
    }

    /// Nothing changed.
    fn none() -> (o: ClickOutcome)
        ensures
            o@ == (OutcomeOfClick { changed: false, copy: None }),
    {
        ClickOutcome { changed: false, copy: None }
    }
}

impl PanelView {
    /// The drawer after a click on a row with this value: closed where it shows
    /// the value already, else open with it.
    pub open spec fn drawer_toggled(self, title: Seq<char>, text: Seq<char>) -> Option<DrawerView> {
        match self.drawer {
            Some(d) => if d.title == title && d.text == text {
                None
            } else {
                Some(DrawerView::opened(title, text))
            },
            None => Some(DrawerView::opened(title, text)),
        }
    }

    /// The panel after a click that hit `hit`, and what the click came to.
    pub open spec fn hit(self, rows: Seq<RowView>, hit: PanelHit) -> (PanelView, OutcomeOfClick) {
        let unchanged = OutcomeOfClick { changed: false, copy: None };
        let changed = OutcomeOfClick { changed: true, copy: None };
        match hit {
            PanelHit::Picker => (self.picking(!self.picker), changed),
            PanelHit::Tab(tab) => if self.tab == tab {
                (self, unchanged)
            } else {
                (PanelView { tab, ..self }, changed)
            },
            PanelHit::Twisty(i) => match rows[i as int].node {
                Some(node) => (
                    PanelView {
                        collapsed: if self.collapsed.contains(node) {
                            self.collapsed.remove(node)
                        } else {
                            self.collapsed.insert(node)
                        },
                        ..self
                    },
                    changed,
                ),
                None => (self, unchanged),
            },
            PanelHit::Row(i) => {
                let row = rows[i as int];
                let moves = row.node is Some && self.selected != row.node;
                (
                    PanelView {
                        selected: if moves {
                            row.node
                        } else {
                            self.selected
                        },
                        drawer: match row.inspect {
                            Some((title, text)) => self.drawer_toggled(title, text),
                            None => self.drawer,
                        },
                        ..self
                    },
                    if moves || row.inspect is Some {
                        changed
                    } else {
                        unchanged
                    },
                )
            },
            PanelHit::DrawerClose => (PanelView { drawer: None, ..self }, changed),
            PanelHit::DrawerCopy => (
                PanelView {
                    drawer: match self.drawer {
                        Some(d) => Some(DrawerView { copied: true, ..d }),
                        None => None,
                    },
                    ..self
                },
                OutcomeOfClick {
                    changed: true,
                    copy: match self.drawer {
                        Some(d) => Some(d.text),
                        None => None,
                    },
                },
            ),
            PanelHit::DrawerBody | PanelHit::Background => (self, unchanged),
        }
    }

    /// The panel after a click at a point, and what the click came to.
    pub open spec fn clicked(self, rows: Seq<RowView>, panel_height: int, x: int, y: int) -> (
        PanelView,
        OutcomeOfClick,
    ) {
        self.hit(
            rows,
            panel_zone(rows, self.scroll_offset(), panel_height, self.drawer is Some, x, y),
        )
    }
}

/// A row that was hit exists.
proof fn lemma_hit_in_range(
    rows: Seq<RowView>,
    scroll: int,
    panel_height: int,
    drawer_open: bool,
    x: int,
    y: int,
)
    requires
        rows.len() <= usize::MAX,
    ensures
        match panel_zone(rows, scroll, panel_height, drawer_open, x, y) {
            PanelHit::Twisty(i) => i < rows.len(),
            PanelHit::Row(i) => i < rows.len(),
            _ => true,
        },
{
}

/// Does what a click at a point of the panel asks for.
pub fn handle_panel_click(
    state: &mut InspectorState,
    rows: &[Row],
    panel_height: i64,
    x: i64,
    y: i64,
) -> (o: ClickOutcome)
    requires
        rows@.len() <= MAX_ROWS,
    ensures
        (final(state)@, o@) == old(state)@.clicked(
            row_views(rows@),
            panel_height as int,
            x as int,
            y as int,
        ),
        final(state).last_events_refresh == old(state).last_events_refresh,
        o@.copy is None ==> final(state).keeps_times(*old(state)),
{
    broadcast use vstd::std_specs::hash::group_hash_axioms;

    let ghost rv = row_views(rows@);
    let ghost before = state@;
    let drawer_open = state.value_view.is_some();
    let scroll = state.scroll_offset();
    proof {
        lemma_hit_in_range(
            rv,
            scroll as int,
            panel_height as int,
            drawer_open,
            x as int,
            y as int,
        );
    }
    match panel_hit(rows, scroll, panel_height, drawer_open, x, y) {
        PanelHit::Picker => {
            let on = !state.picker;
            state.set_picker(on);
            ClickOutcome::changed()
        },
        PanelHit::Tab(tab) => {
            if state.tab == tab {
                return ClickOutcome::none();
            }
            state.tab = tab;
            ClickOutcome::changed()
        },
        PanelHit::Twisty(i) => {
            proof {
                assert(rv[i as int] == rows@[i as int]@);
            }
            match rows[i].node {
                Some(node) => {
                    if !state.collapsed.remove(&node) {
                        state.collapsed.insert(node);
                        proof {
                            assert(before.collapsed.remove(node).insert(node)
                                =~= before.collapsed.insert(node));
                        }
                    }
                    ClickOutcome::changed()
                },
                None => ClickOutcome::none(),
            }
        },
        PanelHit::Row(i) => {
            proof {
                assert(rv[i as int] == rows@[i as int]@);
            }
            let row = &rows[i];
            let mut changed = false;
            if let Some(node) = row.node {
                let same = match state.selected {
                    Some(s) => s == node,
                    None => false,
                };
                if !same {
                    state.selected = Some(node);
                    changed = true;
                }
            }
            if let Some(inspect) = &row.inspect {
                let shown = match &state.value_view {
                    Some(v) => same_text(v.title.as_str(), inspect.title.as_str()) && same_text(
                        v.text.as_str(),
                        inspect.text.as_str(),
                    ),
                    None => false,
                };
                state.value_view = if shown {
                    None
                } else {
                    Some(ValueView::new(inspect.title.clone(), inspect.text.clone()))
                };
                changed = true;
            }
            if changed {
                ClickOutcome::changed()
            } else {
                ClickOutcome::none()
            }
        },
        PanelHit::DrawerClose => {
            state.value_view = None;
            ClickOutcome::changed()
        },
        PanelHit::DrawerCopy => {
            let mut copy: Option<String> = None;
            if let Some(v) = state.value_view.take() {
                copy = Some(v.text.clone());
                state.value_view = Some(ValueView { copied_at: Some(now()), ..v });
            }
            ClickOutcome { changed: true, copy }
        },
        PanelHit::DrawerBody | PanelHit::Background => ClickOutcome::none(),
    }
}

} // verus!
