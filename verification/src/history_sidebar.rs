//! The history sidebar: a list of visited pages at the window's left edge,
//! grouped by day.
//!
//! [`layout_rows`] alone says where rows are. Painting and hit testing both go
//! by it.

use vstd::prelude::*;

use crate::history::{all_visits, DayView, HistoryLog};
use crate::inspector::panel::clamped;
use crate::px::{Rect, MAX_EXTENT, PX};

pub mod laws;
pub mod paint;
pub mod view_laws;

verus! {

/// Width of the sidebar with the line at its right edge.
pub const SIDEBAR_WIDTH: i64 = 272 * PX;

/// Height of the header.
pub const HEADER_HEIGHT: i64 = 30 * PX;

/// Height of a day's label.
pub const GROUP_ROW_H: i64 = 26 * PX;

/// Height of a visit.
pub const ROW_H: i64 = 38 * PX;

/// Padding at the left and the right.
pub const HPAD: i64 = 12 * PX;

/// Width of the "Clear" button.
pub const CLEAR_BTN_W: i64 = 62 * PX;

/// Distance of the "Clear" button from the top and bottom of the header.
pub const CLEAR_BTN_INSET: i64 = 5 * PX;

/// How far one unit of the wheel scrolls.
pub const SCROLL_STEP: i64 = 2;

/// Most rows whose heights can be added up.
pub const MAX_LINES: usize = 0xffff_ffff;

/// The sidebar's right edge.
pub fn panel_right() -> (x: i64)
    ensures
        x == SIDEBAR_WIDTH,
{
    SIDEBAR_WIDTH
}

/// Whether `x` lies in the sidebar.
pub fn contains_x(x: i64) -> (r: bool)
    ensures
        r == (0 <= x < SIDEBAR_WIDTH),
{
    0 <= x && x < panel_right()
}

/// What a point in the sidebar belongs to.
#[derive(Debug, Clone, Copy, PartialEq, Eq, Structural)]
pub enum HistorySidebarHit {
    /// It is not in the sidebar.
    Outside,
    /// Nothing in particular, but in the sidebar.
    Background,
    /// The "Clear" button.
    Clear,
    /// The visit with this index, counted from the newest.
    Entry(usize),
}

/// A row: what it is, and where it starts, from the top of the first row.
#[derive(Debug, Clone)]
pub enum Row {
    /// A day's label.
    Group { label: String, top: i64 },
    /// A visit by its index, counted from the newest.
    Entry { index: usize, top: i64 },
}

/// What a row shows.
#[verifier::ext_equal]
pub enum Line {
    Group(Seq<char>),
    Entry(int),
}

/// A row: what it shows, and where it starts.
#[verifier::ext_equal]
pub struct LineAt {
    pub line: Line,
    pub top: int,
}

impl View for Row {
    type V = LineAt;

    open spec fn view(&self) -> LineAt {
        match *self {
            Row::Group { label, top } => LineAt { line: Line::Group(label@), top: top as int },
            Row::Entry { index, top } => LineAt { line: Line::Entry(index as int), top: top as int },
        }
    }
}

/// What rows show, and where they start.
pub open spec fn line_views(rows: Seq<Row>) -> Seq<LineAt> {
    rows.map_values(|r: Row| r@)
}

impl Line {
    /// Height of a row.
    pub open spec fn height(self) -> int {
        match self {
            Line::Group(_) => GROUP_ROW_H as int,
            Line::Entry(_) => ROW_H as int,
        }
    }
}

/// `n` visits, the first of which has index `first`.
pub open spec fn entries(first: int, n: nat) -> Seq<Line> {
    Seq::new(n, |k: int| Line::Entry(first + k))
}

/// What the rows show: each day's label, and below it the day's visits.
pub open spec fn lines(days: Seq<DayView>) -> Seq<Line>
    decreases days.len(),
{
    if days.len() == 0 {
        Seq::empty()
    } else {
        let before = days.drop_last();
        lines(before) + seq![Line::Group(days.last().label)] + entries(
            all_visits(before).len() as int,
            days.last().records.len(),
        )
    }
}

/// Where row `k` starts: below all rows before it.
pub open spec fn line_top(s: Seq<Line>, k: nat) -> int
    decreases k,
{
    if k == 0 {
        0
    } else {
        line_top(s, (k - 1) as nat) + s[k - 1].height()
    }
}

/// The rows at their places.
pub open spec fn stacked(s: Seq<Line>) -> Seq<LineAt> {
    Seq::new(s.len(), |k: int| LineAt { line: s[k], top: line_top(s, k as nat) })
}

/// Whether the rows are few enough to add up their heights.
pub open spec fn manageable(days: Seq<DayView>) -> bool {
    lines(days).len() <= MAX_LINES
}

impl Row {
    /// The row's height.
    pub fn height(&self) -> (h: i64)
        ensures
            h == self@.line.height(),
            0 < h <= ROW_H,
    {
        match self {
            Row::Group { .. } => GROUP_ROW_H,
            Row::Entry { .. } => ROW_H,
        }
    }

    /// Where the row starts.
    pub fn top(&self) -> (t: i64)
        ensures
            t == self@.top,
    {
        match self {
            Row::Group { top, .. } => *top,
            Row::Entry { top, .. } => *top,
        }
    }
}

/// Rows that are added at the end move none.
pub proof fn lemma_line_top_extends(s: Seq<Line>, t: Seq<Line>, k: nat)
    requires
        k <= s.len(),
    ensures
        line_top(s + t, k) == line_top(s, k),
    decreases k,
{
    if k > 0 {
        lemma_line_top_extends(s, t, (k - 1) as nat);
    }
}

/// Rows are not higher than visits.
pub proof fn lemma_line_top_bounded(s: Seq<Line>, k: nat)
    requires
        k <= s.len(),
    ensures
        0 <= line_top(s, k) <= k * ROW_H,
    decreases k,
{
    if k > 0 {
        lemma_line_top_bounded(s, (k - 1) as nat);
        assert((k - 1) * ROW_H + ROW_H == k * ROW_H) by (nonlinear_arith);
    }
}

/// The rows of the first days are the first rows.
pub proof fn lemma_first_lines(days: Seq<DayView>, i: int)
    requires
        0 <= i <= days.len(),
    ensures
        lines(days.take(i)).len() <= lines(days).len(),
        all_visits(days.take(i)).len() <= lines(days.take(i)).len(),
    decreases days.len(),
{
    if i == days.len() {
        assert(days.take(i) =~= days);
        if i > 0 {
            lemma_first_lines(days.drop_last(), i - 1);
            assert(days.drop_last().take(i - 1) =~= days.drop_last());
        }
    } else {
        lemma_first_lines(days.drop_last(), i);
        assert(days.drop_last().take(i) =~= days.take(i));
    }
}

/// Adds a row at the end of those that show `s`.
fn push_row(rows: &mut Vec<Row>, row: Row, s: Ghost<Seq<Line>>)
    requires
        line_views(old(rows)@) == stacked(s@),
        row@.top == line_top(s@, s@.len()),
    ensures
        line_views(final(rows)@) == stacked(s@.push(row@.line)),
{
    rows.push(row);
    proof {
        let t = s@.push(row@.line);
        assert(t == s@ + seq![row@.line]);
        assert(old(rows)@.len() == s@.len()) by {
            assert(line_views(old(rows)@).len() == old(rows)@.len());
            assert(stacked(s@).len() == s@.len());
        }
        assert(rows@ == old(rows)@.push(row));
        assert forall|k: int| 0 <= k < t.len() implies line_views(rows@)[k] == stacked(t)[k] by {
            lemma_line_top_extends(s@, seq![row@.line], k as nat);
            if k < s@.len() {
                assert(line_views(old(rows)@)[k] == stacked(s@)[k]);
                assert(rows@[k] == old(rows)@[k]);
            }
        }
        assert(line_views(rows@) =~= stacked(t));
    }
}

/// Lays out all rows from top to bottom.
pub fn layout_rows(log: &HistoryLog) -> (rows: Vec<Row>)
    requires
        manageable(log@),
    ensures
        line_views(rows@) == stacked(lines(log@)),
{
    let ghost days = log@;
    let mut rows: Vec<Row> = Vec::new();
    let mut top: i64 = 0;
    let mut index: usize = 0;
    let mut i: usize = 0;
    proof {
        assert(days.take(0) =~= Seq::<DayView>::empty());
        assert(line_views(rows@) =~= stacked(Seq::<Line>::empty()));
        assert(ROW_H == 2432);
    }
    while i < log.days.len()
        invariant
            i <= log.days@.len(),
            days == log@,
            manageable(days),
            line_views(rows@) == stacked(lines(days.take(i as int))),
            top == line_top(lines(days.take(i as int)), lines(days.take(i as int)).len()),
            index == all_visits(days.take(i as int)).len(),
            ROW_H == 2432,
        decreases log.days.len() - i,
    {
        let day = &log.days[i];
        let ghost before = lines(days.take(i as int));
        let ghost first = index;
        proof {
            assert(days.take(i + 1).drop_last() =~= days.take(i as int));
            assert(days.take(i + 1).last() == day@);
            lemma_first_lines(days, i + 1);
            lemma_first_lines(days, i as int);
            lemma_line_top_bounded(before, before.len());
        }
        push_row(&mut rows, Row::Group { label: day.label.clone(), top }, Ghost(before));
        let ghost headed = before.push(Line::Group(day.label@));
        proof {
            lemma_line_top_extends(before, seq![Line::Group(day.label@)], before.len());
            assert(headed == before + seq![Line::Group(day.label@)]);
            assert(headed + entries(first as int, 0) =~= headed);
        }
        top = top + GROUP_ROW_H;
        let n = day.records.len();
        let mut k: usize = 0;
        while k < n
            invariant
                k <= n,
                headed.len() + n <= MAX_LINES,
                first + n <= MAX_LINES,
                line_views(rows@) == stacked(headed + entries(first as int, k as nat)),
                top == line_top(headed + entries(first as int, k as nat), headed.len() + k as nat),
                index == first + k,
                ROW_H == 2432,
            decreases n - k,
        {
            let ghost so_far = headed + entries(first as int, k as nat);
            proof {
                lemma_line_top_bounded(so_far, so_far.len());
            }
            push_row(&mut rows, Row::Entry { index, top }, Ghost(so_far));
            proof {
                let more = headed + entries(first as int, (k + 1) as nat);
                assert(so_far.push(Line::Entry(index as int)) =~= more);
                lemma_line_top_extends(so_far, seq![Line::Entry(index as int)], so_far.len());
                assert(so_far + seq![Line::Entry(index as int)] =~= more);
            }
            top = top + ROW_H;
            index += 1;
            k += 1;
        }
        proof {
            assert(day@.records.len() == n);
            assert(lines(days.take(i + 1)) =~= headed + entries(first as int, n as nat));
        }
        i += 1;
    }
    proof {
        assert(days.take(days.len() as int) =~= days);
    }
    rows
}

/// Height of all rows.
pub open spec fn content_height(days: Seq<DayView>) -> int {
    line_top(lines(days), lines(days).len())
}

/// Height of all rows.
pub fn total_content_height(log: &HistoryLog) -> (h: i64)
    requires
        manageable(log@),
    ensures
        h == content_height(log@),
        0 <= h <= MAX_EXTENT / 2,
{
    let rows = layout_rows(log);
    let ghost s = lines(log@);
    proof {
        assert(rows@.len() == line_views(rows@).len());
        lemma_line_top_bounded(s, s.len());
        assert(s.len() * ROW_H <= 0xffff_ffff * 2432) by (nonlinear_arith)
            requires
                s.len() <= 0xffff_ffff,
                ROW_H == 2432,
        ;
    }
    if rows.len() == 0 {
        return 0;
    }
    let last = &rows[rows.len() - 1];
    proof {
        assert(line_views(rows@)[rows@.len() - 1] == stacked(s)[rows@.len() - 1]);
        lemma_line_top_bounded(s, (s.len() - 1) as nat);
    }
    last.top() + last.height()
}

/// Height of the part of the rows that can be seen.
pub open spec fn room(window_height: int, chrome_height: int) -> int {
    if window_height - chrome_height - HEADER_HEIGHT > 0 {
        window_height - chrome_height - HEADER_HEIGHT
    } else {
        0
    }
}

/// Height of the part of the rows that can be seen.
pub fn visible_height(window_height: i64, chrome_height: i64) -> (h: i64)
    requires
        -MAX_EXTENT <= window_height <= MAX_EXTENT,
        -MAX_EXTENT <= chrome_height <= MAX_EXTENT,
    ensures
        h == room(window_height as int, chrome_height as int),
{
    let h: i64 = window_height - chrome_height - HEADER_HEIGHT;
    if h > 0 {
        h
    } else {
        0
    }
}

/// How far the rows can be scrolled.
pub open spec fn most_scroll(days: Seq<DayView>, window_height: int, chrome_height: int) -> int {
    if content_height(days) > room(window_height, chrome_height) {
        content_height(days) - room(window_height, chrome_height)
    } else {
        0
    }
}

/// A scroll offset held within what can be scrolled.
pub fn clamp_scroll(offset: i64, log: &HistoryLog, window_height: i64, chrome_height: i64) -> (r: i64)
    requires
        manageable(log@),
        -MAX_EXTENT <= window_height <= MAX_EXTENT,
        -MAX_EXTENT <= chrome_height <= MAX_EXTENT,
    ensures
        r == clamped(
            offset as int,
            0,
            most_scroll(log@, window_height as int, chrome_height as int),
        ),
{
    let content = total_content_height(log);
    let visible = visible_height(window_height, chrome_height);
    let most: i64 = if content > visible {
        content - visible
    } else {
        0
    };
    if offset < 0 {
        0
    } else if offset > most {
        most
    } else {
        offset
    }
}

/// The scroll offset after the wheel turned by `delta`.
pub open spec fn wheeled(
    offset: int,
    delta: int,
    days: Seq<DayView>,
    window_height: int,
    chrome_height: int,
) -> int {
    clamped(offset + delta * SCROLL_STEP, 0, most_scroll(days, window_height, chrome_height))
}

/// The scroll offset after the wheel turned by `delta_y`.
pub fn scroll_by(
    offset: i64,
    delta_y: i64,
    log: &HistoryLog,
    window_height: i64,
    chrome_height: i64,
) -> (r: i64)
    requires
        manageable(log@),
        -MAX_EXTENT <= window_height <= MAX_EXTENT,
        -MAX_EXTENT <= chrome_height <= MAX_EXTENT,
    ensures
        r == wheeled(
            offset as int,
            delta_y as int,
            log@,
            window_height as int,
            chrome_height as int,
        ),
{
    let to: i128 = offset as i128 + delta_y as i128 * SCROLL_STEP as i128;
    let near: i64 = if to < 0 {
        0
    } else if to > MAX_EXTENT as i128 {
        MAX_EXTENT
    } else {
        to as i64
    };
    proof {
        let s = lines(log@);
        lemma_line_top_bounded(s, s.len());
        assert(s.len() * ROW_H <= 0xffff_ffff * 2432) by (nonlinear_arith)
            requires
                s.len() <= 0xffff_ffff,
                ROW_H == 2432,
        ;
    }
    clamp_scroll(near, log, window_height, chrome_height)
}

/// Where the "Clear" button is.
pub open spec fn clear_rect(chrome_height: int) -> Rect {
    Rect {
        x0: (SIDEBAR_WIDTH - HPAD - CLEAR_BTN_W) as i64,
        y0: (chrome_height + CLEAR_BTN_INSET) as i64,
        x1: (SIDEBAR_WIDTH - HPAD) as i64,
        y1: (chrome_height + HEADER_HEIGHT - CLEAR_BTN_INSET) as i64,
    }
}

/// Where the "Clear" button is.
pub fn clear_button_rect(chrome_height: i64) -> (r: Rect)
    requires
        -MAX_EXTENT <= chrome_height <= MAX_EXTENT,
    ensures
        r == clear_rect(chrome_height as int),
{
    let right: i64 = panel_right() - HPAD;
    Rect {
        x0: right - CLEAR_BTN_W,
        y0: chrome_height + CLEAR_BTN_INSET,
        x1: right,
        y1: chrome_height + HEADER_HEIGHT - CLEAR_BTN_INSET,
    }
}

/// Whether row `k` is a visit that covers height `y`.
pub open spec fn entry_covers(s: Seq<Line>, k: int, y: int) -> bool {
    0 <= k < s.len() && s[k] is Entry && line_top(s, k as nat) <= y < line_top(s, k as nat) + ROW_H
}

/// What a point belongs to.
pub open spec fn sidebar_zone(
    days: Seq<DayView>,
    x: int,
    y: int,
    scroll: int,
    chrome_height: int,
) -> HistorySidebarHit {
    let at = y - chrome_height - HEADER_HEIGHT + scroll;
    let s = lines(days);
    if !(0 <= x < SIDEBAR_WIDTH) || y < chrome_height {
        HistorySidebarHit::Outside
    } else if y < chrome_height + HEADER_HEIGHT {
        if clear_rect(chrome_height).x0 <= x < clear_rect(chrome_height).x1 {
            HistorySidebarHit::Clear
        } else {
            HistorySidebarHit::Background
        }
    } else if exists|k: int| entry_covers(s, k, at) {
        let k = choose|k: int| entry_covers(s, k, at);
        HistorySidebarHit::Entry(s[k]->Entry_0 as usize)
    } else {
        HistorySidebarHit::Background
    }
}

/// A later row lies below an earlier one.
pub proof fn lemma_line_top_ascends(s: Seq<Line>, i: nat, j: nat)
    requires
        i < j <= s.len(),
    ensures
        line_top(s, i) + s[i as int].height() <= line_top(s, j),
    decreases j,
{
    if i + 1 < j {
        lemma_line_top_ascends(s, i, (j - 1) as nat);
    }
}

/// At most one visit covers a height.
pub proof fn lemma_one_entry(s: Seq<Line>, i: int, j: int, y: int)
    requires
        entry_covers(s, i, y),
        entry_covers(s, j, y),
    ensures
        i == j,
{
    if i < j {
        lemma_line_top_ascends(s, i as nat, j as nat);
    } else if j < i {
        lemma_line_top_ascends(s, j as nat, i as nat);
    }
}

/// What a point belongs to. `Outside` is for points that are not in the sidebar.
pub fn history_sidebar_hit(
    x: i64,
    y: i64,
    log: &HistoryLog,
    scroll_offset: i64,
    chrome_height: i64,
) -> (r: HistorySidebarHit)
    requires
        manageable(log@),
        -MAX_EXTENT <= chrome_height <= MAX_EXTENT,
    ensures
        r == sidebar_zone(
            log@,
            x as int,
            y as int,
            scroll_offset as int,
            chrome_height as int,
        ),
{
    if !contains_x(x) || y < chrome_height {
        return HistorySidebarHit::Outside;
    }
    let content_y: i128 = y as i128 - chrome_height as i128;
    if content_y < HEADER_HEIGHT as i128 {
        let clear = clear_button_rect(chrome_height);
        if clear.x0 <= x && x < clear.x1 {
            return HistorySidebarHit::Clear;
        }
        return HistorySidebarHit::Background;
    }
    let at: i128 = content_y - HEADER_HEIGHT as i128 + scroll_offset as i128;
    let ghost s = lines(log@);
    let rows = layout_rows(log);
    proof {
        assert(rows@.len() == line_views(rows@).len());
    }
    let mut k: usize = 0;
    while k < rows.len()
        invariant
            k <= rows@.len() == s.len(),
            line_views(rows@) == stacked(s),
            s == lines(log@),
            y >= chrome_height + HEADER_HEIGHT,
            0 <= x < SIDEBAR_WIDTH,
            at == y - chrome_height - HEADER_HEIGHT + scroll_offset,
            forall|j: int| 0 <= j < k ==> !entry_covers(s, j, at as int),
        decreases rows.len() - k,
    {
        proof {
            assert(line_views(rows@)[k as int] == stacked(s)[k as int]);
            assert(rows@[k as int]@ == stacked(s)[k as int]);
        }
        if let Row::Entry { index, top } = &rows[k] {
            if *top as i128 <= at && at < *top as i128 + ROW_H as i128 {
                proof {
                    assert(entry_covers(s, k as int, at as int));
                    let j = choose|j: int| entry_covers(s, j, at as int);
                    lemma_one_entry(s, k as int, j, at as int);
                }
                return HistorySidebarHit::Entry(*index);
            }
        }
        k += 1;
    }
    HistorySidebarHit::Background
}

/// The visit under a point, if there is one.
pub fn hovered_entry(
    x: i64,
    y: i64,
    log: &HistoryLog,
    scroll_offset: i64,
    chrome_height: i64,
) -> (r: Option<usize>)
    requires
        manageable(log@),
        -MAX_EXTENT <= chrome_height <= MAX_EXTENT,
    ensures
        r == (match sidebar_zone(
            log@,
            x as int,
            y as int,
            scroll_offset as int,
            chrome_height as int,
        ) {
            HistorySidebarHit::Entry(i) => Some(i),
            _ => None,
        }),
{
    match history_sidebar_hit(x, y, log, scroll_offset, chrome_height) {
        HistorySidebarHit::Entry(index) => Some(index),
        _ => None,
    }
}

} // verus!
