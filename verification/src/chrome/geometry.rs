//! Where the parts of the chrome are, and what a point in it belongs to.
//!
//! Painting and hit testing take every rectangle from here, so what is on
//! screen and what can be clicked are the same thing.

use vstd::prelude::*;

use crate::px::{Rect, PX};

verus! {

/// Height of the tab strip, above the navigation bar.
pub const TAB_STRIP_HEIGHT: i64 = 26 * PX;

/// Height of the navigation bar.
pub const BAR_HEIGHT: i64 = 28 * PX;

/// Height of the whole chrome: the document starts below it.
pub const CHROME_HEIGHT: i64 = TAB_STRIP_HEIGHT + BAR_HEIGHT;

/// Least width of a tab.
pub const TAB_MIN_W: i64 = 80 * PX;

/// Greatest width of a tab.
pub const TAB_MAX_W: i64 = 200 * PX;

/// Width of a tab's close button, at its right edge.
pub const TAB_CLOSE_W: i64 = 16 * PX;

/// Width of the button that opens a tab.
pub const NEW_TAB_W: i64 = 24 * PX;

/// Space between a tab's edge and its title.
pub const TAB_TEXT_PAD: i64 = 6 * PX;

/// Top of the navigation buttons.
pub const BTN_Y: i64 = TAB_STRIP_HEIGHT + 4 * PX;

/// Height of a navigation button.
pub const BTN_H: i64 = 20 * PX;

/// Width of a navigation button.
pub const BTN_W: i64 = 24 * PX;

/// Left edge of the history button.
pub const HISTORY_X: i64 = 4 * PX;

/// Left edge of the back button.
pub const BACK_X: i64 = 32 * PX;

/// Left edge of the forward button.
pub const FORWARD_X: i64 = 60 * PX;

/// Left edge of the reload button.
pub const RELOAD_X: i64 = 88 * PX;

/// Left edge of the URL bar.
pub const URL_BAR_X: i64 = 116 * PX;

/// Top of the URL bar.
pub const URL_BAR_Y: i64 = TAB_STRIP_HEIGHT + 3 * PX;

/// Height of the URL bar.
pub const URL_BAR_H: i64 = 22 * PX;

/// Width kept free at the right for the status indicator.
pub const STATUS_W: i64 = 40 * PX;

/// Space between the URL bar's edge and its text.
pub const URL_TEXT_PAD: i64 = 4 * PX;

/// Font size of the chrome's text.
pub const CHROME_FONT_SIZE: i64 = 12 * PX;

/// Height of a suggestion in the dropdown.
pub const SUGGESTION_H: i64 = 24 * PX;

/// Space above the first and below the last suggestion.
pub const DROPDOWN_PAD: i64 = 4 * PX;

/// Least width of the URL bar.
pub const URL_BAR_MIN_W: i64 = 10 * PX;

/// A zone of the chrome.
#[derive(Debug, Clone, Copy, PartialEq, Eq, Structural)]
pub enum ChromeHitZone {
    /// The "go back" button.
    BackButton,
    /// The "reload" button.
    ReloadButton,
    /// The "go forward" button.
    ForwardButton,
    /// The URL text input.
    UrlBar,
    /// The button that opens and closes the history sidebar.
    HistoryButton,
    /// Nothing in particular, in the chrome or outside it.
    Background,
    /// The tab with this index.
    TabItem(usize),
    /// The close button of the tab with this index.
    TabCloseButton(usize),
    /// The "new tab" button.
    NewTabButton,
    /// The suggestion with this index.
    AutocompleteSuggestion(usize),
}

/// What the chrome's geometry depends on.
#[derive(Debug, Clone, Copy)]
pub struct ChromeLayout {
    /// Width of the window.
    pub window_width: i64,
    /// Number of open tabs.
    pub tab_count: usize,
    /// Number of suggestions in the dropdown; 0 where it is closed.
    pub dropdown_count: usize,
}

impl ChromeLayout {
    /// Width left for tabs.
    pub open spec fn strip_width(self) -> int {
        if self.window_width < NEW_TAB_W {
            0
        } else {
            self.window_width - NEW_TAB_W
        }
    }

    /// Width of every tab: an equal share of the strip, within limits.
    pub open spec fn tab_width(self) -> int {
        if self.tab_count == 0 || self.strip_width() / self.tab_count as int <= TAB_MIN_W {
            TAB_MIN_W as int
        } else if self.strip_width() / self.tab_count as int >= TAB_MAX_W {
            TAB_MAX_W as int
        } else {
            self.strip_width() / self.tab_count as int
        }
    }

    /// Whether tab `i` fits in the strip.
    pub open spec fn tab_fits(self, i: int) -> bool {
        0 <= i < self.tab_count && (i + 1) * self.tab_width() <= self.strip_width()
    }

    /// Number of tabs that fit; they are the first ones.
    pub open spec fn visible_tabs(self) -> int {
        if self.strip_width() / self.tab_width() < self.tab_count {
            self.strip_width() / self.tab_width()
        } else {
            self.tab_count as int
        }
    }

    /// Where tab `i` is.
    pub open spec fn tab_rect(self, i: int) -> Rect {
        Rect {
            x0: (i * self.tab_width()) as i64,
            y0: 0,
            x1: ((i + 1) * self.tab_width()) as i64,
            y1: TAB_STRIP_HEIGHT,
        }
    }

    /// Right edge of the URL bar.
    pub open spec fn url_bar_right(self) -> int {
        if self.window_width - STATUS_W >= URL_BAR_X + URL_BAR_MIN_W {
            self.window_width - STATUS_W
        } else {
            URL_BAR_X + URL_BAR_MIN_W
        }
    }

    /// Whether the point lies in the open dropdown.
    pub open spec fn in_dropdown(self, x: int, y: int) -> bool {
        &&& self.dropdown_count > 0
        &&& URL_BAR_X <= x < self.url_bar_right()
        &&& URL_BAR_Y + URL_BAR_H <= y < URL_BAR_Y + URL_BAR_H + self.dropdown_count * SUGGESTION_H
            + DROPDOWN_PAD * 2
    }

    /// Whether the point lies on suggestion `i`.
    pub open spec fn on_suggestion(self, x: int, y: int, i: int) -> bool {
        let top = URL_BAR_Y + URL_BAR_H + DROPDOWN_PAD;
        &&& 0 <= i < self.dropdown_count
        &&& URL_BAR_X <= x < self.url_bar_right()
        &&& top + i * SUGGESTION_H <= y < top + (i + 1) * SUGGESTION_H
    }

    /// The zone that the point lies in.
    pub open spec fn zone(self, x: int, y: int) -> ChromeHitZone {
        if self.in_dropdown(x, y) {
            let i = (y - (URL_BAR_Y + URL_BAR_H + DROPDOWN_PAD)) / SUGGESTION_H as int;
            if self.on_suggestion(x, y, i) {
                ChromeHitZone::AutocompleteSuggestion(i as usize)
            } else {
                ChromeHitZone::Background
            }
        } else if !(0 <= y < CHROME_HEIGHT) {
            ChromeHitZone::Background
        } else if y < TAB_STRIP_HEIGHT {
            let i = x / self.tab_width();
            let last = self.visible_tabs() * self.tab_width();
            if 0 <= x && i < self.visible_tabs() {
                if x >= (i + 1) * self.tab_width() - TAB_CLOSE_W {
                    ChromeHitZone::TabCloseButton(i as usize)
                } else {
                    ChromeHitZone::TabItem(i as usize)
                }
            } else if last <= x < last + NEW_TAB_W {
                ChromeHitZone::NewTabButton
            } else {
                ChromeHitZone::Background
            }
        } else if on_button(HISTORY_X as int, x, y) {
            ChromeHitZone::HistoryButton
        } else if on_button(BACK_X as int, x, y) {
            ChromeHitZone::BackButton
        } else if on_button(RELOAD_X as int, x, y) {
            ChromeHitZone::ReloadButton
        } else if on_button(FORWARD_X as int, x, y) {
            ChromeHitZone::ForwardButton
        } else if URL_BAR_X <= x < self.url_bar_right() && URL_BAR_Y <= y < URL_BAR_Y + URL_BAR_H {
            ChromeHitZone::UrlBar
        } else {
            ChromeHitZone::Background
        }
    }
}

/// Whether the point lies on the navigation button that starts at `left`.
pub open spec fn on_button(left: int, x: int, y: int) -> bool {
    left <= x < left + BTN_W && BTN_Y <= y < BTN_Y + BTN_H
}

impl ChromeLayout {
    /// Width left for tabs.
    fn strip(&self) -> (w: i64)
        ensures
            w == self.strip_width(),
            w >= 0,
    {
        if self.window_width < NEW_TAB_W {
            0
        } else {
            self.window_width - NEW_TAB_W
        }
    }

    /// Width of every tab.
    pub fn tab_w(&self) -> (w: i64)
        ensures
            w == self.tab_width(),
            TAB_MIN_W <= w <= TAB_MAX_W,
    {
        if self.tab_count == 0 {
            return TAB_MIN_W;
        }
        let share: i128 = self.strip() as i128 / self.tab_count as i128;
        if share <= TAB_MIN_W as i128 {
            TAB_MIN_W
        } else if share >= TAB_MAX_W as i128 {
            TAB_MAX_W
        } else {
            share as i64
        }
    }

    /// Number of tabs that fit in the strip.
    pub fn visible(&self) -> (n: usize)
        ensures
            n == self.visible_tabs(),
            n <= self.tab_count,
            n * self.tab_width() <= self.strip_width(),
            forall|i: int| #[trigger] self.tab_fits(i) <==> 0 <= i < n,
    {
        let width = self.tab_w();
        let strip = self.strip();
        let fit: i64 = strip / width;
        proof {
            lemma_fitting_tabs(*self);
        }
        if (fit as u64) < self.tab_count as u64 {
            fit as usize
        } else {
            self.tab_count
        }
    }

    /// Where tab `i` is.
    pub fn rect_of_tab(&self, i: usize) -> (r: Rect)
        requires
            self.tab_fits(i as int),
        ensures
            r == self.tab_rect(i as int),
            r.x0 == i * self.tab_width(),
            r.x1 == (i + 1) * self.tab_width(),
            0 <= r.x0 < r.x1 <= self.strip_width(),
    {
        let width = self.tab_w();
        proof {
            let w = self.tab_width();
            assert((i + 1) * w == i * w + w) by (nonlinear_arith);
            assert(i * w >= 0) by (nonlinear_arith)
                requires
                    w >= 0,
            ;
            assert(i <= i * w) by (nonlinear_arith)
                requires
                    w >= 1,
                    i >= 0,
            ;
        }
        let x0: i64 = i as i64 * width;
        Rect { x0, y0: 0, x1: x0 + width, y1: TAB_STRIP_HEIGHT }
    }

    /// Right edge of the URL bar.
    pub fn url_right(&self) -> (x: i64)
        ensures
            x == self.url_bar_right(),
    {
        if self.window_width >= URL_BAR_X + URL_BAR_MIN_W + STATUS_W {
            self.window_width - STATUS_W
        } else {
            URL_BAR_X + URL_BAR_MIN_W
        }
    }
}

/// The tabs that fit are the first [`ChromeLayout::visible_tabs`] ones.
pub proof fn lemma_fitting_tabs(l: ChromeLayout)
    ensures
        0 <= l.visible_tabs() <= l.tab_count,
        l.visible_tabs() * l.tab_width() <= l.strip_width(),
        forall|i: int| #[trigger] l.tab_fits(i) <==> 0 <= i < l.visible_tabs(),
{
    let w = l.tab_width();
    let s = l.strip_width();
    let f = s / w;
    vstd::arithmetic::div_mod::lemma_fundamental_div_mod(s, w);
    assert(0 <= s % w < w);
    assert(f >= 0) by (nonlinear_arith)
        requires
            s >= 0,
            w > 0,
            f == s / w,
    ;
    assert(w * f == f * w) by (nonlinear_arith);
    let n = l.visible_tabs();
    assert(n * w <= f * w) by (nonlinear_arith)
        requires
            n <= f,
            w > 0,
    ;
    assert forall|i: int| #[trigger] l.tab_fits(i) <==> 0 <= i < n by {
        if 0 <= i < n {
            assert((i + 1) * w <= n * w) by (nonlinear_arith)
                requires
                    i + 1 <= n,
                    w > 0,
            ;
        } else if n <= i < l.tab_count {
            assert(n == f);
            assert((i + 1) * w >= (f + 1) * w) by (nonlinear_arith)
                requires
                    i >= f,
                    w > 0,
            ;
            assert((f + 1) * w == f * w + w) by (nonlinear_arith);
        }
    }
}

/// A tab that fits lies in the strip.
pub proof fn lemma_tab_rect(l: ChromeLayout, i: int)
    requires
        l.tab_fits(i),
    ensures
        l.tab_rect(i).x0 == i * l.tab_width(),
        l.tab_rect(i).x1 == (i + 1) * l.tab_width(),
        0 <= l.tab_rect(i).x0 < l.tab_rect(i).x1 <= l.strip_width(),
{
    let w = l.tab_width();
    assert((i + 1) * w == i * w + w) by (nonlinear_arith);
    assert(i * w >= 0) by (nonlinear_arith)
        requires
            w >= 0,
            i >= 0,
    ;
}

/// The tabs that fit in the strip, each with its index and its place.
///
/// A tab that does not fit is not there at all: it is neither painted nor
/// clickable.
pub fn tab_rects(layout: &ChromeLayout) -> (tabs: Vec<(usize, Rect)>)
    ensures
        tabs@.len() == layout.visible_tabs(),
        forall|i: int|
            0 <= i < tabs@.len() ==> (#[trigger] tabs@[i]).0 == i && tabs@[i].1 == layout.tab_rect(i)
                && layout.tab_fits(i),
        forall|i: int| #[trigger] layout.tab_fits(i) ==> 0 <= i < tabs@.len(),
{
    let n = layout.visible();
    let mut tabs: Vec<(usize, Rect)> = Vec::new();
    let mut i: usize = 0;
    while i < n
        invariant
            i <= n == layout.visible_tabs(),
            tabs@.len() == i,
            forall|j: int| #[trigger] layout.tab_fits(j) <==> 0 <= j < n,
            forall|j: int|
                0 <= j < i ==> (#[trigger] tabs@[j]).0 == j && tabs@[j].1 == layout.tab_rect(j),
        decreases n - i,
    {
        assert(layout.tab_fits(i as int));
        tabs.push((i, layout.rect_of_tab(i)));
        i += 1;
    }
    tabs
}

/// Where the "new tab" button is: behind the last tab that fits.
pub fn new_tab_rect(layout: &ChromeLayout) -> (r: Rect)
    ensures
        r.x0 == layout.visible_tabs() * layout.tab_width(),
        r.x1 == r.x0 + NEW_TAB_W,
        r.y0 == 0,
        r.y1 == TAB_STRIP_HEIGHT,
{
    let n = layout.visible();
    let w = layout.tab_w();
    proof {
        assert(n <= n * w) by (nonlinear_arith)
            requires
                w >= 1,
                n >= 0,
        ;
    }
    let x0: i64 = n as i64 * w;
    Rect { x0, y0: 0, x1: x0 + NEW_TAB_W, y1: TAB_STRIP_HEIGHT }
}

/// The zone of the chrome that the point belongs to.
pub fn chrome_hit_zone(x: i64, y: i64, layout: &ChromeLayout) -> (z: ChromeHitZone)
    ensures
        z == layout.zone(x as int, y as int),
{
    let right = layout.url_right();
    let top: i64 = URL_BAR_Y + URL_BAR_H;
    if layout.dropdown_count > 0 && URL_BAR_X <= x && x < right && top <= y {
        let height: i128 = layout.dropdown_count as i128 * SUGGESTION_H as i128 + (DROPDOWN_PAD * 2) as i128;
        if (y as i128) < top as i128 + height {
            if y >= top + DROPDOWN_PAD {
                let i: i64 = (y - (top + DROPDOWN_PAD)) / SUGGESTION_H;
                if (i as u64) < layout.dropdown_count as u64 {
                    return ChromeHitZone::AutocompleteSuggestion(i as usize);
                }
            }
            return ChromeHitZone::Background;
        }
    }
    if !(0 <= y && y < CHROME_HEIGHT) {
        return ChromeHitZone::Background;
    }
    if y < TAB_STRIP_HEIGHT {
        let w = layout.tab_w();
        let n = layout.visible();
        if x < 0 {
            proof {
                assert(n * w >= 0) by (nonlinear_arith)
                    requires
                        n >= 0,
                        w >= 0,
                ;
            }
            return ChromeHitZone::Background;
        }
        let i: i64 = x / w;
        if (i as u64) < n as u64 {
            proof {
                assert(layout.tab_fits(i as int));
            }
            let rect = layout.rect_of_tab(i as usize);
            return if x >= rect.x1 - TAB_CLOSE_W {
                ChromeHitZone::TabCloseButton(i as usize)
            } else {
                ChromeHitZone::TabItem(i as usize)
            };
        }
        let plus = new_tab_rect(layout);
        if plus.x0 <= x && x < plus.x1 {
            return ChromeHitZone::NewTabButton;
        }
        return ChromeHitZone::Background;
    }
    let on_row = BTN_Y <= y && y < BTN_Y + BTN_H;
    if HISTORY_X <= x && x < HISTORY_X + BTN_W && on_row {
        return ChromeHitZone::HistoryButton;
    }
    if BACK_X <= x && x < BACK_X + BTN_W && on_row {
        return ChromeHitZone::BackButton;
    }
    if RELOAD_X <= x && x < RELOAD_X + BTN_W && on_row {
        return ChromeHitZone::ReloadButton;
    }
    if FORWARD_X <= x && x < FORWARD_X + BTN_W && on_row {
        return ChromeHitZone::ForwardButton;
    }
    if URL_BAR_X <= x && x < right && URL_BAR_Y <= y && y < URL_BAR_Y + URL_BAR_H {
        return ChromeHitZone::UrlBar;
    }
    ChromeHitZone::Background
}

/// Left edge of the URL bar's text, the same in a window of any width.
pub fn url_text_left(window_width: i64) -> (x: i64)
    ensures
        x == URL_BAR_X + URL_TEXT_PAD,
{
    let _ = window_width;
    URL_BAR_X + URL_TEXT_PAD
}

/// No tab runs into the "new tab" button, and the button lies in the window.
pub proof fn law_tabs_stop_before_the_new_tab_button(l: ChromeLayout, i: int)
    requires
        l.tab_fits(i),
        l.window_width >= NEW_TAB_W,
    ensures
        l.tab_rect(i).x1 <= l.visible_tabs() * l.tab_width(),
        l.visible_tabs() * l.tab_width() + NEW_TAB_W <= l.window_width,
{
    lemma_fitting_tabs(l);
    let w = l.tab_width();
    let n = l.visible_tabs();
    assert((i + 1) * w <= n * w) by (nonlinear_arith)
        requires
            i + 1 <= n,
            w > 0,
    ;
    assert((i + 1) * w >= 0) by (nonlinear_arith)
        requires
            i + 1 >= 0,
            w > 0,
    ;
}

/// Two tabs never overlap.
pub proof fn law_tabs_do_not_overlap(l: ChromeLayout, i: int, j: int)
    requires
        l.tab_fits(i),
        l.tab_fits(j),
        i != j,
    ensures
        l.tab_rect(i).disjoint_from(l.tab_rect(j)),
{
    lemma_tab_rect_edges(l, i);
    lemma_tab_rect_edges(l, j);
    let w = l.tab_width();
    if i < j {
        assert((i + 1) * w <= j * w) by (nonlinear_arith)
            requires
                i + 1 <= j,
                w > 0,
        ;
    } else {
        assert((j + 1) * w <= i * w) by (nonlinear_arith)
            requires
                j + 1 <= i,
                w > 0,
        ;
    }
}

proof fn lemma_tab_rect_edges(l: ChromeLayout, i: int)
    requires
        l.tab_fits(i),
    ensures
        l.tab_rect(i).x0 == i * l.tab_width(),
        l.tab_rect(i).x1 == (i + 1) * l.tab_width(),
        0 <= i * l.tab_width(),
{
    let w = l.tab_width();
    assert(0 <= i * w <= (i + 1) * w) by (nonlinear_arith)
        requires
            0 <= i,
            w > 0,
    ;
}

/// What is painted as tab `i` is what a click on tab `i` finds: its close
/// button in the last pixels of its rectangle, its body in the rest.
pub proof fn law_tabs_are_hit_where_they_are_painted(l: ChromeLayout, i: int, x: int, y: int)
    requires
        l.tab_fits(i),
    ensures
        l.tab_rect(i).holds(x, y) <==> (l.zone(x, y) == ChromeHitZone::TabItem(i as usize) || l.zone(
            x,
            y,
        ) == ChromeHitZone::TabCloseButton(i as usize)),
        l.zone(x, y) == ChromeHitZone::TabCloseButton(i as usize) ==> x >= l.tab_rect(i).x1
            - TAB_CLOSE_W,
{
    lemma_tab_rect_edges(l, i);
    lemma_fitting_tabs(l);
    let w = l.tab_width();
    if 0 <= y < TAB_STRIP_HEIGHT {
        assert(!l.in_dropdown(x, y));
        if l.tab_rect(i).holds(x, y) {
            assert(i * w == w * i) by (nonlinear_arith);
            assert((i + 1) * w == i * w + w) by (nonlinear_arith);
            vstd::arithmetic::div_mod::lemma_fundamental_div_mod_converse(x, w, i, x - i * w);
        }
        if x >= 0 && x / w == i {
            vstd::arithmetic::div_mod::lemma_fundamental_div_mod(x, w);
            assert(i * w == w * i) by (nonlinear_arith);
            assert((i + 1) * w == i * w + w) by (nonlinear_arith);
        }
    }
}

/// A suggestion is hit exactly where its row is.
pub proof fn law_suggestions_are_hit_on_their_rows(l: ChromeLayout, i: int, x: int, y: int)
    requires
        0 <= i < l.dropdown_count,
    ensures
        l.on_suggestion(x, y, i) <==> l.zone(x, y) == ChromeHitZone::AutocompleteSuggestion(
            i as usize,
        ),
{
}

/// The navigation buttons and the URL bar stand side by side, in this order,
/// without overlapping.
pub proof fn law_toolbar_buttons_do_not_overlap(x: int, y: int)
    ensures
        HISTORY_X + BTN_W <= BACK_X,
        BACK_X + BTN_W <= FORWARD_X,
        FORWARD_X + BTN_W <= RELOAD_X,
        RELOAD_X + BTN_W <= URL_BAR_X,
        on_button(HISTORY_X as int, x, y) ==> !on_button(BACK_X as int, x, y),
        on_button(BACK_X as int, x, y) ==> !on_button(FORWARD_X as int, x, y),
        on_button(FORWARD_X as int, x, y) ==> !on_button(RELOAD_X as int, x, y),
        BTN_Y + BTN_H <= CHROME_HEIGHT,
        URL_BAR_Y + URL_BAR_H <= CHROME_HEIGHT,
{
}

/// Below the chrome, only the dropdown is hit.
pub proof fn law_nothing_is_hit_below_the_chrome(l: ChromeLayout, x: int, y: int)
    requires
        y >= CHROME_HEIGHT || y < 0,
        l.dropdown_count == 0,
    ensures
        l.zone(x, y) == ChromeHitZone::Background,
{
}

} // verus!
