//! Where the parts of the chrome lie and what a click on them means. Lengths
//! are in 64ths of a pixel.

use vstd::prelude::*;

use crate::chrome::geometry::{ChromeHitZone, ChromeLayout};

verus! {

/// The room for tabs: the window without the button for a new one.
pub open spec fn room_for_tabs(l: ChromeLayout) -> int {
    if l.window_width >= 24 * 64 {
        l.window_width - 24 * 64
    } else {
        0
    }
}

/// Tabs share the room evenly, but none is narrower than 80 or wider than 200
/// pixels.
pub proof fn law_tabs_share_the_room(l: ChromeLayout)
    ensures
        80 * 64 <= l.tab_width() <= 200 * 64,
        l.tab_count == 0 ==> l.tab_width() == 80 * 64,
        l.tab_count > 0 && l.tab_width() > 80 * 64 ==> l.tab_width() * l.tab_count <= room_for_tabs(
            l,
        ),
        l.tab_count > 0 && l.tab_width() < 200 * 64 ==> room_for_tabs(l) < (l.tab_width() + 1)
            * l.tab_count,
{
    let n = l.tab_count as int;
    let room = room_for_tabs(l);
    assert(l.strip_width() == room);
    if n > 0 {
        let q = room / n;
        assert(q * n <= room < (q + 1) * n) by (nonlinear_arith)
            requires
                q == room / n,
                n > 0,
        ;
        let w = l.tab_width();
        assert(w <= q || w == 80 * 64);
        assert(w >= q || w == 200 * 64);
        if w > 80 * 64 {
            assert(w * n <= q * n) by (nonlinear_arith)
                requires
                    w <= q,
                    n > 0,
            ;
        }
        if w < 200 * 64 {
            assert((q + 1) * n <= (w + 1) * n) by (nonlinear_arith)
                requires
                    w >= q,
                    n > 0,
            ;
        }
    }
}

/// As many tabs are shown as fit whole in front of the button for a new one.
pub proof fn law_tabs_are_shown_while_they_fit(l: ChromeLayout)
    ensures
        0 <= l.visible_tabs() <= l.tab_count,
        l.visible_tabs() * l.tab_width() <= room_for_tabs(l),
        l.visible_tabs() < l.tab_count ==> (l.visible_tabs() + 1) * l.tab_width() > room_for_tabs(
            l,
        ),
{
    let w = l.tab_width();
    let room = room_for_tabs(l);
    assert(l.strip_width() == room);
    let q = room / w;
    assert(q * w <= room < (q + 1) * w && q >= 0) by (nonlinear_arith)
        requires
            q == room / w,
            w > 0,
            room >= 0,
    ;
    let v = l.visible_tabs();
    assert(v * w <= q * w) by (nonlinear_arith)
        requires
            v <= q,
            w > 0,
    ;
}

/// A tab's last 16 pixels close it, and the rest picks it; the button for a new
/// one stands behind the last that is shown.
pub proof fn law_the_tab_strip_is_hit(l: ChromeLayout, i: int, x: int, y: int)
    requires
        0 <= y < 26 * 64,
    ensures
        0 <= i < l.visible_tabs() && i * l.tab_width() <= x < (i + 1) * l.tab_width() - 16 * 64
            ==> l.zone(x, y) == ChromeHitZone::TabItem(i as usize),
        0 <= i < l.visible_tabs() && (i + 1) * l.tab_width() - 16 * 64 <= x < (i + 1)
            * l.tab_width() ==> l.zone(x, y) == ChromeHitZone::TabCloseButton(i as usize),
        l.visible_tabs() * l.tab_width() <= x < l.visible_tabs() * l.tab_width() + 24 * 64
            ==> l.zone(x, y) == ChromeHitZone::NewTabButton,
        x < 0 || x >= l.visible_tabs() * l.tab_width() + 24 * 64 ==> l.zone(x, y)
            == ChromeHitZone::Background,
{
    let w = l.tab_width();
    let n = l.visible_tabs();
    law_tabs_are_shown_while_they_fit(l);
    if 0 <= i < n && i * w <= x < (i + 1) * w {
        assert(x / w == i) by (nonlinear_arith)
            requires
                i * w <= x < (i + 1) * w,
                w > 0,
        ;
        assert(x >= 0) by (nonlinear_arith)
            requires
                i * w <= x,
                0 <= i,
                w > 0,
        ;
    }
    if x >= n * w {
        assert(x / w >= n) by (nonlinear_arith)
            requires
                x >= n * w,
                w > 0,
        ;
    }
    assert(0 <= n * w) by (nonlinear_arith)
        requires
            0 <= n,
            w > 0,
    ;
    if 0 <= i < n {
        assert((i + 1) * w - 16 * 64 >= i * w) by (nonlinear_arith)
            requires
                w >= 80 * 64,
        ;
    }
}

/// The buttons of the toolbar, from the left: history, back, forward and reload,
/// each 24 pixels wide and 20 high.
pub proof fn law_toolbar_buttons_are_hit(l: ChromeLayout, x: int, y: int)
    requires
        30 * 64 <= y < 50 * 64,
    ensures
        4 * 64 <= x < 28 * 64 ==> l.zone(x, y) == ChromeHitZone::HistoryButton,
        32 * 64 <= x < 56 * 64 ==> l.zone(x, y) == ChromeHitZone::BackButton,
        60 * 64 <= x < 84 * 64 ==> l.zone(x, y) == ChromeHitZone::ForwardButton,
        88 * 64 <= x < 112 * 64 ==> l.zone(x, y) == ChromeHitZone::ReloadButton,
{
}

/// The URL bar reaches from behind the buttons to 40 pixels from the right edge,
/// and is at least 10 pixels wide.
pub proof fn law_the_url_bar_is_hit(l: ChromeLayout, x: int, y: int)
    ensures
        l.url_bar_right() == if l.window_width - 40 * 64 >= 126 * 64 {
            l.window_width - 40 * 64
        } else {
            126 * 64int
        },
        29 * 64 <= y < 51 * 64 && 116 * 64 <= x < l.url_bar_right() ==> l.zone(x, y)
            == ChromeHitZone::UrlBar,
        29 * 64 <= y < 51 * 64 && x >= l.url_bar_right() ==> l.zone(x, y)
            == ChromeHitZone::Background,
{
}

/// The dropdown hangs below the URL bar and is as wide: a margin of 4 pixels,
/// then a row of 24 pixels for each suggestion, then a margin again. A click on
/// it goes to nothing below it.
pub proof fn law_the_dropdown_is_hit(l: ChromeLayout, i: int, x: int, y: int)
    requires
        116 * 64 <= x < l.url_bar_right(),
    ensures
        0 <= i < l.dropdown_count && (55 + 24 * i) * 64 <= y < (79 + 24 * i) * 64 ==> l.zone(x, y)
            == ChromeHitZone::AutocompleteSuggestion(i as usize),
        l.dropdown_count > 0 && 51 * 64 <= y < 55 * 64 ==> l.zone(x, y)
            == ChromeHitZone::Background,
        (55 + 24 * l.dropdown_count) * 64 <= y ==> l.zone(x, y) == ChromeHitZone::Background,
{
    if 0 <= i < l.dropdown_count && (55 + 24 * i) * 64 <= y < (79 + 24 * i) * 64 {
        assert((y - 55 * 64) / 1536 == i);
        assert(i * 1536 <= (l.dropdown_count - 1) * 1536);
    }
}

/// A tab is shown where it ends in front of the button for a new one, and these
/// are the first ones.
pub proof fn law_the_first_tabs_are_shown(l: ChromeLayout, i: int)
    ensures
        l.tab_fits(i) <==> 0 <= i < l.tab_count && (i + 1) * l.tab_width() <= room_for_tabs(l),
        l.tab_fits(i) <==> 0 <= i < l.visible_tabs(),
{
    law_tabs_are_shown_while_they_fit(l);
    let w = l.tab_width();
    let n = l.visible_tabs();
    let room = room_for_tabs(l);
    assert(l.strip_width() == room);
    if i < n {
        assert((i + 1) * w <= n * w) by (nonlinear_arith)
            requires
                i + 1 <= n,
                w > 0,
        ;
    } else {
        assert((n + 1) * w <= (i + 1) * w) by (nonlinear_arith)
            requires
                n <= i,
                w > 0,
        ;
    }
}

/// Nothing is hit beside its own place: each button, the bar and the strip only
/// inside its own edges.
pub proof fn law_parts_are_hit_only_inside(l: ChromeLayout, x: int, y: int)
    ensures
        ({
            let z = l.zone(x, y);
            let on_row = 30 * 64 <= y < 50 * 64;
            &&& z is HistoryButton ==> on_row && 4 * 64 <= x < 28 * 64
            &&& z is BackButton ==> on_row && 32 * 64 <= x < 56 * 64
            &&& z is ForwardButton ==> on_row && 60 * 64 <= x < 84 * 64
            &&& z is ReloadButton ==> on_row && 88 * 64 <= x < 112 * 64
            &&& z is UrlBar ==> 29 * 64 <= y < 51 * 64 && 116 * 64 <= x < l.url_bar_right()
            &&& z is TabItem || z is TabCloseButton || z is NewTabButton ==> 0 <= y < 26 * 64
            &&& z is AutocompleteSuggestion ==> 116 * 64 <= x < l.url_bar_right() && 55 * 64 <= y
                < (55 + 24 * l.dropdown_count) * 64
        }),
{
    let i = (y - 55 * 64) / 1536;
    if l.on_suggestion(x, y, i) {
        assert(i * 1536 <= (l.dropdown_count - 1) * 1536);
    }
}

} // verus!
