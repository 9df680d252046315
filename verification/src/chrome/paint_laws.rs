//! What the chrome shows. Lengths are in 64ths of a pixel.

use vstd::prelude::*;

use crate::chrome::paint::{ChromePaintContext, ChromePicture, ContentView};
use crate::fit::{elided, x_at};
use crate::history::VisitView;
use crate::scene::{DrawView, Icon, Rgba, TextStyle};

verus! {

/// This many pixels.
pub open spec fn px(n: int) -> int {
    64 * n
}

/// Whether a rectangle of this colour is filled from `x0`, `y0` to `x1`, `y1`.
pub open spec fn fills(d: DrawView, x0: int, y0: int, x1: int, y1: int, c: Rgba) -> bool {
    d matches DrawView::Fill { rect, color } && color == c && rect.x0 == x0 as i64 && rect.y0
        == y0 as i64 && rect.x1 == x1 as i64 && rect.y1 == y1 as i64
}

/// Whether the same is done with rounded corners.
pub open spec fn fills_round(
    d: DrawView,
    x0: int,
    y0: int,
    x1: int,
    y1: int,
    r: int,
    c: Rgba,
) -> bool {
    d matches DrawView::FillRound { rect, radius, color } && color == c && radius == r && rect.x0
        == x0 as i64 && rect.y0 == y0 as i64 && rect.x1 == x1 as i64 && rect.y1 == y1 as i64
}

/// Whether the same is outlined, one pixel wide.
pub open spec fn outlines_round(
    d: DrawView,
    x0: int,
    y0: int,
    x1: int,
    y1: int,
    r: int,
    c: Rgba,
) -> bool {
    d matches DrawView::OutlineRound { rect, radius, width, color } && color == c && radius == r
        && width == 64 && rect.x0 == x0 as i64 && rect.y0 == y0 as i64 && rect.x1 == x1 as i64
        && rect.y1 == y1 as i64
}

/// Whether a text is written at a point, with the given share of its opacity.
pub open spec fn writes(
    d: DrawView,
    t: Seq<char>,
    s: TextStyle,
    at_x: int,
    at_y: int,
    c: Rgba,
    share: u8,
) -> bool {
    d matches DrawView::Text { text, style, x, y, color, percent } && text == t && style == s
        && color == c && percent == share && x == at_x as i64 && y == at_y as i64
}

/// How wide and how tall a text of the chrome is.
pub open spec fn wide(q: ChromePicture, t: Seq<char>) -> int {
    (q.w)(t, TextStyle::Chrome) as int
}

pub open spec fn tall(q: ChromePicture, t: Seq<char>) -> int {
    (q.h)(t, TextStyle::Chrome) as int
}

/// A tab is filled with the colour of its state and shows as much of its title
/// as fits beside the cross that closes it.
pub proof fn law_tabs_show_their_title(q: ChromePicture, i: int)
    requires
        0 <= i,
        (i + 1) * q.layout.tab_width() <= i64::MAX,
    ensures
        ({
            let w = q.layout.tab_width();
            let active = q.tabs[i].active;
            let title = elided(q.tabs[i].title, w - px(28), TextStyle::Chrome, q.w);
            &&& q.tab(i).len() == 3
            &&& fills(
                q.tab(i)[0],
                i * w,
                0,
                (i + 1) * w,
                px(26),
                if active {
                    q.palette.tab_active_bg
                } else {
                    q.palette.tab_inactive_bg
                },
            )
            &&& writes(
                q.tab(i)[1],
                title,
                TextStyle::Chrome,
                i * w + px(6),
                (px(26) - tall(q, title)) / 2,
                if active {
                    q.palette.tab_text
                } else {
                    q.palette.tab_text_inactive
                },
                100,
            )
            &&& writes(
                q.tab(i)[2],
                seq!['×'],
                TextStyle::Chrome,
                (i + 1) * w - px(16) + (px(16) - wide(q, seq!['×'])) / 2,
                (px(26) - tall(q, seq!['×'])) / 2,
                q.palette.tab_close_glyph,
                100,
            )
        }),
{
    reveal_strlit("×");
    assert("×"@ =~= seq!['×']);
    let w = q.layout.tab_width();
    assert(0 <= i * w && i * w + w == (i + 1) * w) by (nonlinear_arith)
        requires
            0 <= i,
            w > 0,
    ;
}

proof fn lemma_strip(q: ChromePicture, n: int, i: int)
    requires
        0 <= i < n,
    ensures
        q.strip(n).len() == 3 * n,
        q.strip(n).subrange(3 * i, 3 * i + 3) == q.tab(i),
    decreases n,
{
    let all = q.strip(n);
    let init = q.strip(n - 1);
    if n > 1 {
        lemma_strip(q, n - 1, if i < n - 1 {
            i
        } else {
            0
        });
    }
    if i < n - 1 {
        assert(all.subrange(3 * i, 3 * i + 3) =~= init.subrange(3 * i, 3 * i + 3));
    } else {
        assert(all.subrange(3 * i, 3 * i + 3) =~= q.tab(i));
    }
}

/// Every tab that fits is painted, in order, and behind them the button for a
/// new one.
pub proof fn law_every_tab_that_fits_is_painted(q: ChromePicture, i: int)
    requires
        0 <= i < q.layout.visible_tabs(),
    ensures
        ({
            let n = q.layout.visible_tabs();
            let part = q.tabs_and_button();
            &&& part.len() == 3 * n + 1
            &&& part.subrange(3 * i, 3 * i + 3) == q.tab(i)
            &&& writes(
                part[3 * n],
                seq!['+'],
                TextStyle::Chrome,
                n * q.layout.tab_width() + (px(24) - wide(q, seq!['+'])) / 2,
                (px(26) - tall(q, seq!['+'])) / 2,
                q.palette.tab_text,
                100,
            )
        }),
{
    reveal_strlit("+");
    assert("+"@ =~= seq!['+']);
    let n = q.layout.visible_tabs();
    lemma_strip(q, n, i);
    assert(q.tabs_and_button().subrange(3 * i, 3 * i + 3) =~= q.strip(n).subrange(
        3 * i,
        3 * i + 3,
    ));
}

/// Whether a button of the toolbar is painted at `x`: its face, and its icon in
/// the middle.
pub open spec fn button_at(d: Seq<DrawView>, x: int, i: Icon, face: Rgba, ink: Rgba) -> bool {
    &&& d.len() >= 2
    &&& fills_round(d[0], x, px(30), x + px(24), px(50), px(3), face)
    &&& d.last() matches DrawView::Icon { icon, x: ix, y, size, color } && icon == i && size == px(14) && color == ink && ix == (x + px(5)) as i64 && y == px(33)
}

/// The toolbar shows the buttons for the history, for going back, for loading
/// again and for going forward. Those that lead nowhere are greyed out, and that
/// of the history is marked while its list is open.
pub proof fn law_the_toolbar_shows_its_buttons(q: ChromePicture)
    ensures
        ({
            let t = q.toolbar();
            let p = q.palette;
            let a = if q.sidebar_open {
                3int
            } else {
                2int
            };
            &&& t.len() == a + 6
            &&& button_at(
                t.take(a),
                px(4),
                Icon::History,
                if q.sidebar_open {
                    p.tab_active_bg
                } else {
                    p.btn_bg
                },
                p.btn_text,
            )
            &&& q.sidebar_open ==> fills(
                t[1],
                px(8),
                px(48),
                px(24),
                px(50),
                p.url_border_focused,
            )
            &&& button_at(
                t.subrange(a, a + 2),
                px(32),
                Icon::Back,
                if q.can_go_back {
                    p.btn_bg
                } else {
                    p.btn_bg_disabled
                },
                if q.can_go_back {
                    p.btn_text
                } else {
                    p.btn_text_disabled
                },
            )
            &&& button_at(t.subrange(a + 2, a + 4), px(88), Icon::Reload, p.btn_bg, p.btn_text)
            &&& button_at(
                t.subrange(a + 4, a + 6),
                px(60),
                Icon::Forward,
                if q.can_go_forward {
                    p.btn_bg
                } else {
                    p.btn_bg_disabled
                },
                if q.can_go_forward {
                    p.btn_text
                } else {
                    p.btn_text_disabled
                },
            )
        }),
{
    let t = q.toolbar();
    let a = if q.sidebar_open {
        3int
    } else {
        2int
    };
    let one = q.button(
        px(4),
        ContentView::Icon(Icon::History),
        if q.sidebar_open {
            q.palette.tab_active_bg
        } else {
            q.palette.btn_bg
        },
        q.palette.btn_text,
        q.sidebar_open,
    );
    let two = q.nav_button(px(32), Icon::Back, q.can_go_back);
    let three = q.button(
        px(88),
        ContentView::Icon(Icon::Reload),
        q.palette.btn_bg,
        q.palette.btn_text,
        false,
    );
    let four = q.nav_button(px(60), Icon::Forward, q.can_go_forward);
    assert(t == one + two + three + four);
    assert(one.len() == a && two.len() == 2 && three.len() == 2 && four.len() == 2);
    assert(t.take(a) =~= one);
    assert(t.subrange(a, a + 2) =~= two);
    assert(t.subrange(a + 2, a + 4) =~= three);
    assert(t.subrange(a + 4, a + 6) =~= four);
}

/// The address stands in the bar, and behind it, paler, what would complete it.
pub proof fn law_the_address_is_shown(q: ChromePicture)
    ensures
        ({
            let t = q.url_text();
            let url = q.state.url;
            let n = if url.len() > 0 {
                1int
            } else {
                0int
            };
            let used = if url.len() > 0 {
                wide(q, url)
            } else {
                0
            };
            &&& t.len() == n + (if q.state.inline_completion is Some {
                1int
            } else {
                0int
            })
            &&& url.len() > 0 ==> writes(
                t[0],
                url,
                TextStyle::Chrome,
                px(120),
                px(33),
                q.palette.url_text,
                100,
            )
            &&& q.state.inline_completion is Some ==> writes(
                t[n],
                q.state.inline_completion->0,
                TextStyle::Chrome,
                px(120) + used,
                px(33),
                q.palette.url_text,
                40,
            )
        }),
{
}

/// Where byte `b` of the address is painted.
pub open spec fn place(q: ChromePicture, b: int) -> int {
    px(120) + x_at(q.state.url, b, TextStyle::Chrome, q.w)
}

/// The caret stands at the cursor in the first half of every second, and only
/// while the bar has the focus.
pub proof fn law_the_caret_blinks_at_the_cursor(q: ChromePicture)
    ensures
        !q.state.focused ==> q.caret().len() == 0,
        q.elapsed_ms % 1000 >= 500 ==> q.caret().len() == 0,
        q.state.focused && q.elapsed_ms % 1000 < 500 ==> q.caret().len() == 1 && fills(
            q.caret()[0],
            place(q, q.state.cursor),
            px(32),
            place(q, q.state.cursor) + 96,
            px(48),
            q.palette.cursor,
        ),
{
}

/// What is selected is marked from its first to its last byte, whichever way it
/// was selected, and only while the bar has the focus.
pub proof fn law_the_selection_is_marked(q: ChromePicture, a: int, b: int)
    requires
        q.state.selection == Some((a, b)),
    ensures
        !q.state.focused || a == b ==> q.selection().len() == 0,
        q.state.focused && a < b ==> q.selection().len() == 1 && fills(
            q.selection()[0],
            place(q, a),
            px(29),
            place(q, b),
            px(51),
            q.palette.select,
        ),
        q.state.focused && b < a ==> q.selection().len() == 1 && fills(
            q.selection()[0],
            place(q, b),
            px(29),
            place(q, a),
            px(51),
            q.palette.select,
        ),
{
}

/// The bar is framed, with the colour of its focus, and nothing in it is painted
/// beyond its margins.
pub proof fn law_the_bar_is_framed(q: ChromePicture)
    ensures
        ({
            let f = q.url_frame();
            let right = q.layout.url_bar_right();
            &&& f.len() == 3
            &&& fills_round(f[0], px(116), px(29), right, px(51), px(4), q.palette.url_bg)
            &&& outlines_round(
                f[1],
                px(116),
                px(29),
                right,
                px(51),
                px(4),
                if q.state.focused {
                    q.palette.url_border_focused
                } else {
                    q.palette.url_border_idle
                },
            )
            &&& f[2] matches DrawView::PushClip { rect } && rect.x0 == px(120) && rect.y0 == px(29) && rect.x1 == (right - px(4)) as i64 && rect.y1 == px(51)
        }),
        q.selection().len() > 0 ==> q.url_bar()[3] == q.selection()[0],
        q.url_bar().last() == DrawView::PopClip,
{
}

/// How a suggestion reads: its title and its address, or the address alone where
/// it has no title.
pub open spec fn reads(v: VisitView) -> Seq<char> {
    if v.title.len() > 0 {
        v.title + seq![' ', '-', ' '] + v.url
    } else {
        v.url
    }
}

/// A suggestion shows as much of its text as fits, on a ground of its own where
/// it is picked or, else, where the pointer is on it.
pub proof fn law_suggestions_are_shown(q: ChromePicture, i: int)
    ensures
        ({
            let s = q.suggestion(i);
            let right = q.layout.url_bar_right();
            let top = px(55) + px(24 * i);
            let text = elided(
                reads(q.state.suggestions[i]),
                right - px(132),
                TextStyle::Chrome,
                q.w,
            );
            let picked = q.state.selected_suggestion == Some(i);
            let under = q.state.hovered_suggestion == Some(i);
            &&& s.len() == if picked || under {
                2nat
            } else {
                1
            }
            &&& picked ==> fills(s[0], px(116), top, right, top + px(24), q.palette.select)
            &&& under && !picked ==> fills(
                s[0],
                px(116),
                top,
                right,
                top + px(24),
                q.palette.btn_bg,
            )
            &&& writes(
                s.last(),
                text,
                TextStyle::Chrome,
                px(124),
                top + (px(24) - tall(q, text)) / 2,
                q.palette.url_text,
                100,
            )
        }),
{
    reveal_strlit(" - ");
    assert(" - "@ =~= seq![' ', '-', ' ']);
}

/// The dropdown is open only while the bar has the focus and there are
/// suggestions; it then shows all of them, in order, on a ground that holds
/// them.
pub proof fn law_the_dropdown_shows_every_suggestion(q: ChromePicture, i: int) -> (from: int)
    ensures
        ({
            let n = q.state.suggestions.len() as int;
            let right = q.layout.url_bar_right();
            &&& !q.state.focused || n == 0 ==> q.dropdown().len() == 0
            &&& q.state.focused && n > 0 ==> {
                let d = q.dropdown();
                let bottom = px(51) + px(24 * n) + px(8);
                &&& d.len() > 2
                &&& fills_round(d[0], px(116), px(51), right, bottom, px(4), q.palette.bar_bg)
                &&& outlines_round(
                    d[1],
                    px(116),
                    px(51),
                    right,
                    bottom,
                    px(4),
                    q.palette.url_border_idle,
                )
                &&& 0 <= i < n ==> 2 <= from && from + q.suggestion(i).len() <= d.len()
                    && d.subrange(from, from + q.suggestion(i).len()) == q.suggestion(i)
            }
        }),
{
    let n = q.state.suggestions.len() as int;
    if q.state.focused && n > 0 {
        if 0 <= i < n {
            let f = lemma_suggestions(q, n, i);
            let d = q.dropdown();
            let list = q.suggestions(n);
            assert(d.subrange(2 + f, 2 + f + q.suggestion(i).len()) =~= list.subrange(
                f,
                f + q.suggestion(i).len(),
            ));
            2 + f
        } else {
            let f = lemma_suggestions(q, n, 0);
            0
        }
    } else {
        0
    }
}

proof fn lemma_suggestions(q: ChromePicture, n: int, i: int) -> (from: int)
    requires
        0 <= i < n,
    ensures
        0 <= from,
        from + q.suggestion(i).len() <= q.suggestions(n).len(),
        q.suggestions(n).subrange(from, from + q.suggestion(i).len()) == q.suggestion(i),
        q.suggestions(n).len() > 0,
    decreases n,
{
    let all = q.suggestions(n);
    let init = q.suggestions(n - 1);
    assert(q.suggestion(n - 1).len() > 0);
    if i < n - 1 {
        let f = lemma_suggestions(q, n - 1, i);
        assert(all.subrange(f, f + q.suggestion(i).len()) =~= init.subrange(
            f,
            f + q.suggestion(i).len(),
        ));
        f
    } else {
        let f = init.len() as int;
        assert(all.subrange(f, f + q.suggestion(i).len()) =~= q.suggestion(i));
        f
    }
}

/// While a page loads three dots stand side by side, of which one is bright, the
/// next every 300 milliseconds; else one dot says that it is there.
pub proof fn law_the_status_says_whether_a_page_loads(q: ChromePicture, i: int)
    ensures
        ({
            let s = q.status();
            let x = q.layout.window_width - px(20);
            &&& q.state.loading ==> s.len() == 3
            &&& q.state.loading && 0 <= i < 3 ==> (s[i] matches DrawView::Dot {
                cx,
                cy,
                radius,
                color,
            } && cx == (x - px(12) + px(12 * i)) as i64 && cy == px(27) && radius == 224
                && color.r == 120 && color.g == 170 && color.b == 255 && (color.a == 255 <==> i
                == q.elapsed_ms / 300 % 3) && (color.a == 80 <==> i != q.elapsed_ms / 300 % 3))
            &&& !q.state.loading ==> s.len() == 1 && (s[0] matches DrawView::Dot {
                cx,
                cy,
                radius,
                color,
            } && cx == x as i64 && cy == px(27) && radius == px(5) && color == q.palette.ok_dot)
        }),
{
}

/// What the chrome shows: its ground and that of the tab strip, the tabs, the
/// toolbar, the bar, the dropdown and the status, later ones over earlier ones.
pub proof fn law_the_chrome_shows_all_its_parts(q: ChromePicture)
    ensures
        ({
            let s = q.scene();
            let a = 2 + q.tabs_and_button().len() as int;
            let b = a + q.toolbar().len();
            let c = b + q.url_bar().len();
            let d = c + q.dropdown().len();
            let right = q.layout.window_width as int;
            &&& fills(s[0], 0, 0, right, px(54), q.palette.bar_bg)
            &&& fills(s[1], 0, 0, right, px(26), q.palette.strip_bg)
            &&& s.subrange(2, a) == q.tabs_and_button()
            &&& s.subrange(a, b) == q.toolbar()
            &&& s.subrange(b, c) == q.url_bar()
            &&& s.subrange(c, d) == q.dropdown()
            &&& s.skip(d) == q.status()
        }),
        q.url_bar() == q.url_frame() + q.selection() + q.url_text() + q.caret() + seq![
            DrawView::PopClip,
        ],
{
    let s = q.scene();
    let a = 2 + q.tabs_and_button().len() as int;
    let b = a + q.toolbar().len();
    let c = b + q.url_bar().len();
    let d = c + q.dropdown().len();
    assert(s.subrange(2, a) =~= q.tabs_and_button());
    assert(s.subrange(a, b) =~= q.toolbar());
    assert(s.subrange(b, c) =~= q.url_bar());
    assert(s.subrange(c, d) =~= q.dropdown());
    assert(s.skip(d) =~= q.status());
}

/// What is painted is the bar, the tabs and the window that were given; the
/// dropdown has a row for every suggestion while the bar has the focus.
pub proof fn law_the_given_chrome_is_painted<
    F: Fn(&str, TextStyle) -> u32 + Copy,
    G: Fn(&str, TextStyle) -> u32 + Copy,
>(
    ctx: ChromePaintContext<'_, F, G>,
    w: spec_fn(Seq<char>, TextStyle) -> nat,
    h: spec_fn(Seq<char>, TextStyle) -> nat,
    i: int,
)
    ensures
        ({
            let q = ctx.picture(w, h);
            &&& q.state == ctx.state@ && q.palette == *ctx.palette && q.elapsed_ms
                == ctx.elapsed_ms
            &&& q.can_go_back == ctx.can_go_back && q.can_go_forward == ctx.can_go_forward
            &&& q.sidebar_open == ctx.history_sidebar_open
            &&& q.w == w && q.h == h
            &&& q.tabs.len() == ctx.tabs@.len()
            &&& 0 <= i < ctx.tabs@.len() ==> q.tabs[i].title == ctx.tabs@[i].title@
                && q.tabs[i].active == ctx.tabs@[i].active
            &&& q.layout.window_width == ctx.window_width
            &&& ctx.tabs@.len() <= usize::MAX ==> q.layout.tab_count == ctx.tabs@.len()
            &&& !ctx.state.focused ==> q.layout.dropdown_count == 0
            &&& ctx.state.focused && ctx.state.suggestions@.len() <= usize::MAX
                ==> q.layout.dropdown_count == ctx.state.suggestions@.len()
        }),
{
}

} // verus!
