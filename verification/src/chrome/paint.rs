//! Painting the chrome: tab strip, buttons, URL bar, suggestions, and the
//! status dots.

use vstd::prelude::*;

use crate::chrome::geometry::{
    lemma_fitting_tabs, lemma_tab_rect, new_tab_rect, tab_rects, ChromeLayout, BACK_X, BTN_H, BTN_W,
    BTN_Y, CHROME_FONT_SIZE, CHROME_HEIGHT, DROPDOWN_PAD, FORWARD_X, HISTORY_X, NEW_TAB_W, RELOAD_X,
    STATUS_W, SUGGESTION_H, TAB_CLOSE_W, TAB_STRIP_HEIGHT, TAB_TEXT_PAD, URL_BAR_H, URL_BAR_X,
    URL_BAR_Y, URL_TEXT_PAD,
};
use crate::chrome::state::{ChromeState, ChromeView};
use crate::fit::{elide_to_width, elided, measures, measures_anything, url_cursor_x, x_at};
use crate::history::VisitView;
use crate::px::{half, Rect, MAX_EXTENT, PX};
use crate::scene::{
    area, drawn_if, filled, written, ChromePalette, Draw, DrawView, Icon, Rgba, Scene, TextStyle,
};
use crate::text::{byte_len, join3, on_boundary};

verus! {

/// Side of a toolbar icon.
pub const ICON_SIZE: i64 = 14 * PX;

/// What the strip shows of a tab.
#[derive(Debug, Clone)]
pub struct TabStripEntry {
    /// Its title, without characters that change the direction of text.
    pub title: String,
    /// Whether it is the visible tab.
    pub active: bool,
}

/// What a [`TabStripEntry`] says.
#[verifier::ext_equal]
pub struct TabView {
    pub title: Seq<char>,
    pub active: bool,
}

impl View for TabStripEntry {
    type V = TabView;

    open spec fn view(&self) -> TabView {
        TabView { title: self.title@, active: self.active }
    }
}

/// What stands on a toolbar button.
#[derive(Debug, Clone, Copy)]
pub enum ButtonContent<'a> {
    Text(&'a str),
    Icon(Icon),
}

/// What a [`ButtonContent`] shows.
pub enum ContentView {
    Text(Seq<char>),
    Icon(Icon),
}

impl<'a> View for ButtonContent<'a> {
    type V = ContentView;

    open spec fn view(&self) -> ContentView {
        match *self {
            ButtonContent::Text(t) => ContentView::Text(t@),
            ButtonContent::Icon(i) => ContentView::Icon(i),
        }
    }
}

/// Everything that the painted chrome depends on. `width` and `height` measure
/// text.
pub struct ChromePaintContext<'a, F, G> {
    /// The URL bar.
    pub state: &'a ChromeState,
    /// Width of the window.
    pub window_width: i64,
    /// Milliseconds that have passed, for what blinks and pulses.
    pub elapsed_ms: u64,
    /// Whether there is a page to go back to.
    pub can_go_back: bool,
    /// Whether there is a page to go forward to.
    pub can_go_forward: bool,
    /// The colours.
    pub palette: &'a ChromePalette,
    /// The open tabs, in their order.
    pub tabs: &'a [TabStripEntry],
    /// Whether the history sidebar is open.
    pub history_sidebar_open: bool,
    pub width: F,
    pub height: G,
}

/// What the painted chrome depends on.
pub struct ChromePicture {
    pub state: ChromeView,
    pub layout: ChromeLayout,
    pub elapsed_ms: int,
    pub can_go_back: bool,
    pub can_go_forward: bool,
    pub palette: ChromePalette,
    pub tabs: Seq<TabView>,
    pub sidebar_open: bool,
    pub w: spec_fn(Seq<char>, TextStyle) -> nat,
    pub h: spec_fn(Seq<char>, TextStyle) -> nat,
}

impl ChromePicture {
    pub open spec fn wide(self, t: Seq<char>) -> int {
        (self.w)(t, TextStyle::Chrome) as int
    }

    pub open spec fn tall(self, t: Seq<char>) -> int {
        (self.h)(t, TextStyle::Chrome) as int
    }

    /// A line of text in the chrome's style.
    pub open spec fn label(self, t: Seq<char>, x: int, y: int, color: Rgba) -> DrawView {
        written(t, TextStyle::Chrome, x, y, color)
    }

    /// Tab `i`: its background, its title, and its close button.
    pub open spec fn tab(self, i: int) -> Seq<DrawView> {
        let rect = self.layout.tab_rect(i);
        let tab = self.tabs[i];
        let room = rect.x1 - rect.x0 - TAB_TEXT_PAD * 2 - TAB_CLOSE_W;
        let title = elided(tab.title, room, TextStyle::Chrome, self.w);
        seq![
            DrawView::Fill {
                rect,
                color: if tab.active {
                    self.palette.tab_active_bg
                } else {
                    self.palette.tab_inactive_bg
                },
            },
            self.label(
                title,
                rect.x0 + TAB_TEXT_PAD,
                (TAB_STRIP_HEIGHT - self.tall(title)) / 2,
                if tab.active {
                    self.palette.tab_text
                } else {
                    self.palette.tab_text_inactive
                },
            ),
            self.label(
                "×"@,
                rect.x1 - TAB_CLOSE_W + (TAB_CLOSE_W - self.wide("×"@)) / 2,
                (TAB_STRIP_HEIGHT - self.tall("×"@)) / 2,
                self.palette.tab_close_glyph,
            ),
        ]
    }

    /// The first `n` tabs.
    pub open spec fn strip(self, n: int) -> Seq<DrawView>
        decreases n,
    {
        if n <= 0 {
            Seq::empty()
        } else {
            self.strip(n - 1) + self.tab(n - 1)
        }
    }

    /// The button behind the last tab.
    pub open spec fn new_tab(self) -> DrawView {
        self.label(
            "+"@,
            self.layout.visible_tabs() * self.layout.tab_width() + (NEW_TAB_W - self.wide("+"@))
                / 2,
            (TAB_STRIP_HEIGHT - self.tall("+"@)) / 2,
            self.palette.tab_text,
        )
    }

    /// The tabs that fit, and the button behind them.
    pub open spec fn tabs_and_button(self) -> Seq<DrawView> {
        self.strip(self.layout.visible_tabs()) + seq![self.new_tab()]
    }

    /// A toolbar button at `x`.
    pub open spec fn button(
        self,
        x: int,
        content: ContentView,
        bg: Rgba,
        color: Rgba,
        active: bool,
    ) -> Seq<DrawView> {
        seq![
            DrawView::FillRound {
                rect: area(x, BTN_Y as int, x + BTN_W, BTN_Y + BTN_H),
                radius: (3 * PX) as i64,
                color: bg,
            },
        ] + drawn_if(
            active,
            filled(
                x + 4 * PX,
                BTN_Y + BTN_H - 2 * PX,
                x + BTN_W - 4 * PX,
                BTN_Y + BTN_H,
                self.palette.url_border_focused,
            ),
        ) + seq![
            match content {
                ContentView::Text(t) => self.label(
                    t,
                    x + (BTN_W - self.wide(t)) / 2,
                    BTN_Y + (BTN_H - self.tall(t)) / 2,
                    color,
                ),
                ContentView::Icon(icon) => DrawView::Icon {
                    icon,
                    x: (x + (BTN_W - ICON_SIZE) / 2) as i64,
                    y: (BTN_Y + (BTN_H - ICON_SIZE) / 2) as i64,
                    size: ICON_SIZE,
                    color,
                },
            },
        ]
    }

    /// A button that is dimmed where it does nothing.
    pub open spec fn nav_button(self, x: int, icon: Icon, enabled: bool) -> Seq<DrawView> {
        if enabled {
            self.button(
                x,
                ContentView::Icon(icon),
                self.palette.btn_bg,
                self.palette.btn_text,
                false,
            )
        } else {
            self.button(
                x,
                ContentView::Icon(icon),
                self.palette.btn_bg_disabled,
                self.palette.btn_text_disabled,
                false,
            )
        }
    }

    /// The four buttons of the toolbar.
    pub open spec fn toolbar(self) -> Seq<DrawView> {
        self.button(
            HISTORY_X as int,
            ContentView::Icon(Icon::History),
            if self.sidebar_open {
                self.palette.tab_active_bg
            } else {
                self.palette.btn_bg
            },
            self.palette.btn_text,
            self.sidebar_open,
        ) + self.nav_button(BACK_X as int, Icon::Back, self.can_go_back) + self.button(
            RELOAD_X as int,
            ContentView::Icon(Icon::Reload),
            self.palette.btn_bg,
            self.palette.btn_text,
            false,
        ) + self.nav_button(FORWARD_X as int, Icon::Forward, self.can_go_forward)
    }

    /// How far the URL bar's text reaches up to byte `b`, in window
    /// coordinates.
    pub open spec fn x_of(self, b: int) -> int {
        URL_BAR_X + URL_TEXT_PAD + x_at(self.state.url, b, TextStyle::Chrome, self.w)
    }

    /// Top of the URL bar's text.
    pub open spec fn text_top(self) -> int {
        URL_BAR_Y + (URL_BAR_H - CHROME_FONT_SIZE) / 2 - PX
    }

    /// The URL bar without its contents.
    pub open spec fn url_frame(self) -> Seq<DrawView> {
        let rect = area(
            URL_BAR_X as int,
            URL_BAR_Y as int,
            self.layout.url_bar_right(),
            URL_BAR_Y + URL_BAR_H,
        );
        seq![
            DrawView::FillRound { rect, radius: (4 * PX) as i64, color: self.palette.url_bg },
            DrawView::OutlineRound {
                rect,
                radius: (4 * PX) as i64,
                width: PX,
                color: if self.state.focused {
                    self.palette.url_border_focused
                } else {
                    self.palette.url_border_idle
                },
            },
            DrawView::PushClip {
                rect: area(
                    URL_BAR_X + URL_TEXT_PAD,
                    URL_BAR_Y as int,
                    self.layout.url_bar_right() - URL_TEXT_PAD,
                    URL_BAR_Y + URL_BAR_H,
                ),
            },
        ]
    }

    /// The highlight of the selected part.
    pub open spec fn selection(self) -> Seq<DrawView> {
        match self.state.range() {
            Some((lo, hi)) => drawn_if(
                self.state.focused && lo < hi,
                filled(
                    self.x_of(lo),
                    URL_BAR_Y as int,
                    self.x_of(hi),
                    URL_BAR_Y + URL_BAR_H,
                    self.palette.select,
                ),
            ),
            None => Seq::empty(),
        }
    }

    /// The address and its completion, which is dimmed.
    pub open spec fn url_text(self) -> Seq<DrawView> {
        let left = URL_BAR_X + URL_TEXT_PAD;
        let used = if self.state.url.len() == 0 {
            0
        } else {
            self.wide(self.state.url)
        };
        drawn_if(
            self.state.url.len() > 0,
            self.label(self.state.url, left, self.text_top(), self.palette.url_text),
        ) + (match self.state.inline_completion {
            Some(t) => seq![
                DrawView::Text {
                    text: t,
                    style: TextStyle::Chrome,
                    x: (left + used) as i64,
                    y: self.text_top() as i64,
                    color: self.palette.url_text,
                    percent: 40,
                },
            ],
            None => Seq::empty(),
        })
    }

    /// The cursor, which is there every other half second.
    pub open spec fn caret(self) -> Seq<DrawView> {
        drawn_if(
            self.state.focused && self.elapsed_ms % 1000 < 500,
            filled(
                self.x_of(self.state.cursor),
                URL_BAR_Y + 3 * PX,
                self.x_of(self.state.cursor) + 96,
                URL_BAR_Y + URL_BAR_H - 3 * PX,
                self.palette.cursor,
            ),
        )
    }

    /// What the dropdown says of a suggestion.
    pub open spec fn suggestion_text(self, s: VisitView) -> Seq<char> {
        if s.title.len() == 0 {
            s.url
        } else {
            s.title + " - "@ + s.url
        }
    }

    /// Suggestion `i`: a background where it is picked or hovered, and its
    /// text.
    pub open spec fn suggestion(self, i: int) -> Seq<DrawView> {
        let top = URL_BAR_Y + URL_BAR_H + DROPDOWN_PAD + i * SUGGESTION_H;
        let rect = area(
            URL_BAR_X as int,
            top,
            self.layout.url_bar_right(),
            top + SUGGESTION_H,
        );
        let text = elided(
            self.suggestion_text(self.state.suggestions[i]),
            self.layout.url_bar_right() - URL_BAR_X - 16 * PX,
            TextStyle::Chrome,
            self.w,
        );
        (if self.state.selected_suggestion == Some(i) {
            seq![DrawView::Fill { rect, color: self.palette.select }]
        } else {
            drawn_if(
                self.state.hovered_suggestion == Some(i),
                DrawView::Fill { rect, color: self.palette.btn_bg },
            )
        }) + seq![
            self.label(
                text,
                URL_BAR_X + 8 * PX,
                top + (SUGGESTION_H - self.tall(text)) / 2,
                self.palette.url_text,
            ),
        ]
    }

    /// The first `n` suggestions.
    pub open spec fn suggestions(self, n: int) -> Seq<DrawView>
        decreases n,
    {
        if n <= 0 {
            Seq::empty()
        } else {
            self.suggestions(n - 1) + self.suggestion(n - 1)
        }
    }

    /// The suggestions below the URL bar, while it has the focus.
    pub open spec fn dropdown(self) -> Seq<DrawView> {
        let n = self.state.suggestions.len() as int;
        let rect = area(
            URL_BAR_X as int,
            URL_BAR_Y + URL_BAR_H,
            self.layout.url_bar_right(),
            URL_BAR_Y + URL_BAR_H + n * SUGGESTION_H + DROPDOWN_PAD * 2,
        );
        if self.state.focused && n > 0 {
            seq![
                DrawView::FillRound { rect, radius: (4 * PX) as i64, color: self.palette.bar_bg },
                DrawView::OutlineRound {
                    rect,
                    radius: (4 * PX) as i64,
                    width: PX,
                    color: self.palette.url_border_idle,
                },
            ] + self.suggestions(n)
        } else {
            Seq::empty()
        }
    }

    /// Pulsing dot `i` of three.
    pub open spec fn loading_dot(self, i: int) -> DrawView {
        DrawView::Dot {
            cx: (self.layout.window_width - STATUS_W / 2 - 12 * PX + i * 12 * PX) as i64,
            cy: (CHROME_HEIGHT / 2) as i64,
            radius: 224,
            color: Rgba {
                r: 120,
                g: 170,
                b: 255,
                a: if i == self.elapsed_ms / 300 % 3 {
                    255
                } else {
                    80
                },
            },
        }
    }

    /// Three pulsing dots while a page loads, else one steady dot.
    pub open spec fn status(self) -> Seq<DrawView> {
        if self.state.loading {
            seq![self.loading_dot(0), self.loading_dot(1), self.loading_dot(2)]
        } else {
            seq![
                DrawView::Dot {
                    cx: (self.layout.window_width - STATUS_W / 2) as i64,
                    cy: (CHROME_HEIGHT / 2) as i64,
                    radius: (5 * PX) as i64,
                    color: self.palette.ok_dot,
                },
            ]
        }
    }

    /// The backgrounds of the bar and of the strip.
    pub open spec fn backgrounds(self) -> Seq<DrawView> {
        let right = self.layout.window_width as int;
        seq![
            filled(0, 0, right, CHROME_HEIGHT as int, self.palette.bar_bg),
            filled(0, 0, right, TAB_STRIP_HEIGHT as int, self.palette.strip_bg),
        ]
    }

    /// The URL bar.
    pub open spec fn url_bar(self) -> Seq<DrawView> {
        self.url_frame() + self.selection() + self.url_text() + self.caret() + seq![
            DrawView::PopClip,
        ]
    }

    /// The whole chrome.
    pub open spec fn scene(self) -> Seq<DrawView> {
        self.backgrounds() + self.tabs_and_button() + self.toolbar() + self.url_bar()
            + self.dropdown() + self.status()
    }
}

/// What the tabs say.
pub open spec fn tab_views(tabs: Seq<TabStripEntry>) -> Seq<TabView> {
    tabs.map_values(|t: TabStripEntry| t@)
}

impl<
    'a,
    F: Fn(&str, TextStyle) -> u32 + Copy,
    G: Fn(&str, TextStyle) -> u32 + Copy,
> ChromePaintContext<'a, F, G> {
    /// The layout of what is painted.
    pub open spec fn laid_out(&self) -> ChromeLayout {
        ChromeLayout {
            window_width: self.window_width,
            tab_count: self.tabs@.len() as usize,
            dropdown_count: if self.state.focused {
                self.state.suggestions@.len() as usize
            } else {
                0
            },
        }
    }

    /// What the painted chrome depends on, where text is as large as `w` and
    /// `h` say.
    pub open spec fn picture(
        &self,
        w: spec_fn(Seq<char>, TextStyle) -> nat,
        h: spec_fn(Seq<char>, TextStyle) -> nat,
    ) -> ChromePicture {
        ChromePicture {
            state: self.state@,
            layout: self.laid_out(),
            elapsed_ms: self.elapsed_ms as int,
            can_go_back: self.can_go_back,
            can_go_forward: self.can_go_forward,
            palette: *self.palette,
            tabs: tab_views(self.tabs@),
            sidebar_open: self.history_sidebar_open,
            w,
            h,
        }
    }

    /// Whether text is as large as `w` and `h` say.
    pub open spec fn follows(
        &self,
        w: spec_fn(Seq<char>, TextStyle) -> nat,
        h: spec_fn(Seq<char>, TextStyle) -> nat,
    ) -> bool {
        measures(self.width, w) && measures(self.height, h)
    }

    /// Whether byte `b` of the address, if there is one, starts a character.
    pub open spec fn can_cut(&self, b: int) -> bool {
        b < byte_len(self.state@.url) ==> on_boundary(self.state@.url, b)
    }

    /// Whether the chrome can be painted: text can be measured, cursor and
    /// selection lie between characters, and nothing is absurdly large.
    pub open spec fn ready(&self) -> bool {
        &&& measures_anything(self.width)
        &&& measures_anything(self.height)
        &&& -MAX_EXTENT <= self.window_width <= MAX_EXTENT
        &&& self.state.suggestions@.len() <= 0xffff_ffff
        &&& self.state.focused ==> self.can_cut(self.state@.cursor)
        &&& self.state.focused && self.state@.has_range() ==> (self.state@.range() matches Some(
            (lo, hi),
        ) && self.can_cut(lo) && self.can_cut(hi))
    }

    fn layout(&self) -> (l: ChromeLayout)
        ensures
            l == self.laid_out(),
    {
        ChromeLayout {
            window_width: self.window_width,
            tab_count: self.tabs.len(),
            dropdown_count: if self.state.focused {
                self.state.suggestions.len()
            } else {
                0
            },
        }
    }

    /// Writes `text` in the chrome's style.
    fn write(&self, scene: &mut Scene, text: &str, x: i64, y: i64, color: Rgba)
        ensures
            final(scene)@ == old(scene)@.push(
                written(text@, TextStyle::Chrome, x as int, y as int, color),
            ),
    {
        scene.write(text.to_owned(), TextStyle::Chrome, x, y, color);
    }

    /// Paints a tab.
    fn paint_tab(&self, scene: &mut Scene, i: usize, rect: Rect)
        requires
            self.ready(),
            i < self.tabs@.len(),
            rect == self.laid_out().tab_rect(i as int),
            0 <= rect.x0 < rect.x1 <= MAX_EXTENT,
        ensures
            forall|
                w: spec_fn(Seq<char>, TextStyle) -> nat,
                h: spec_fn(Seq<char>, TextStyle) -> nat,
            | #[trigger]
                self.follows(w, h) ==> final(scene)@ == old(scene)@ + self.picture(w, h).tab(
                    i as int,
                ),
    {
        let palette = self.palette;
        let tab = &self.tabs[i];
        let (bg, color) = if tab.active {
            (palette.tab_active_bg, palette.tab_text)
        } else {
            (palette.tab_inactive_bg, palette.tab_text_inactive)
        };
        scene.push(Draw::Fill { rect, color: bg });
        let room: i64 = rect.x1 - rect.x0 - TAB_TEXT_PAD * 2 - TAB_CLOSE_W;
        let title = elide_to_width(tab.title.as_str(), room, TextStyle::Chrome, self.width);
        let tall = (self.height)(title.as_str(), TextStyle::Chrome) as i64;
        self.write(
            scene,
            title.as_str(),
            rect.x0 + TAB_TEXT_PAD,
            half(TAB_STRIP_HEIGHT - tall),
            color,
        );
        let cross_wide = (self.width)("×", TextStyle::Chrome) as i64;
        let cross_tall = (self.height)("×", TextStyle::Chrome) as i64;
        self.write(
            scene,
            "×",
            rect.x1 - TAB_CLOSE_W + half(TAB_CLOSE_W - cross_wide),
            half(TAB_STRIP_HEIGHT - cross_tall),
            palette.tab_close_glyph,
        );
        proof {
            assert(tab_views(self.tabs@)[i as int] == tab@);
            assert forall|
                w: spec_fn(Seq<char>, TextStyle) -> nat,
                h: spec_fn(Seq<char>, TextStyle) -> nat,
            | #[trigger]
                self.follows(w, h) implies scene@ == old(scene)@ + self.picture(w, h).tab(
                i as int,
            ) by {
                assert(scene@ =~= old(scene)@ + self.picture(w, h).tab(i as int));
            }
        }
    }

    /// Paints a toolbar button.
    fn paint_toolbar_button(
        &self,
        scene: &mut Scene,
        x: i64,
        content: ButtonContent<'_>,
        bg: Rgba,
        color: Rgba,
        active: bool,
    )
        requires
            self.ready(),
            0 <= x <= MAX_EXTENT,
        ensures
            forall|
                w: spec_fn(Seq<char>, TextStyle) -> nat,
                h: spec_fn(Seq<char>, TextStyle) -> nat,
            | #[trigger]
                self.follows(w, h) ==> final(scene)@ == old(scene)@ + self.picture(w, h).button(
                    x as int,
                    content@,
                    bg,
                    color,
                    active,
                ),
    {
        scene.push(
            Draw::FillRound {
                rect: Rect { x0: x, y0: BTN_Y, x1: x + BTN_W, y1: BTN_Y + BTN_H },
                radius: 3 * PX,
                color: bg,
            },
        );
        if active {
            scene.fill(
                x + 4 * PX,
                BTN_Y + BTN_H - 2 * PX,
                x + BTN_W - 4 * PX,
                BTN_Y + BTN_H,
                self.palette.url_border_focused,
            );
        }
        match content {
            ButtonContent::Text(label) => {
                let wide = (self.width)(label, TextStyle::Chrome) as i64;
                let tall = (self.height)(label, TextStyle::Chrome) as i64;
                self.write(
                    scene,
                    label,
                    x + half(BTN_W - wide),
                    BTN_Y + half(BTN_H - tall),
                    color,
                );
            },
            ButtonContent::Icon(icon) => {
                scene.push(
                    Draw::Icon {
                        icon,
                        x: x + (BTN_W - ICON_SIZE) / 2,
                        y: BTN_Y + (BTN_H - ICON_SIZE) / 2,
                        size: ICON_SIZE,
                        color,
                    },
                );
            },
        }
        proof {
            assert forall|
                w: spec_fn(Seq<char>, TextStyle) -> nat,
                h: spec_fn(Seq<char>, TextStyle) -> nat,
            | #[trigger]
                self.follows(w, h) implies scene@ == old(scene)@ + self.picture(w, h).button(
                x as int,
                content@,
                bg,
                color,
                active,
            ) by {
                assert(scene@ =~= old(scene)@ + self.picture(w, h).button(
                    x as int,
                    content@,
                    bg,
                    color,
                    active,
                ));
            }
        }
    }

    /// Paints a button that is dimmed where it does nothing.
    fn paint_nav_button(&self, scene: &mut Scene, x: i64, icon: Icon, enabled: bool)
        requires
            self.ready(),
            0 <= x <= MAX_EXTENT,
        ensures
            forall|
                w: spec_fn(Seq<char>, TextStyle) -> nat,
                h: spec_fn(Seq<char>, TextStyle) -> nat,
            | #[trigger]
                self.follows(w, h) ==> final(scene)@ == old(scene)@ + self.picture(
                    w,
                    h,
                ).nav_button(x as int, icon, enabled),
    {
        let (bg, color) = if enabled {
            (self.palette.btn_bg, self.palette.btn_text)
        } else {
            (self.palette.btn_bg_disabled, self.palette.btn_text_disabled)
        };
        self.paint_toolbar_button(scene, x, ButtonContent::Icon(icon), bg, color, false);
    }

    /// Paints the tabs that fit, and the button behind them.
    fn paint_strip(&self, scene: &mut Scene)
        requires
            self.ready(),
        ensures
            forall|
                w: spec_fn(Seq<char>, TextStyle) -> nat,
                h: spec_fn(Seq<char>, TextStyle) -> nat,
            | #[trigger]
                self.follows(w, h) ==> final(scene)@ == old(scene)@ + self.picture(
                    w,
                    h,
                ).tabs_and_button(),
    {
        let layout = self.layout();
        let rects = tab_rects(&layout);
        let ghost before = scene@;
        let mut i: usize = 0;
        proof {
            lemma_fitting_tabs(layout);
            assert(before + Seq::<DrawView>::empty() =~= before);
        }
        while i < rects.len()
            invariant
                self.ready(),
                layout == self.laid_out(),
                i <= rects@.len() == layout.visible_tabs(),
                layout.visible_tabs() <= self.tabs@.len(),
                forall|j: int|
                    0 <= j < rects@.len() ==> (#[trigger] rects@[j]).0 == j && rects@[j].1
                        == layout.tab_rect(j) && layout.tab_fits(j),
                forall|
                    w: spec_fn(Seq<char>, TextStyle) -> nat,
                    h: spec_fn(Seq<char>, TextStyle) -> nat,
                | #[trigger]
                    self.follows(w, h) ==> scene@ == before + self.picture(
                        w,
                        h,
                    ).strip(i as int),
            decreases rects.len() - i,
        {
            proof {
                assert(rects@[i as int].0 == i);
                lemma_tab_rect(layout, i as int);
            }
            self.paint_tab(scene, i, rects[i].1);
            proof {
                assert forall|
                w: spec_fn(Seq<char>, TextStyle) -> nat,
                h: spec_fn(Seq<char>, TextStyle) -> nat,
            | #[trigger]
                self.follows(w, h) implies scene@ == before + self.picture(
                    w,
                    h,
                ).strip(i + 1) by {
                    let p = self.picture(w, h);
                    assert(before + p.strip(i as int) + p.tab(i as int) =~= before + (p.strip(
                        i as int,
                    ) + p.tab(i as int)));
                }
            }
            i += 1;
        }
        let plus = new_tab_rect(&layout);
        let wide = (self.width)("+", TextStyle::Chrome) as i64;
        let tall = (self.height)("+", TextStyle::Chrome) as i64;
        self.write(
            scene,
            "+",
            plus.x0 + half(NEW_TAB_W - wide),
            half(TAB_STRIP_HEIGHT - tall),
            self.palette.tab_text,
        );
        proof {
            assert forall|
                w: spec_fn(Seq<char>, TextStyle) -> nat,
                h: spec_fn(Seq<char>, TextStyle) -> nat,
            | #[trigger]
                self.follows(w, h) implies scene@ == old(scene)@ + self.picture(
                w,
                h,
            ).tabs_and_button() by {
                assert(scene@ =~= old(scene)@ + self.picture(w, h).tabs_and_button());
            }
        }
    }

    /// Paints the four buttons of the toolbar.
    fn paint_toolbar(&self, scene: &mut Scene)
        requires
            self.ready(),
        ensures
            forall|
                w: spec_fn(Seq<char>, TextStyle) -> nat,
                h: spec_fn(Seq<char>, TextStyle) -> nat,
            | #[trigger]
                self.follows(w, h) ==> final(scene)@ == old(scene)@ + self.picture(
                    w,
                    h,
                ).toolbar(),
    {
        let bg = if self.history_sidebar_open {
            self.palette.tab_active_bg
        } else {
            self.palette.btn_bg
        };
        self.paint_toolbar_button(
            scene,
            HISTORY_X,
            ButtonContent::Icon(Icon::History),
            bg,
            self.palette.btn_text,
            self.history_sidebar_open,
        );
        self.paint_nav_button(scene, BACK_X, Icon::Back, self.can_go_back);
        self.paint_toolbar_button(
            scene,
            RELOAD_X,
            ButtonContent::Icon(Icon::Reload),
            self.palette.btn_bg,
            self.palette.btn_text,
            false,
        );
        self.paint_nav_button(scene, FORWARD_X, Icon::Forward, self.can_go_forward);
        proof {
            assert forall|
                w: spec_fn(Seq<char>, TextStyle) -> nat,
                h: spec_fn(Seq<char>, TextStyle) -> nat,
            | #[trigger]
                self.follows(w, h) implies scene@ == old(scene)@ + self.picture(
                w,
                h,
            ).toolbar() by {
                assert(scene@ =~= old(scene)@ + self.picture(w, h).toolbar());
            }
        }
    }

    /// Paints the selected part of the address.
    fn paint_selection(&self, scene: &mut Scene)
        requires
            self.ready(),
        ensures
            forall|
                w: spec_fn(Seq<char>, TextStyle) -> nat,
                h: spec_fn(Seq<char>, TextStyle) -> nat,
            | #[trigger]
                self.follows(w, h) ==> final(scene)@ == old(scene)@ + self.picture(
                    w,
                    h,
                ).selection(),
    {
        if self.state.focused {
            if let Some((lo, hi)) = self.state.selection_range() {
                if lo < hi {
                    let left: i64 = URL_BAR_X + URL_TEXT_PAD;
                    let url = self.state.url.as_str();
                    let x0 = url_cursor_x(url, lo, TextStyle::Chrome, self.width);
                    let x1 = url_cursor_x(url, hi, TextStyle::Chrome, self.width);
                    scene.fill(
                        left + x0,
                        URL_BAR_Y,
                        left + x1,
                        URL_BAR_Y + URL_BAR_H,
                        self.palette.select,
                    );
                }
            }
        }
        proof {
            assert forall|
                w: spec_fn(Seq<char>, TextStyle) -> nat,
                h: spec_fn(Seq<char>, TextStyle) -> nat,
            | #[trigger]
                self.follows(w, h) implies scene@ == old(scene)@ + self.picture(
                w,
                h,
            ).selection() by {
                assert(scene@ =~= old(scene)@ + self.picture(w, h).selection());
            }
        }
    }

    /// Paints the address and its completion.
    fn paint_url_text(&self, scene: &mut Scene)
        requires
            self.ready(),
        ensures
            forall|
                w: spec_fn(Seq<char>, TextStyle) -> nat,
                h: spec_fn(Seq<char>, TextStyle) -> nat,
            | #[trigger]
                self.follows(w, h) ==> final(scene)@ == old(scene)@ + self.picture(
                    w,
                    h,
                ).url_text(),
    {
        let left: i64 = URL_BAR_X + URL_TEXT_PAD;
        let top: i64 = URL_BAR_Y + (URL_BAR_H - CHROME_FONT_SIZE) / 2 - PX;
        let url = self.state.url.as_str();
        let mut used: i64 = 0;
        if url.unicode_len() > 0 {
            used = (self.width)(url, TextStyle::Chrome) as i64;
            self.write(scene, url, left, top, self.palette.url_text);
        }
        if let Some(rest) = &self.state.inline_completion {
            scene.push(
                Draw::Text {
                    text: rest.clone(),
                    style: TextStyle::Chrome,
                    x: left + used,
                    y: top,
                    color: self.palette.url_text,
                    percent: 40,
                },
            );
        }
        proof {
            assert forall|
                w: spec_fn(Seq<char>, TextStyle) -> nat,
                h: spec_fn(Seq<char>, TextStyle) -> nat,
            | #[trigger]
                self.follows(w, h) implies scene@ == old(scene)@ + self.picture(
                w,
                h,
            ).url_text() by {
                assert(scene@ =~= old(scene)@ + self.picture(w, h).url_text());
            }
        }
    }

    /// Paints the cursor, every other half second.
    fn paint_caret(&self, scene: &mut Scene)
        requires
            self.ready(),
        ensures
            forall|
                w: spec_fn(Seq<char>, TextStyle) -> nat,
                h: spec_fn(Seq<char>, TextStyle) -> nat,
            | #[trigger]
                self.follows(w, h) ==> final(scene)@ == old(scene)@ + self.picture(
                    w,
                    h,
                ).caret(),
    {
        if self.state.focused && self.elapsed_ms % 1000 < 500 {
            let at = url_cursor_x(
                self.state.url.as_str(),
                self.state.cursor,
                TextStyle::Chrome,
                self.width,
            );
            let x: i64 = URL_BAR_X + URL_TEXT_PAD + at;
            scene.fill(
                x,
                URL_BAR_Y + 3 * PX,
                x + 96,
                URL_BAR_Y + URL_BAR_H - 3 * PX,
                self.palette.cursor,
            );
        }
        proof {
            assert forall|
                w: spec_fn(Seq<char>, TextStyle) -> nat,
                h: spec_fn(Seq<char>, TextStyle) -> nat,
            | #[trigger]
                self.follows(w, h) implies scene@ == old(scene)@ + self.picture(
                w,
                h,
            ).caret() by {
                assert(scene@ =~= old(scene)@ + self.picture(w, h).caret());
            }
        }
    }

    /// Paints the URL bar.
    fn paint_url_bar(&self, scene: &mut Scene)
        requires
            self.ready(),
        ensures
            forall|
                w: spec_fn(Seq<char>, TextStyle) -> nat,
                h: spec_fn(Seq<char>, TextStyle) -> nat,
            | #[trigger]
                self.follows(w, h) ==> final(scene)@ == old(scene)@ + self.picture(
                    w,
                    h,
                ).url_bar(),
    {
        let right = self.layout().url_right();
        let rect = Rect { x0: URL_BAR_X, y0: URL_BAR_Y, x1: right, y1: URL_BAR_Y + URL_BAR_H };
        scene.push(Draw::FillRound { rect, radius: 4 * PX, color: self.palette.url_bg });
        scene.push(
            Draw::OutlineRound {
                rect,
                radius: 4 * PX,
                width: PX,
                color: if self.state.focused {
                    self.palette.url_border_focused
                } else {
                    self.palette.url_border_idle
                },
            },
        );
        scene.push(
            Draw::PushClip {
                rect: Rect {
                    x0: URL_BAR_X + URL_TEXT_PAD,
                    y0: URL_BAR_Y,
                    x1: right - URL_TEXT_PAD,
                    y1: URL_BAR_Y + URL_BAR_H,
                },
            },
        );
        self.paint_selection(scene);
        self.paint_url_text(scene);
        self.paint_caret(scene);
        scene.push(Draw::PopClip);
        proof {
            assert forall|
                w: spec_fn(Seq<char>, TextStyle) -> nat,
                h: spec_fn(Seq<char>, TextStyle) -> nat,
            | #[trigger]
                self.follows(w, h) implies scene@ == old(scene)@ + self.picture(
                w,
                h,
            ).url_bar() by {
                assert(scene@ =~= old(scene)@ + self.picture(w, h).url_bar());
            }
        }
    }

    /// Paints suggestion `i`.
    fn paint_suggestion(&self, scene: &mut Scene, i: usize)
        requires
            self.ready(),
            i < self.state.suggestions@.len(),
        ensures
            forall|
                w: spec_fn(Seq<char>, TextStyle) -> nat,
                h: spec_fn(Seq<char>, TextStyle) -> nat,
            | #[trigger]
                self.follows(w, h) ==> final(scene)@ == old(scene)@ + self.picture(
                    w,
                    h,
                ).suggestion(i as int),
    {
        let right = self.layout().url_right();
        let top: i64 = URL_BAR_Y + URL_BAR_H + DROPDOWN_PAD + i as i64 * SUGGESTION_H;
        let rect = Rect { x0: URL_BAR_X, y0: top, x1: right, y1: top + SUGGESTION_H };
        let suggestion = &self.state.suggestions[i];
        proof {
            assert(self.state@.suggestions[i as int] == suggestion@);
        }
        if self.state.selected_suggestion == Some(i) {
            scene.push(Draw::Fill { rect, color: self.palette.select });
        } else if self.state.hovered_suggestion == Some(i) {
            scene.push(Draw::Fill { rect, color: self.palette.btn_bg });
        }
        let text = if suggestion.title.as_str().unicode_len() == 0 {
            suggestion.url.clone()
        } else {
            join3(suggestion.title.as_str(), " - ", suggestion.url.as_str())
        };
        let shown = elide_to_width(
            text.as_str(),
            right - URL_BAR_X - 16 * PX,
            TextStyle::Chrome,
            self.width,
        );
        let tall = (self.height)(shown.as_str(), TextStyle::Chrome) as i64;
        self.write(
            scene,
            shown.as_str(),
            URL_BAR_X + 8 * PX,
            top + half(SUGGESTION_H - tall),
            self.palette.url_text,
        );
        proof {
            assert forall|
                w: spec_fn(Seq<char>, TextStyle) -> nat,
                h: spec_fn(Seq<char>, TextStyle) -> nat,
            | #[trigger]
                self.follows(w, h) implies scene@ == old(scene)@ + self.picture(
                w,
                h,
            ).suggestion(i as int) by {
                assert(scene@ =~= old(scene)@ + self.picture(w, h).suggestion(i as int));
            }
        }
    }

    /// Paints the suggestions, while the URL bar has the focus.
    fn paint_dropdown(&self, scene: &mut Scene)
        requires
            self.ready(),
        ensures
            forall|
                w: spec_fn(Seq<char>, TextStyle) -> nat,
                h: spec_fn(Seq<char>, TextStyle) -> nat,
            | #[trigger]
                self.follows(w, h) ==> final(scene)@ == old(scene)@ + self.picture(
                    w,
                    h,
                ).dropdown(),
    {
        let n = self.state.suggestions.len();
        let ghost before = scene@;
        if !self.state.focused || n == 0 {
            proof {
                assert(before + Seq::<DrawView>::empty() =~= before);
            }
            return;
        }
        let right = self.layout().url_right();
        let rect = Rect {
            x0: URL_BAR_X,
            y0: URL_BAR_Y + URL_BAR_H,
            x1: right,
            y1: URL_BAR_Y + URL_BAR_H + n as i64 * SUGGESTION_H + DROPDOWN_PAD * 2,
        };
        scene.push(Draw::FillRound { rect, radius: 4 * PX, color: self.palette.bar_bg });
        scene.push(
            Draw::OutlineRound {
                rect,
                radius: 4 * PX,
                width: PX,
                color: self.palette.url_border_idle,
            },
        );
        let ghost framed = scene@;
        let mut i: usize = 0;
        proof {
            assert(framed + Seq::<DrawView>::empty() =~= framed);
        }
        while i < n
            invariant
                self.ready(),
                i <= n == self.state.suggestions@.len(),
                forall|
                    w: spec_fn(Seq<char>, TextStyle) -> nat,
                    h: spec_fn(Seq<char>, TextStyle) -> nat,
                | #[trigger]
                    self.follows(w, h) ==> scene@ == framed + self.picture(
                        w,
                        h,
                    ).suggestions(i as int),
            decreases n - i,
        {
            self.paint_suggestion(scene, i);
            proof {
                assert forall|
                w: spec_fn(Seq<char>, TextStyle) -> nat,
                h: spec_fn(Seq<char>, TextStyle) -> nat,
            | #[trigger]
                self.follows(w, h) implies scene@ == framed + self.picture(
                    w,
                    h,
                ).suggestions(i + 1) by {
                    let p = self.picture(w, h);
                    assert(framed + p.suggestions(i as int) + p.suggestion(i as int) =~= framed + (
                    p.suggestions(i as int) + p.suggestion(i as int)));
                }
            }
            i += 1;
        }
        proof {
            assert(self.state@.suggestions.len() == n);
        }
        proof {
            assert forall|
                w: spec_fn(Seq<char>, TextStyle) -> nat,
                h: spec_fn(Seq<char>, TextStyle) -> nat,
            | #[trigger]
                self.follows(w, h) implies scene@ == old(scene)@ + self.picture(
                w,
                h,
            ).dropdown() by {
                assert(scene@ =~= old(scene)@ + self.picture(w, h).dropdown());
            }
        }
    }

    /// Paints a pulsing dot.
    fn paint_loading_dot(&self, scene: &mut Scene, i: u64)
        requires
            self.ready(),
            i < 3,
        ensures
            forall|
                w: spec_fn(Seq<char>, TextStyle) -> nat,
                h: spec_fn(Seq<char>, TextStyle) -> nat,
            | final(scene)@ == old(scene)@.push(
                    (#[trigger] self.picture(w, h)).loading_dot(i as int),
                ),
    {
        let a: u8 = if i == self.elapsed_ms / 300 % 3 {
            255
        } else {
            80
        };
        scene.push(
            Draw::Dot {
                cx: self.window_width - STATUS_W / 2 - 12 * PX + i as i64 * 12 * PX,
                cy: CHROME_HEIGHT / 2,
                radius: 224,
                color: Rgba { r: 120, g: 170, b: 255, a },
            },
        );
    }

    /// Paints the status: three pulsing dots while a page loads, else one.
    fn paint_status(&self, scene: &mut Scene)
        requires
            self.ready(),
        ensures
            forall|
                w: spec_fn(Seq<char>, TextStyle) -> nat,
                h: spec_fn(Seq<char>, TextStyle) -> nat,
            | #[trigger]
                self.follows(w, h) ==> final(scene)@ == old(scene)@ + self.picture(
                    w,
                    h,
                ).status(),
    {
        if self.state.loading {
            self.paint_loading_dot(scene, 0);
            self.paint_loading_dot(scene, 1);
            self.paint_loading_dot(scene, 2);
        } else {
            scene.push(
                Draw::Dot {
                    cx: self.window_width - STATUS_W / 2,
                    cy: CHROME_HEIGHT / 2,
                    radius: 5 * PX,
                    color: self.palette.ok_dot,
                },
            );
        }
        proof {
            assert forall|
                w: spec_fn(Seq<char>, TextStyle) -> nat,
                h: spec_fn(Seq<char>, TextStyle) -> nat,
            | #[trigger]
                self.follows(w, h) implies scene@ == old(scene)@ + self.picture(
                w,
                h,
            ).status() by {
                assert(scene@ =~= old(scene)@ + self.picture(w, h).status());
            }
        }
    }
}

/// Paints the chrome.
pub fn paint_chrome<
    F: Fn(&str, TextStyle) -> u32 + Copy,
    G: Fn(&str, TextStyle) -> u32 + Copy,
>(scene: &mut Scene, ctx: &ChromePaintContext<'_, F, G>)
    requires
        ctx.ready(),
    ensures
        forall|
            w: spec_fn(Seq<char>, TextStyle) -> nat,
            h: spec_fn(Seq<char>, TextStyle) -> nat,
        | #[trigger]
            ctx.follows(w, h) ==> final(scene)@ == old(scene)@ + ctx.picture(w, h).scene(),
{
    scene.fill(0, 0, ctx.window_width, CHROME_HEIGHT, ctx.palette.bar_bg);
    scene.fill(0, 0, ctx.window_width, TAB_STRIP_HEIGHT, ctx.palette.strip_bg);
    ctx.paint_strip(scene);
    ctx.paint_toolbar(scene);
    ctx.paint_url_bar(scene);
    ctx.paint_dropdown(scene);
    ctx.paint_status(scene);
    proof {
        assert forall|
            w: spec_fn(Seq<char>, TextStyle) -> nat,
            h: spec_fn(Seq<char>, TextStyle) -> nat,
        | #[trigger]
            ctx.follows(w, h) implies scene@ == old(scene)@ + ctx.picture(w, h).scene() by {
            let p = ctx.picture(w, h);
            assert(scene@ =~= old(scene)@ + p.scene());
        }
    }
}

} // verus!
