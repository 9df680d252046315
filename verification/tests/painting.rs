//! What the chrome and the history sidebar paint.

use mizu_render::chrome::geometry::{
    BACK_X, BTN_H, BTN_W, BTN_Y, CHROME_HEIGHT, FORWARD_X, HISTORY_X, RELOAD_X, STATUS_W,
    TAB_MAX_W, TAB_STRIP_HEIGHT, URL_BAR_H, URL_BAR_X, URL_BAR_Y, URL_TEXT_PAD,
};
use mizu_render::chrome::paint::{paint_chrome, ChromePaintContext, TabStripEntry, ICON_SIZE};
use mizu_render::chrome::state::ChromeState;
use mizu_render::history::{DayGroup, HistoryLog, VisitRecord};
use mizu_render::history_sidebar::paint::{paint_history_sidebar, SidebarPaintContext};
use mizu_render::history_sidebar::{
    clear_button_rect, hovered_entry, layout_rows, panel_right, GROUP_ROW_H, HEADER_HEIGHT, HPAD,
    ROW_H, SIDEBAR_WIDTH,
};
use mizu_render::px::Rect;
use mizu_render::scene::{faded, ChromePalette, Draw, Icon, Rgba, Scene, TextStyle};

fn px(v: i64) -> i64 {
    v * 64
}

/// A palette in which every colour is another.
fn palette() -> ChromePalette {
    let c = |r: u8| Rgba { r, g: 0, b: 0, a: 255 };
    ChromePalette {
        bar_bg: c(1),
        strip_bg: c(2),
        tab_active_bg: c(3),
        tab_inactive_bg: c(4),
        tab_text: c(5),
        tab_text_inactive: c(6),
        tab_close_glyph: c(7),
        btn_bg: c(8),
        btn_text: c(9),
        btn_bg_disabled: c(10),
        btn_text_disabled: c(11),
        url_bg: c(12),
        url_border_focused: c(13),
        url_border_idle: c(14),
        url_text: c(15),
        select: c(16),
        cursor: c(17),
        ok_dot: c(18),
        err_text: c(19),
    }
}

/// Seven pixels for every character.
fn wide(text: &str, _style: TextStyle) -> u32 {
    text.chars().count() as u32 * 448
}

/// Twelve pixels for every line.
fn tall(_text: &str, _style: TextStyle) -> u32 {
    768
}

fn rect(x0: i64, y0: i64, x1: i64, y1: i64) -> Rect {
    Rect { x0, y0, x1, y1 }
}

fn shows(scene: &Scene, want: Draw) {
    let want = format!("{want:?}");
    assert!(
        scene.items.iter().any(|d| format!("{d:?}") == want),
        "{want} is not in {:#?}",
        scene.items
    );
}

fn texts(scene: &Scene) -> Vec<String> {
    scene
        .items
        .iter()
        .filter_map(|d| match d {
            Draw::Text { text, .. } => Some(text.clone()),
            _ => None,
        })
        .collect()
}

fn painted(state: &ChromeState, elapsed_ms: u64, tabs: &[TabStripEntry]) -> Scene {
    let palette = palette();
    let mut scene = Scene::new();
    paint_chrome(
        &mut scene,
        &ChromePaintContext {
            state,
            window_width: px(800),
            elapsed_ms,
            can_go_back: true,
            can_go_forward: false,
            palette: &palette,
            tabs,
            history_sidebar_open: true,
            width: wide,
            height: tall,
        },
    );
    scene
}

fn tab(title: &str, active: bool) -> TabStripEntry {
    TabStripEntry { title: title.to_string(), active }
}

#[test]
fn the_chrome_of_an_idle_window() {
    let state = ChromeState { url: "mizu://host".to_string(), cursor: 3, ..Default::default() };
    let scene = painted(&state, 0, &[tab("Home", true), tab(&"long ".repeat(9), false)]);
    let p = palette();
    let first = format!(
        "{:?}",
        Draw::Fill { rect: rect(0, 0, px(800), CHROME_HEIGHT), color: p.bar_bg }
    );
    assert_eq!(format!("{:?}", scene.items[0]), first);
    shows(&scene, Draw::Fill { rect: rect(0, 0, px(800), TAB_STRIP_HEIGHT), color: p.strip_bg });
    shows(&scene, Draw::Fill {
        rect: rect(0, 0, TAB_MAX_W, TAB_STRIP_HEIGHT),
        color: p.tab_active_bg,
    });
    shows(&scene, Draw::Text {
        text: "Home".to_string(),
        style: TextStyle::Chrome,
        x: px(6),
        y: px(7),
        color: p.tab_text,
        percent: 100,
    });
    // 172 pixels are room for 24 characters, the last of them the mark.
    assert_eq!(
        texts(&scene),
        vec!["Home", "×", "long long long long lon…", "×", "+", "mizu://host"]
    );
    shows(&scene, Draw::Dot {
        cx: px(800) - STATUS_W / 2,
        cy: CHROME_HEIGHT / 2,
        radius: px(5),
        color: p.ok_dot,
    });
}

#[test]
fn toolbar_buttons_say_what_they_can_do() {
    let scene = painted(&ChromeState::default(), 0, &[tab("a", true)]);
    let p = palette();
    let button = |x: i64, color: Rgba| Draw::FillRound {
        rect: rect(x, BTN_Y, x + BTN_W, BTN_Y + BTN_H),
        radius: px(3),
        color,
    };
    let icon = |x: i64, icon: Icon, color: Rgba| Draw::Icon {
        icon,
        x: x + px(5),
        y: BTN_Y + px(3),
        size: ICON_SIZE,
        color,
    };
    shows(&scene, button(HISTORY_X, p.tab_active_bg));
    shows(&scene, button(BACK_X, p.btn_bg));
    shows(&scene, button(RELOAD_X, p.btn_bg));
    shows(&scene, button(FORWARD_X, p.btn_bg_disabled));
    shows(&scene, icon(HISTORY_X, Icon::History, p.btn_text));
    shows(&scene, icon(BACK_X, Icon::Back, p.btn_text));
    shows(&scene, icon(RELOAD_X, Icon::Reload, p.btn_text));
    shows(&scene, icon(FORWARD_X, Icon::Forward, p.btn_text_disabled));
    shows(&scene, Draw::Fill {
        rect: rect(
            HISTORY_X + px(4),
            BTN_Y + BTN_H - px(2),
            HISTORY_X + BTN_W - px(4),
            BTN_Y + BTN_H,
        ),
        color: p.url_border_focused,
    });
}

#[test]
fn a_focused_bar_shows_selection_cursor_and_suggestions() {
    let mut state = ChromeState {
        url: "mizu://ho".to_string(),
        cursor: 9,
        focused: true,
        selection: Some((9, 7)),
        inline_completion: Some("st".to_string()),
        selected_suggestion: Some(0),
        hovered_suggestion: Some(1),
        ..Default::default()
    };
    state.suggestions.push(VisitRecord::new("mizu://host".to_string(), "Host".to_string()));
    state.suggestions.push(VisitRecord::new("mizu://hot".to_string(), String::new()));
    let p = palette();
    let scene = painted(&state, 499, &[tab("a", true)]);
    let left = URL_BAR_X + URL_TEXT_PAD;
    shows(&scene, Draw::Fill {
        rect: rect(left + px(49), URL_BAR_Y, left + px(63), URL_BAR_Y + URL_BAR_H),
        color: p.select,
    });
    let caret = Draw::Fill {
        rect: rect(left + px(63), URL_BAR_Y + px(3), left + px(63) + 96, URL_BAR_Y + px(19)),
        color: p.cursor,
    };
    shows(&scene, caret.clone());
    shows(&scene, Draw::Text {
        text: "st".to_string(),
        style: TextStyle::Chrome,
        x: left + px(63),
        y: URL_BAR_Y + px(4),
        color: p.url_text,
        percent: 40,
    });
    assert!(texts(&scene).contains(&"Host - mizu://host".to_string()));
    assert!(texts(&scene).contains(&"mizu://hot".to_string()));
    // Half a second later the cursor is gone.
    let later = painted(&state, 500, &[tab("a", true)]);
    let caret = format!("{caret:?}");
    assert!(!later.items.iter().any(|d| format!("{d:?}") == caret));
    // Without the focus nothing hangs below the bar.
    state.focused = false;
    assert!(!texts(&painted(&state, 0, &[])).contains(&"mizu://hot".to_string()));
}

#[test]
fn three_dots_pulse_while_a_page_loads() {
    let state = ChromeState { loading: true, ..Default::default() };
    let bright = |elapsed_ms: u64| {
        let scene = painted(&state, elapsed_ms, &[]);
        let dots: Vec<u8> = scene
            .items
            .iter()
            .filter_map(|d| match d {
                Draw::Dot { color, .. } => Some(color.a),
                _ => None,
            })
            .collect();
        assert_eq!(dots.len(), 3);
        dots.iter().position(|a| *a == 255).unwrap()
    };
    assert_eq!((bright(0), bright(299), bright(300), bright(899), bright(900)), (0, 0, 1, 2, 0));
}

#[test]
fn faded_colours_keep_their_hue() {
    let c = Rgba { r: 1, g: 2, b: 3, a: 255 };
    assert_eq!(faded(c, 0x44), Rgba { r: 1, g: 2, b: 3, a: 0x44 });
}

fn visit(url: &str, title: &str) -> VisitRecord {
    VisitRecord::new(url.to_string(), title.to_string())
}

fn log() -> HistoryLog {
    HistoryLog {
        days: vec![
            DayGroup {
                label: "Today".to_string(),
                records: vec![visit("mizu://b", "Bee"), visit("mizu://a", "")],
            },
            DayGroup {
                label: "Yesterday".to_string(),
                records: vec![visit("mizu://z", "mizu://z")],
            },
        ],
    }
}

fn sidebar(log: &HistoryLog, scroll_offset: i64, window_height: i64) -> Scene {
    let palette = palette();
    let mut scene = Scene::new();
    paint_history_sidebar(
        &mut scene,
        &SidebarPaintContext {
            log,
            scroll_offset,
            hovered: Some(0),
            palette: &palette,
            window_height,
            chrome_height: CHROME_HEIGHT,
            width: wide,
            height: tall,
        },
    );
    scene
}

#[test]
fn visits_are_listed_by_day() {
    let log = log();
    assert!(!log.is_empty());
    assert_eq!(log.get(2).unwrap().url, "mizu://z");
    assert!(log.get(3).is_none());
    assert_eq!(log.get(1).unwrap().display_label(), "mizu://a");
    let second_lines: Vec<bool> = (0..3).map(|i| log.get(i).unwrap().shows_url()).collect();
    assert_eq!(second_lines, vec![true, false, false]);
    assert_eq!(layout_rows(&log).len(), 5);
    let tops: Vec<i64> = layout_rows(&log).iter().map(|r| r.top()).collect();
    let g = GROUP_ROW_H;
    assert_eq!(tops, vec![0, g, g + ROW_H, g + 2 * ROW_H, 2 * g + 2 * ROW_H]);

    let scene = sidebar(&log, 0, px(800));
    let want =
        vec!["History", "Clear", "Today", "Bee", "mizu://b", "mizu://a", "Yesterday", "mizu://z"];
    assert_eq!(texts(&scene), want);
    let p = palette();
    let top = CHROME_HEIGHT + HEADER_HEIGHT + GROUP_ROW_H;
    // The hovered visit has a background and an accent.
    shows(&scene, Draw::Fill {
        rect: rect(0, top, SIDEBAR_WIDTH, top + ROW_H),
        color: p.tab_inactive_bg,
    });
    shows(&scene, Draw::Fill { rect: rect(0, top, px(2), top + ROW_H), color: p.url_border_focused });
    shows(&scene, Draw::Text {
        text: "Bee".to_string(),
        style: TextStyle::Title,
        x: HPAD,
        y: top + px(6),
        color: p.tab_text,
        percent: 100,
    });
    shows(&scene, Draw::Text {
        text: "mizu://b".to_string(),
        style: TextStyle::Address,
        x: HPAD,
        y: top + px(6 + 12 + 3),
        color: p.tab_text_inactive,
        percent: 100,
    });
    shows(&scene, Draw::FillRound {
        rect: clear_button_rect(CHROME_HEIGHT),
        radius: px(3),
        color: p.btn_bg,
    });
    assert_eq!(panel_right(), SIDEBAR_WIDTH);
}

#[test]
fn what_is_hovered_is_the_visit_under_the_pointer() {
    let log = log();
    let top = CHROME_HEIGHT + HEADER_HEIGHT;
    let at = |y: i64, scroll: i64| hovered_entry(px(20), top + y, &log, scroll, CHROME_HEIGHT);
    assert_eq!(at(px(5), 0), None);
    assert_eq!(at(GROUP_ROW_H + px(5), 0), Some(0));
    assert_eq!(at(GROUP_ROW_H + ROW_H + px(5), 0), Some(1));
    assert_eq!(at(px(5), GROUP_ROW_H + ROW_H), Some(1));
    assert_eq!(hovered_entry(SIDEBAR_WIDTH + 1, top + px(40), &log, 0, CHROME_HEIGHT), None);
}

#[test]
fn a_long_history_has_a_scroll_bar() {
    let records = (0..40).map(|i| visit(&format!("mizu://{i}"), "")).collect();
    let log = HistoryLog { days: vec![DayGroup { label: "Today".to_string(), records }] };
    // 40 visits and a label are 1546 pixels, of which 304 can be seen.
    let height = 54 + 30 + 304;
    let thumb = |scroll: i64| {
        let scene = sidebar(&log, scroll, px(height));
        let bar = scene.items.iter().find_map(|d| match d {
            Draw::FillRound { rect, radius, .. } if *radius == 96 => Some(*rect),
            _ => None,
        });
        bar.map(|r| (r.y0, r.y1 - r.y0))
    };
    let share = px(304) * px(304) / px(1546);
    assert_eq!(thumb(0), Some((px(84), share)));
    let (y, h) = thumb(px(1546 - 304)).unwrap();
    assert_eq!(y + h, px(height));
    let few = HistoryLog { days: vec![] };
    assert!(few.is_empty());
    let scene = sidebar(&few, 0, px(height));
    assert!(texts(&scene).contains(&"No pages visited yet.".to_string()));
}
