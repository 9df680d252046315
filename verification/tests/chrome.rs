//! The chrome: editing the URL bar, keys, and where clicks land.

use mizu_render::chrome::geometry::{
    chrome_hit_zone, tab_rects, ChromeHitZone, ChromeLayout, BACK_X, BTN_W, CHROME_HEIGHT,
    FORWARD_X, HISTORY_X, RELOAD_X, TAB_STRIP_HEIGHT, URL_BAR_X,
};
use mizu_render::chrome::keys::{ChromeKeyAction, Key, ModifiersState, NamedKey};
use mizu_render::chrome::state::ChromeState;

fn px(v: i64) -> i64 {
    v * 64
}

fn make_state(url: &str) -> ChromeState {
    ChromeState {
        url: url.to_string(),
        cursor: url.len(),
        ..Default::default()
    }
}

/// A single-tab strip over an 800px window.
fn test_layout(tab_count: usize) -> ChromeLayout {
    ChromeLayout {
        window_width: px(800),
        tab_count,
        dropdown_count: 0,
    }
}

/// Hit-tests a point given in *navigation-bar* coordinates: `y` is
/// measured from the top of the bar, below the tab strip.
fn bar_zone(x: i64, y: i64) -> ChromeHitZone {
    chrome_hit_zone(x, y + TAB_STRIP_HEIGHT, &test_layout(1))
}

#[test]
fn chrome_vello_handle_key_enter_adds_schema() {
    let mut s = make_state("example.com");
    let action = s.handle_key(&Key::Named(NamedKey::Enter), None, ModifiersState::empty());
    match action {
        ChromeKeyAction::Navigate(url) => assert_eq!(url, "mizu://example.com"),
        other => panic!("expected Navigate, got {:?}", other),
    }
}

#[test]
fn tests_handle_key_enter_adds_schema() {
    let mut s = make_state("example.com");
    let action = s.handle_key(&Key::Named(NamedKey::Enter), None, ModifiersState::empty());
    match action {
        ChromeKeyAction::Navigate(url) => assert_eq!(url, "mizu://example.com"),
        other => panic!("expected Navigate, got {:?}", other),
    }
}

#[test]
fn chrome_vello_handle_key_enter_preserves_existing_schema() {
    let mut s = make_state("https://example.com");
    let action = s.handle_key(&Key::Named(NamedKey::Enter), None, ModifiersState::empty());
    match action {
        ChromeKeyAction::Navigate(url) => assert_eq!(url, "https://example.com"),
        other => panic!("expected Navigate, got {:?}", other),
    }
}

#[test]
fn tests_handle_key_enter_preserves_existing_schema() {
    let mut s = make_state("https://example.com");
    let action = s.handle_key(&Key::Named(NamedKey::Enter), None, ModifiersState::empty());
    match action {
        ChromeKeyAction::Navigate(url) => assert_eq!(url, "https://example.com"),
        other => panic!("expected Navigate, got {:?}", other),
    }
}

#[test]
fn chrome_vello_insert_text_advances_cursor() {
    let mut s = make_state("ab");
    s.cursor = 1; // between 'a' and 'b'
    s.insert_text("X");
    assert_eq!(s.url, "aXb");
    assert_eq!(s.cursor, 2);
}

#[test]
fn tests_insert_text_advances_cursor() {
    let mut s = make_state("ab");
    s.cursor = 1; // between 'a' and 'b'
    s.insert_text("X");
    assert_eq!(s.url, "aXb");
    assert_eq!(s.cursor, 2);
}

#[test]
fn chrome_vello_insert_text_strips_rlo_override_character() {
    // Security regression: U+202E (Right-to-Left Override) must never
    // enter the URL bar's buffer — typing or pasting it must not be able
    // to visually disguise a domain.
    let mut s = make_state("");
    s.insert_text("evil\u{202E}gnp.exe");
    assert!(
        !s.url.contains('\u{202E}'),
        "RLO must be stripped, got: {:?}",
        s.url
    );
    assert_eq!(s.url, "evilgnp.exe");
}

#[test]
fn tests_insert_text_strips_rlo_override_character() {
    // Security regression: U+202E (Right-to-Left Override) must never
    // enter the URL bar's buffer — typing or pasting it must not be able
    // to visually disguise a domain.
    let mut s = make_state("");
    s.insert_text("evil\u{202E}gnp.exe");
    assert!(
        !s.url.contains('\u{202E}'),
        "RLO must be stripped, got: {:?}",
        s.url
    );
    assert_eq!(s.url, "evilgnp.exe");
}

#[test]
fn chrome_vello_insert_text_strips_bidi_isolates_too() {
    let mut s = make_state("");
    s.insert_text("a\u{2066}b\u{2069}c");
    assert_eq!(s.url, "abc");
}

#[test]
fn tests_insert_text_strips_bidi_isolates_too() {
    let mut s = make_state("");
    s.insert_text("a\u{2066}b\u{2069}c");
    assert_eq!(s.url, "abc");
}

#[test]
fn chrome_vello_insert_text_leaves_clean_urls_untouched() {
    let mut s = make_state("");
    s.insert_text("mizu://example.com/page");
    assert_eq!(s.url, "mizu://example.com/page");
}

#[test]
fn tests_insert_text_leaves_clean_urls_untouched() {
    let mut s = make_state("");
    s.insert_text("mizu://example.com/page");
    assert_eq!(s.url, "mizu://example.com/page");
}

#[test]
fn chrome_vello_paste_text_also_strips_bidi_overrides() {
    // paste_text -> insert_text, so it inherits the same choke point;
    // pinned separately since paste is a distinct entry point a user
    // (or a malicious clipboard source) could exploit independently of
    // typing.
    let mut s = make_state("");
    s.paste_text("safe\u{202E}evil.com");
    assert!(!s.url.contains('\u{202E}'));
}

#[test]
fn tests_paste_text_also_strips_bidi_overrides() {
    // paste_text -> insert_text, so it inherits the same choke point;
    // pinned separately since paste is a distinct entry point a user
    // (or a malicious clipboard source) could exploit independently of
    // typing.
    let mut s = make_state("");
    s.paste_text("safe\u{202E}evil.com");
    assert!(!s.url.contains('\u{202E}'));
}

#[test]
fn chrome_vello_delete_backward_removes_selection() {
    let mut s = make_state("hello");
    s.selection = Some((1, 4)); // select "ell"
    s.cursor = 4;
    s.delete_backward();
    assert_eq!(s.url, "ho");
    assert_eq!(s.cursor, 1);
    assert!(s.selection.is_none());
}

#[test]
fn tests_delete_backward_removes_selection() {
    let mut s = make_state("hello");
    s.selection = Some((1, 4)); // select "ell"
    s.cursor = 4;
    s.delete_backward();
    assert_eq!(s.url, "ho");
    assert_eq!(s.cursor, 1);
    assert!(s.selection.is_none());
}

#[test]
fn chrome_vello_delete_backward_no_selection_removes_char() {
    let mut s = make_state("abc");
    s.cursor = 2;
    s.delete_backward();
    assert_eq!(s.url, "ac");
    assert_eq!(s.cursor, 1);
}

#[test]
fn tests_delete_backward_no_selection_removes_char() {
    let mut s = make_state("abc");
    s.cursor = 2;
    s.delete_backward();
    assert_eq!(s.url, "ac");
    assert_eq!(s.cursor, 1);
}

#[test]
fn chrome_vello_select_all_covers_entire_string() {
    let mut s = make_state("hello world");
    s.select_all();
    assert_eq!(s.selection, Some((0, 11)));
    assert_eq!(s.cursor, 11);
}

#[test]
fn tests_select_all_covers_entire_string() {
    let mut s = make_state("hello world");
    s.select_all();
    assert_eq!(s.selection, Some((0, 11)));
    assert_eq!(s.cursor, 11);
}

#[test]
fn chrome_vello_selection_range_normalises_inverted_selection() {
    let mut s = make_state("hello");
    s.selection = Some((4, 1)); // inverted (user dragged left)
    assert_eq!(s.selection_range(), Some((1, 4)));
}

#[test]
fn tests_selection_range_normalises_inverted_selection() {
    let mut s = make_state("hello");
    s.selection = Some((4, 1)); // inverted (user dragged left)
    assert_eq!(s.selection_range(), Some((1, 4)));
}

#[test]
fn chrome_vello_cursor_clamp_on_move_left_at_start() {
    let mut s = make_state("abc");
    s.cursor = 0;
    s.move_left(false);
    assert_eq!(s.cursor, 0);
}

#[test]
fn tests_cursor_clamp_on_move_left_at_start() {
    let mut s = make_state("abc");
    s.cursor = 0;
    s.move_left(false);
    assert_eq!(s.cursor, 0);
}

#[test]
fn chrome_vello_cursor_clamp_on_move_right_at_end() {
    let mut s = make_state("abc");
    s.cursor = 3;
    s.move_right(false);
    assert_eq!(s.cursor, 3);
}

#[test]
fn tests_cursor_clamp_on_move_right_at_end() {
    let mut s = make_state("abc");
    s.cursor = 3;
    s.move_right(false);
    assert_eq!(s.cursor, 3);
}

#[test]
fn chrome_vello_tab_strip_hit_zones_prefer_close_over_body() {
    let layout = test_layout(3);
    let (_, first) = tab_rects(&layout).into_iter().next().expect("at least one tab fits");
    assert_eq!(
        chrome_hit_zone(first.x0 + px(4), px(8), &layout),
        ChromeHitZone::TabItem(0)
    );
    assert_eq!(
        chrome_hit_zone(first.x1 - px(4), px(8), &layout),
        ChromeHitZone::TabCloseButton(0),
        "the close glyph sits inside the tab rect, so it must be tested first"
    );
}

#[test]
fn tests_tab_strip_hit_zones_prefer_close_over_body() {
    let layout = test_layout(3);
    let (_, first) = tab_rects(&layout).into_iter().next().expect("at least one tab fits");
    assert_eq!(
        chrome_hit_zone(first.x0 + px(4), px(8), &layout),
        ChromeHitZone::TabItem(0)
    );
    assert_eq!(
        chrome_hit_zone(first.x1 - px(4), px(8), &layout),
        ChromeHitZone::TabCloseButton(0),
        "the close glyph sits inside the tab rect, so it must be tested first"
    );
}

#[test]
fn chrome_vello_new_tab_button_follows_the_last_tab() {
    let layout = test_layout(2);
    let last = tab_rects(&layout).last().expect("tabs fit").1;
    assert_eq!(
        chrome_hit_zone(last.x1 + px(4), px(8), &layout),
        ChromeHitZone::NewTabButton
    );
}

#[test]
fn tests_new_tab_button_follows_the_last_tab() {
    let layout = test_layout(2);
    let last = tab_rects(&layout).last().expect("tabs fit").1;
    assert_eq!(
        chrome_hit_zone(last.x1 + px(4), px(8), &layout),
        ChromeHitZone::NewTabButton
    );
}

#[test]
fn chrome_vello_tab_strip_clips_rather_than_overflowing() {
    // 32 tabs at the 80px minimum need 2560px; only what fits in 800px
    // (minus the new-tab button) is produced.
    let layout = test_layout(32);
    let visible = tab_rects(&layout).len();
    assert!(visible < 32 && visible > 0, "got {visible} visible tabs");
    assert!(
        tab_rects(&layout).iter().all(|(_, r)| r.x1 <= layout.window_width - px(24)),
        "no tab may extend past the new-tab button"
    );
}

#[test]
fn tests_tab_strip_clips_rather_than_overflowing() {
    // 32 tabs at the 80px minimum need 2560px; only what fits in 800px
    // (minus the new-tab button) is produced.
    let layout = test_layout(32);
    let visible = tab_rects(&layout).len();
    assert!(visible < 32 && visible > 0, "got {visible} visible tabs");
    assert!(
        tab_rects(&layout).iter().all(|(_, r)| r.x1 <= layout.window_width - px(24)),
        "no tab may extend past the new-tab button"
    );
}

#[test]
fn chrome_vello_chrome_hit_zone_history_button() {
    assert_eq!(
        bar_zone(HISTORY_X + px(5), px(10)),
        ChromeHitZone::HistoryButton,
        "the sidebar toggle leads the bar, on the side the panel opens"
    );
}

#[test]
fn tests_chrome_hit_zone_history_button() {
    assert_eq!(
        bar_zone(HISTORY_X + px(5), px(10)),
        ChromeHitZone::HistoryButton,
        "the sidebar toggle leads the bar, on the side the panel opens"
    );
}

#[test]
fn chrome_vello_chrome_hit_zone_back_button() {
    assert_eq!(bar_zone(BACK_X + px(5), px(10)), ChromeHitZone::BackButton);
}

#[test]
fn tests_chrome_hit_zone_back_button() {
    assert_eq!(bar_zone(BACK_X + px(5), px(10)), ChromeHitZone::BackButton);
}

#[test]
fn chrome_vello_chrome_hit_zone_reload_button() {
    assert_eq!(bar_zone(RELOAD_X + px(8), px(10)), ChromeHitZone::ReloadButton);
}

#[test]
fn tests_chrome_hit_zone_reload_button() {
    assert_eq!(bar_zone(RELOAD_X + px(8), px(10)), ChromeHitZone::ReloadButton);
}

#[test]
fn chrome_vello_chrome_hit_zone_forward_button() {
    assert_eq!(
        bar_zone(FORWARD_X + px(5), px(10)),
        ChromeHitZone::ForwardButton
    );
}

#[test]
fn tests_chrome_hit_zone_forward_button() {
    assert_eq!(
        bar_zone(FORWARD_X + px(5), px(10)),
        ChromeHitZone::ForwardButton
    );
}

#[test]
fn chrome_vello_chrome_hit_zone_url_bar() {
    assert_eq!(bar_zone(px(200), px(10)), ChromeHitZone::UrlBar);
}

#[test]
fn tests_chrome_hit_zone_url_bar() {
    assert_eq!(bar_zone(px(200), px(10)), ChromeHitZone::UrlBar);
}

#[test]
fn chrome_vello_toolbar_buttons_do_not_overlap() {
    // Each button owns BTN_W pixels, and every pair must leave a gap:
    // that gap is what the "background between buttons" cases below hit.
    // Left to right as they are laid out, which is not the order the
    // constants happen to be declared in.
    let xs = [HISTORY_X, BACK_X, FORWARD_X, RELOAD_X, URL_BAR_X];
    for pair in xs.windows(2) {
        assert!(
            pair[0] + BTN_W <= pair[1],
            "the button at {} overruns the one at {}",
            pair[0],
            pair[1]
        );
    }
}

#[test]
fn tests_toolbar_buttons_do_not_overlap() {
    // Each button owns BTN_W pixels, and every pair must leave a gap:
    // that gap is what the "background between buttons" cases below hit.
    // Left to right as they are laid out, which is not the order the
    // constants happen to be declared in.
    let xs = [HISTORY_X, BACK_X, FORWARD_X, RELOAD_X, URL_BAR_X];
    for pair in xs.windows(2) {
        assert!(
            pair[0] + BTN_W <= pair[1],
            "the button at {} overruns the one at {}",
            pair[0],
            pair[1]
        );
    }
}

#[test]
fn chrome_vello_chrome_hit_zone_background_below_chrome() {
    assert_eq!(
        chrome_hit_zone(px(200), CHROME_HEIGHT + px(1), &test_layout(1)),
        ChromeHitZone::Background
    );
}

#[test]
fn tests_chrome_hit_zone_background_below_chrome() {
    assert_eq!(
        chrome_hit_zone(px(200), CHROME_HEIGHT + px(1), &test_layout(1)),
        ChromeHitZone::Background
    );
}

#[test]
fn chrome_vello_chrome_hit_zone_background_between_reload_and_forward() {
    assert_eq!(
        bar_zone(RELOAD_X + BTN_W + px(1), px(10)),
        ChromeHitZone::Background
    );
}

#[test]
fn tests_chrome_hit_zone_background_between_reload_and_forward() {
    assert_eq!(
        bar_zone(RELOAD_X + BTN_W + px(1), px(10)),
        ChromeHitZone::Background
    );
}

#[test]
fn chrome_vello_chrome_hit_zone_background_between_forward_and_url_bar() {
    assert_eq!(
        bar_zone(FORWARD_X + BTN_W + px(1), px(10)),
        ChromeHitZone::Background
    );
}

#[test]
fn tests_chrome_hit_zone_background_between_forward_and_url_bar() {
    assert_eq!(
        bar_zone(FORWARD_X + BTN_W + px(1), px(10)),
        ChromeHitZone::Background
    );
}

#[test]
fn chrome_vello_paste_text_replaces_selection() {
    let mut s = make_state("hello");
    s.selection = Some((0, 5));
    s.cursor = 5;
    s.paste_text("world");
    assert_eq!(s.url, "world");
    assert_eq!(s.cursor, 5);
    assert!(s.selection.is_none());
}

#[test]
fn tests_paste_text_replaces_selection() {
    let mut s = make_state("hello");
    s.selection = Some((0, 5));
    s.cursor = 5;
    s.paste_text("world");
    assert_eq!(s.url, "world");
    assert_eq!(s.cursor, 5);
    assert!(s.selection.is_none());
}

#[test]
fn chrome_vello_cut_text_returns_selection() {
    let mut s = make_state("hello");
    s.selection = Some((1, 4));
    s.cursor = 4;
    let cut = s.cut_text();
    assert_eq!(cut, Some("ell".to_string()));
    assert_eq!(s.url, "ho");
}

#[test]
fn tests_cut_text_returns_selection() {
    let mut s = make_state("hello");
    s.selection = Some((1, 4));
    s.cursor = 4;
    let cut = s.cut_text();
    assert_eq!(cut, Some("ell".to_string()));
    assert_eq!(s.url, "ho");
}

#[test]
fn chrome_vello_ctrl_a_action() {
    let mut s = make_state("hello");
    let mods = ModifiersState { control: true, shift: false };
    let action = s.handle_key(&Key::Character("a".to_string()), None, mods);
    assert!(matches!(action, ChromeKeyAction::Handled));
    assert_eq!(s.selection, Some((0, 5)));
}

#[test]
fn tests_ctrl_a_action() {
    let mut s = make_state("hello");
    let mods = ModifiersState { control: true, shift: false };
    let action = s.handle_key(&Key::Character("a".to_string()), None, mods);
    assert!(matches!(action, ChromeKeyAction::Handled));
    assert_eq!(s.selection, Some((0, 5)));
}
