//! Editing the URL bar, and where the chrome is clicked.

use mizu_render::chrome::geometry::{
    chrome_hit_zone, new_tab_rect, tab_rects, url_text_left, ChromeHitZone, ChromeLayout, BACK_X,
    BTN_H, BTN_W, BTN_Y, CHROME_HEIGHT, DROPDOWN_PAD, FORWARD_X, HISTORY_X, NEW_TAB_W, RELOAD_X,
    STATUS_W, SUGGESTION_H, TAB_CLOSE_W, TAB_MAX_W, TAB_MIN_W, URL_BAR_H, URL_BAR_MIN_W, URL_BAR_X,
    URL_BAR_Y, URL_TEXT_PAD,
};
use mizu_render::chrome::keys::{ChromeKeyAction, Key, ModifiersState, NamedKey};
use mizu_render::chrome::state::ChromeState;
use mizu_render::history::VisitRecord;

fn px(v: i64) -> i64 {
    v * 64
}

fn at(url: &str, cursor: usize) -> ChromeState {
    ChromeState { url: url.to_string(), cursor, focused: true, ..Default::default() }
}

fn press(s: &mut ChromeState, key: NamedKey) -> ChromeKeyAction {
    s.handle_key(&Key::Named(key), None, ModifiersState::empty())
}

fn with_control(s: &mut ChromeState, letter: &str) -> ChromeKeyAction {
    let mods = ModifiersState { control: true, shift: false };
    s.handle_key(&Key::Character(letter.to_string()), Some(letter), mods)
}

/// Ten units for every character.
fn measure(text: &str, _style: u8) -> u32 {
    text.chars().count() as u32 * 640
}

#[test]
fn typing_and_backspace_cancel_out() {
    let mut s = at("mizu://hßst", 8);
    for text in ["o", "日", "🦀"] {
        s.insert_text(text);
        assert_eq!(s.url, format!("mizu://h{text}ßst"));
        assert_eq!(s.cursor, 8 + text.len());
        s.delete_backward();
        assert_eq!((s.url.as_str(), s.cursor), ("mizu://hßst", 8));
    }
    s.delete_forward();
    assert_eq!((s.url.as_str(), s.cursor), ("mizu://hst", 8));
    s.move_to_start(false);
    s.delete_backward();
    s.move_to_end(false);
    s.delete_forward();
    assert_eq!((s.url.as_str(), s.cursor), ("mizu://hst", 10));
}

#[test]
fn the_cursor_moves_by_characters() {
    let mut s = at("a→b", 4);
    s.move_left(false);
    assert_eq!(s.cursor, 1);
    s.move_right(false);
    assert_eq!(s.cursor, 4);
    s.move_left(true);
    assert_eq!((s.cursor, s.selection), (1, Some((4, 1))));
    assert_eq!(s.selection_range(), Some((1, 4)));
    assert_eq!(s.selected_text(), Some("→"));
    assert_eq!(s.copy_text().as_deref(), Some("→"));
    s.move_to_end(true);
    assert_eq!(s.selection, Some((4, 5)));
    s.move_to_start(true);
    assert_eq!(s.selected_text(), Some("a→"));
    s.move_right(false);
    assert_eq!(s.selection, None);
}

#[test]
fn cutting_and_pasting_cancel_out() {
    let mut s = at("mizu://host/path", 16);
    s.selection = Some((12, 16));
    assert_eq!(s.cut_text().as_deref(), Some("path"));
    assert_eq!((s.url.as_str(), s.cursor, s.selection), ("mizu://host/", 12, None));
    s.paste_text("path");
    assert_eq!((s.url.as_str(), s.cursor), ("mizu://host/path", 16));
    assert_eq!(s.cut_text(), None);
    s.select_all();
    assert_eq!(s.selected_text(), Some("mizu://host/path"));
    s.insert_text("x");
    assert_eq!((s.url.as_str(), s.cursor, s.selection), ("x", 1, None));
}

#[test]
fn a_word_is_selected_around_the_cursor() {
    let mut s = at("mizu://host/some-path", 9);
    s.select_word_at_cursor();
    assert_eq!(s.selected_text(), Some("host"));
}

#[test]
fn a_new_address_is_shown_with_the_cursor_behind_it() {
    let mut s = at("old", 1);
    s.selection = Some((0, 3));
    s.inline_completion = Some("x".to_string());
    s.set_displayed_url("mizu://né".to_string());
    assert_eq!((s.url.as_str(), s.cursor, s.selection), ("mizu://né", 10, None));
    assert_eq!(s.inline_completion, None);
}

#[test]
fn clicks_set_the_cursor_and_drags_select() {
    let mut s = at("abcdef", 0);
    s.set_cursor_from_click(px(100 + 31), px(100), 0, measure);
    assert_eq!((s.cursor, s.selection), (3, None));
    s.extend_selection_to_x(px(100 + 52), px(100), 0, measure);
    assert_eq!((s.cursor, s.selection_range()), (5, Some((3, 5))));
    s.extend_selection_to_x(px(0), px(100), 0, measure);
    assert_eq!((s.cursor, s.selection_range()), (0, Some((0, 3))));
}

#[test]
fn arrow_keys_walk_the_suggestions_in_a_circle() {
    let mut s = at("m", 1);
    for name in ["one", "two"] {
        s.suggestions.push(VisitRecord::new(format!("mizu://{name}"), String::new()));
    }
    let mut seen = Vec::new();
    for _ in 0..4 {
        press(&mut s, NamedKey::ArrowDown);
        seen.push(s.selected_suggestion);
    }
    assert_eq!(seen, vec![Some(0), Some(1), None, Some(0)]);
    for want in [None, Some(1), Some(0), None] {
        press(&mut s, NamedKey::ArrowUp);
        assert_eq!(s.selected_suggestion, want);
    }
    assert!(s.committed_url.is_empty());
}

#[test]
fn keys_ask_for_actions() {
    let mut s = at("mizu://a", 8);
    s.committed_url = "mizu://committed".to_string();
    assert!(matches!(with_control(&mut s, "c"), ChromeKeyAction::Copy));
    assert!(matches!(with_control(&mut s, "x"), ChromeKeyAction::Cut));
    assert!(matches!(with_control(&mut s, "v"), ChromeKeyAction::Paste));
    assert!(matches!(with_control(&mut s, "a"), ChromeKeyAction::Handled));
    assert_eq!(s.selected_text(), Some("mizu://a"));
    match press(&mut s, NamedKey::Enter) {
        ChromeKeyAction::Navigate(url) => assert_eq!(url, "mizu://a"),
        other => panic!("{other:?}"),
    }
    let mut s = at("mizu://typed", 3);
    s.committed_url = "mizu://committed".to_string();
    press(&mut s, NamedKey::Escape);
    assert_eq!(s.committed_url, "mizu://committed");
    assert!(matches!(press(&mut s, NamedKey::Other), ChromeKeyAction::Ignored));
}

fn layout(width: i64, tab_count: usize, dropdown_count: usize) -> ChromeLayout {
    ChromeLayout { window_width: px(width), tab_count, dropdown_count }
}

#[test]
fn tabs_share_the_strip() {
    // Few tabs are as wide as allowed, many as narrow as allowed.
    let two = layout(800, 2, 0);
    assert_eq!(two.tab_w(), TAB_MAX_W);
    assert_eq!(two.visible(), 2);
    let rects = tab_rects(&two);
    assert_eq!(rects[1].1, two.rect_of_tab(1));
    assert_eq!((rects[1].1.x0, rects[1].1.x1), (TAB_MAX_W, 2 * TAB_MAX_W));
    assert_eq!(new_tab_rect(&two).x0, 2 * TAB_MAX_W);
    let many = layout(800, 30, 0);
    assert_eq!(many.tab_w(), TAB_MIN_W);
    assert_eq!(many.visible(), 9);
    assert_eq!(tab_rects(&many).len(), 9);
    assert!(new_tab_rect(&many).x1 <= px(800));
    assert_eq!(new_tab_rect(&many).x1 - new_tab_rect(&many).x0, NEW_TAB_W);
}

#[test]
fn tabs_are_hit_where_they_are() {
    let l = layout(800, 3, 0);
    for (i, rect) in tab_rects(&l) {
        let y = px(10);
        assert_eq!(chrome_hit_zone(rect.x0 + 1, y, &l), ChromeHitZone::TabItem(i));
        assert_eq!(
            chrome_hit_zone(rect.x1 - TAB_CLOSE_W / 2, y, &l),
            ChromeHitZone::TabCloseButton(i)
        );
    }
    let plus = new_tab_rect(&l);
    assert_eq!(chrome_hit_zone(plus.x0 + 1, px(10), &l), ChromeHitZone::NewTabButton);
    assert_eq!(chrome_hit_zone(px(799), px(10), &l), ChromeHitZone::Background);
}

#[test]
fn the_toolbar_is_hit_where_it_is() {
    let l = layout(800, 1, 2);
    let y = BTN_Y + BTN_H / 2;
    let zone = |x: i64| chrome_hit_zone(x + BTN_W / 2, y, &l);
    assert_eq!(zone(HISTORY_X), ChromeHitZone::HistoryButton);
    assert_eq!(zone(BACK_X), ChromeHitZone::BackButton);
    assert_eq!(zone(FORWARD_X), ChromeHitZone::ForwardButton);
    assert_eq!(zone(RELOAD_X), ChromeHitZone::ReloadButton);
    assert_eq!(zone(URL_BAR_X), ChromeHitZone::UrlBar);
    assert_eq!(l.url_right(), px(800) - STATUS_W);
    assert_eq!(layout(50, 1, 0).url_right(), URL_BAR_X + URL_BAR_MIN_W);
    assert_eq!(url_text_left(px(800)), URL_BAR_X + URL_TEXT_PAD);
    // The suggestions hang below the bar, over the page.
    for i in 0..2 {
        let y = URL_BAR_Y + URL_BAR_H + DROPDOWN_PAD + i as i64 * SUGGESTION_H + px(3);
        assert_eq!(
            chrome_hit_zone(URL_BAR_X + px(9), y, &l),
            ChromeHitZone::AutocompleteSuggestion(i)
        );
    }
    assert_eq!(
        chrome_hit_zone(px(5), CHROME_HEIGHT + px(40), &l),
        ChromeHitZone::Background
    );
}

#[test]
fn only_what_was_cut_has_to_be_clean() {
    let mut s = at("a\u{202E}bcde", 8);
    s.selection = Some((7, 5));
    let cut = s.cut_text().unwrap();
    assert_eq!(cut, "cd");
    assert_eq!((s.url.as_str(), s.cursor, s.selection), ("a\u{202E}be", 5, None));
    s.paste_text(&cut);
    assert_eq!((s.url.as_str(), s.cursor, s.selection), ("a\u{202E}bcde", 7, None));
}
