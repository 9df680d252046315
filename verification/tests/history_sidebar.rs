//! The history sidebar: where its rows are, and how far it scrolls.

use mizu_render::history::{DayGroup, HistoryLog, VisitRecord};
use mizu_render::history_sidebar::{
    clamp_scroll, contains_x, history_sidebar_hit, scroll_by, total_content_height,
    visible_height, HistorySidebarHit, GROUP_ROW_H, HEADER_HEIGHT, HPAD, ROW_H, SIDEBAR_WIDTH,
};

fn px(v: i64) -> i64 {
    v * 64
}

const CHROME: i64 = 54 * 64;

fn log_with(n: usize) -> HistoryLog {
    let mut records = Vec::new();
    for i in (0..n).rev() {
        records.push(VisitRecord::new(
            format!("mizu://test/{i}"),
            format!("Page {i}"),
        ));
    }
    HistoryLog { days: vec![DayGroup { label: "Today".to_string(), records }] }
}

/// Y coordinate of the vertical centre of row `index`, unscrolled.
fn row_centre_y(index: usize) -> i64 {
    CHROME + HEADER_HEIGHT + GROUP_ROW_H + index as i64 * ROW_H + ROW_H / 2
}

#[test]
fn history_sidebar_panel_is_docked_to_the_left_edge() {
    assert!(
        contains_x(0),
        "the panel starts at the window's left edge"
    );
    assert!(contains_x(SIDEBAR_WIDTH - px(1)));
    assert!(!contains_x(SIDEBAR_WIDTH), "and ends at its own width");
}

#[test]
fn tests_panel_is_docked_to_the_left_edge() {
    assert!(
        contains_x(0),
        "the panel starts at the window's left edge"
    );
    assert!(contains_x(SIDEBAR_WIDTH - px(1)));
    assert!(!contains_x(SIDEBAR_WIDTH), "and ends at its own width");
}

#[test]
fn history_sidebar_points_outside_the_panel_are_not_hits() {
    let log = log_with(3);
    assert_eq!(
        history_sidebar_hit(SIDEBAR_WIDTH + px(1), row_centre_y(0), &log, 0, CHROME),
        HistorySidebarHit::Outside,
        "content to the right of the panel must stay clickable"
    );
    assert_eq!(
        history_sidebar_hit(px(10), CHROME - px(1), &log, 0, CHROME),
        HistorySidebarHit::Outside,
        "the chrome bar owns everything above the panel"
    );
}

#[test]
fn tests_points_outside_the_panel_are_not_hits() {
    let log = log_with(3);
    assert_eq!(
        history_sidebar_hit(SIDEBAR_WIDTH + px(1), row_centre_y(0), &log, 0, CHROME),
        HistorySidebarHit::Outside,
        "content to the right of the panel must stay clickable"
    );
    assert_eq!(
        history_sidebar_hit(px(10), CHROME - px(1), &log, 0, CHROME),
        HistorySidebarHit::Outside,
        "the chrome bar owns everything above the panel"
    );
}

#[test]
fn history_sidebar_rows_hit_test_newest_first() {
    let log = log_with(3);
    // Newest visit is "mizu://test/2", so it is row 0.
    assert_eq!(
        history_sidebar_hit(px(40), row_centre_y(0), &log, 0, CHROME),
        HistorySidebarHit::Entry(0)
    );
    assert_eq!(
        history_sidebar_hit(px(40), row_centre_y(2), &log, 0, CHROME),
        HistorySidebarHit::Entry(2)
    );
    assert_eq!(
        log.get(0).unwrap().url,
        "mizu://test/2",
        "index 0 must be the most recent visit"
    );
}

#[test]
fn tests_rows_hit_test_newest_first() {
    let log = log_with(3);
    // Newest visit is "mizu://test/2", so it is row 0.
    assert_eq!(
        history_sidebar_hit(px(40), row_centre_y(0), &log, 0, CHROME),
        HistorySidebarHit::Entry(0)
    );
    assert_eq!(
        history_sidebar_hit(px(40), row_centre_y(2), &log, 0, CHROME),
        HistorySidebarHit::Entry(2)
    );
    assert_eq!(
        log.get(0).unwrap().url,
        "mizu://test/2",
        "index 0 must be the most recent visit"
    );
}

#[test]
fn history_sidebar_scrolling_moves_which_row_is_under_the_cursor() {
    let log = log_with(10);
    let y = row_centre_y(0);
    assert_eq!(
        history_sidebar_hit(px(40), y, &log, ROW_H * 3, CHROME),
        HistorySidebarHit::Entry(3),
        "a three-row scroll must bring row 3 under the first row's position"
    );
}

#[test]
fn tests_scrolling_moves_which_row_is_under_the_cursor() {
    let log = log_with(10);
    let y = row_centre_y(0);
    assert_eq!(
        history_sidebar_hit(px(40), y, &log, ROW_H * 3, CHROME),
        HistorySidebarHit::Entry(3),
        "a three-row scroll must bring row 3 under the first row's position"
    );
}

#[test]
fn history_sidebar_group_headers_are_not_clickable_as_entries() {
    let log = log_with(3);
    let group_y = CHROME + HEADER_HEIGHT + GROUP_ROW_H / 2;
    assert_eq!(
        history_sidebar_hit(px(40), group_y, &log, 0, CHROME),
        HistorySidebarHit::Background
    );
}

#[test]
fn tests_group_headers_are_not_clickable_as_entries() {
    let log = log_with(3);
    let group_y = CHROME + HEADER_HEIGHT + GROUP_ROW_H / 2;
    assert_eq!(
        history_sidebar_hit(px(40), group_y, &log, 0, CHROME),
        HistorySidebarHit::Background
    );
}

#[test]
fn history_sidebar_header_zone_separates_the_clear_button_from_the_title() {
    let log = log_with(1);
    let header_y = CHROME + HEADER_HEIGHT / 2;
    assert_eq!(
        history_sidebar_hit(HPAD, header_y, &log, 0, CHROME),
        HistorySidebarHit::Background,
        "the title is not a button"
    );
    assert_eq!(
        history_sidebar_hit(SIDEBAR_WIDTH - HPAD - px(2), header_y, &log, 0, CHROME),
        HistorySidebarHit::Clear
    );
}

#[test]
fn tests_header_zone_separates_the_clear_button_from_the_title() {
    let log = log_with(1);
    let header_y = CHROME + HEADER_HEIGHT / 2;
    assert_eq!(
        history_sidebar_hit(HPAD, header_y, &log, 0, CHROME),
        HistorySidebarHit::Background,
        "the title is not a button"
    );
    assert_eq!(
        history_sidebar_hit(SIDEBAR_WIDTH - HPAD - px(2), header_y, &log, 0, CHROME),
        HistorySidebarHit::Clear
    );
}

#[test]
fn history_sidebar_empty_log_has_no_content_and_no_scroll() {
    let log = HistoryLog::default();
    assert_eq!(total_content_height(&log), 0);
    assert_eq!(clamp_scroll(px(500), &log, px(800), CHROME), 0);
    assert_eq!(
        history_sidebar_hit(px(40), px(400), &log, 0, CHROME),
        HistorySidebarHit::Background,
        "an empty panel still swallows clicks rather than leaking them to the page"
    );
}

#[test]
fn tests_empty_log_has_no_content_and_no_scroll() {
    let log = HistoryLog::default();
    assert_eq!(total_content_height(&log), 0);
    assert_eq!(clamp_scroll(px(500), &log, px(800), CHROME), 0);
    assert_eq!(
        history_sidebar_hit(px(40), px(400), &log, 0, CHROME),
        HistorySidebarHit::Background,
        "an empty panel still swallows clicks rather than leaking them to the page"
    );
}

#[test]
fn history_sidebar_content_height_covers_every_row_and_its_group_header() {
    let log = log_with(4);
    // Four same-day visits under a single "Today" header.
    assert_eq!(total_content_height(&log), GROUP_ROW_H + 4 * ROW_H);
}

#[test]
fn tests_content_height_covers_every_row_and_its_group_header() {
    let log = log_with(4);
    // Four same-day visits under a single "Today" header.
    assert_eq!(total_content_height(&log), GROUP_ROW_H + 4 * ROW_H);
}

#[test]
fn history_sidebar_scroll_is_clamped_to_the_scrollable_range() {
    let log = log_with(40);
    let window_height = px(400);
    let max = total_content_height(&log) - visible_height(window_height, CHROME);
    assert_eq!(clamp_scroll(px(-50), &log, window_height, CHROME), 0);
    assert_eq!(clamp_scroll(px(1_000_000), &log, window_height, CHROME), max);
    assert_eq!(
        scroll_by(max, px(10), &log, window_height, CHROME),
        max,
        "scrolling past the end must not run off"
    );
}

#[test]
fn tests_scroll_is_clamped_to_the_scrollable_range() {
    let log = log_with(40);
    let window_height = px(400);
    let max = total_content_height(&log) - visible_height(window_height, CHROME);
    assert_eq!(clamp_scroll(px(-50), &log, window_height, CHROME), 0);
    assert_eq!(clamp_scroll(px(1_000_000), &log, window_height, CHROME), max);
    assert_eq!(
        scroll_by(max, px(10), &log, window_height, CHROME),
        max,
        "scrolling past the end must not run off"
    );
}

#[test]
fn history_sidebar_short_lists_do_not_scroll_at_all() {
    let log = log_with(2);
    assert_eq!(
        scroll_by(0, px(50), &log, px(900), CHROME),
        0,
        "content that already fits has nothing to scroll"
    );
}

#[test]
fn tests_short_lists_do_not_scroll_at_all() {
    let log = log_with(2);
    assert_eq!(
        scroll_by(0, px(50), &log, px(900), CHROME),
        0,
        "content that already fits has nothing to scroll"
    );
}
