//! Fitting text into a width.

use mizu_render::double::{round_half_even, storage_percent, to_double};
use mizu_render::embedded_fonts::{
    EmbeddedFonts, FontFamily, FontStep, GenericFamily, Locale, Script,
};
use mizu_render::fit::{elide_to_width, truncate_to_width, url_cursor_from_x, url_cursor_x};
use mizu_render::px::{floor_div, half, Rect};

/// Ten units for every character, five for an `i`.
fn measure(text: &str, _style: u8) -> u32 {
    text.chars().map(|c| if c == 'i' { 5 } else { 10 }).sum()
}

#[test]
fn text_is_shortened_until_it_fits() {
    for f in [elide_to_width::<u8, fn(&str, u8) -> u32>, truncate_to_width] {
        assert_eq!(f("wide text", 90, 0, measure), "wide text");
        assert_eq!(f("wide text", 84, 0, measure), "wide te…");
        assert_eq!(f("wide text", 30, 0, measure), "wi…");
        assert_eq!(f("wide text", 0, 0, measure), "");
        assert_eq!(f("wide text", -5, 0, measure), "");
        assert_eq!(f("", 5, 0, measure), "");
        assert_eq!(f("日本語", 20, 0, measure), "日…");
    }
}

#[test]
fn where_little_more_than_an_ellipsis_fits() {
    assert_eq!(elide_to_width("wide", 10, 0, measure), "…");
    assert_eq!(truncate_to_width("wide", 10, 0, measure), "");
    assert_eq!(elide_to_width("wide", 9, 0, measure), "");
    assert_eq!(truncate_to_width("wide", 9, 0, measure), "");
}

#[test]
fn the_cursor_is_where_the_text_before_it_ends() {
    let url = "hiß→i";
    assert_eq!(url_cursor_x(url, 0, 0, measure), 0);
    assert_eq!(url_cursor_x(url, 2, 0, measure), 15);
    assert_eq!(url_cursor_x(url, 4, 0, measure), 25);
    assert_eq!(url_cursor_x(url, url.len(), 0, measure), 40);
    assert_eq!(url_cursor_x(url, 99, 0, measure), 40);
}

#[test]
fn a_click_goes_to_the_closest_character() {
    let url = "hiß→i";
    assert_eq!(url_cursor_from_x(url, -3, 0, measure), 0);
    assert_eq!(url_cursor_from_x(url, 4, 0, measure), 0);
    assert_eq!(url_cursor_from_x(url, 6, 0, measure), 1);
    assert_eq!(url_cursor_from_x(url, 14, 0, measure), 2);
    assert_eq!(url_cursor_from_x(url, 26, 0, measure), 4);
    assert_eq!(url_cursor_from_x(url, 1000, 0, measure), url.len());
    // Halfway, the earlier one wins.
    assert_eq!(url_cursor_from_x(url, 5, 0, measure), 0);
    assert_eq!(url_cursor_from_x("", 5, 0, measure), 0);
    // A click where the cursor is painted leads back there.
    for (b, _) in url.char_indices() {
        assert_eq!(url_cursor_from_x(url, url_cursor_x(url, b, 0, measure), 0, measure), b);
    }
}

#[test]
fn shares_are_rounded_as_doubles_are() {
    assert_eq!(round_half_even(5, 2), 2);
    assert_eq!(round_half_even(7, 2), 4);
    assert_eq!(round_half_even(8, 3), 3);
    let numbers = [
        0u64,
        1,
        2,
        3,
        7,
        10,
        999,
        1_000,
        4_503_599_627_370_497,
        9_007_199_254_740_993,
        9_007_199_254_740_995,
        u64::MAX / 3,
        u64::MAX - 1,
        u64::MAX,
    ];
    for a in numbers {
        assert_eq!(to_double(a), (a as f64) as u128);
        for b in numbers {
            let (shown, full) = storage_percent(a, b);
            let percent = if b == 0 { 0.0 } else { (a as f64 / b as f64 * 100.0).min(999.0) };
            assert_eq!(shown.to_string(), format!("{percent:.0}"), "{a} of {b}");
            assert_eq!(full, percent >= 90.0, "{a} of {b}");
        }
    }
    for used in 0..2_000 {
        let percent = used as f64 / 1_000.0 * 100.0;
        assert_eq!(
            storage_percent(used, 1_000),
            (format!("{percent:.0}").parse().unwrap(), percent >= 90.0)
        );
    }
}

#[test]
fn lengths_are_halved_downwards() {
    assert_eq!((half(7), half(-7), half(8)), (3, -4, 4));
    assert_eq!((floor_div(7, 2), floor_div(-7, 2), floor_div(-8, 2)), (3, -4, -4));
    let rect = Rect { x0: 0, y0: 0, x1: 10, y1: 5 };
    assert!(rect.contains(0, 0) && rect.contains(9, 4));
    assert!(!rect.contains(11, 0) && !rect.contains(0, 6) && !rect.contains(-1, 0));
}

/// What is set up of the fonts, in order.
#[test]
fn every_script_falls_back_on_a_registered_font() {
    let plan = EmbeddedFonts::plan();
    assert_eq!(plan.len(), 25);
    let mut registered = Vec::new();
    for step in &plan {
        match *step {
            FontStep::Register(f) => {
                assert!(!registered.contains(&f));
                registered.push(f);
            }
            FontStep::Generic(_, f) | FontStep::Fallback(_, _, f) => {
                assert!(registered.contains(&f));
            }
        }
    }
    assert_eq!(registered.len(), 11);
    let has = |step: FontStep| plan.contains(&step);
    assert!(has(FontStep::Generic(GenericFamily::Monospace, FontFamily::Mono)));
    assert!(has(FontStep::Fallback(Script::Hani, Locale::Any, FontFamily::SimplifiedChinese)));
    assert!(has(FontStep::Fallback(Script::Hani, Locale::ZhHk, FontFamily::TraditionalChinese)));
    for script in
        [Script::Arab, Script::Hebr, Script::Deva, Script::Thai, Script::Hani, Script::Hang]
    {
        assert!(plan.iter().any(
            |s| matches!(s, FontStep::Fallback(x, Locale::Any, _) if *x == script)
        ));
    }
}
