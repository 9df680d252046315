//! Fitting and painting the inspector panel.

use mizu_render::inspector::model::types::{Face, Flex, Row, RowKind, Seg, Tone};
use mizu_render::inspector::paint::color::Tones;
use mizu_render::inspector::paint::drawer::{
    paint_value_drawer, recently_copied, DrawerPaint, COPIED_FLASH,
};
use mizu_render::inspector::paint::gauge::{
    byte_at, face_size, TextCtx, TextMetrics, HEADER_SIZE, METRICS_CACHE_LIMIT, MONO_SIZE, UI_SIZE,
};
use mizu_render::inspector::paint::panel::{paint_panel, PanelPaintContext};
use mizu_render::inspector::paint::rows::LineMetrics;
use mizu_render::inspector::paint::segments::{place_segs, SEG_GAP};
use mizu_render::inspector::panel::{InspectorState, InspectorTab, ValueView, PANEL_WIDTH};
use mizu_render::scene::{ChromePalette, Draw, Rgba, Scene};
use mizu_render::style::MizuColor;

fn px(v: i64) -> i64 {
    v * 64
}

/// Every monospace character is seven pixels wide, every other six.
fn wide(text: &str, face: Face) -> u32 {
    let each = if face == Face::Mono { 448 } else { 384 };
    text.chars().count() as u32 * each
}

fn text_ctx() -> TextCtx<fn(&str, Face) -> u32> {
    TextCtx { metrics: TextMetrics::default(), measure: wide }
}

/// Height of text wrapped to a width: lines of twelve pixels.
fn wrapped(text: &str, max_width: i64) -> u32 {
    let per_line = (max_width / 448).max(1) as usize;
    (text.chars().count().div_ceil(per_line) * 768) as u32
}

const LINES: LineMetrics = LineMetrics {
    ui_height: 736,
    ui_ascent: 560,
    strong_height: 640,
    strong_ascent: 480,
    mono_height: 736,
    mono_ascent: 544,
};

fn rgb(r: u8, g: u8, b: u8) -> Rgba {
    Rgba { r, g, b, a: 255 }
}

/// Relative luminance and contrast of the web's accessibility guidelines.
fn contrast_ratio(a: Rgba, b: Rgba) -> f64 {
    fn channel(c: u8) -> f64 {
        let c = c as f64 / 255.0;
        if c <= 0.03928 { c / 12.92 } else { ((c + 0.055) / 1.055).powf(2.4) }
    }
    fn luminance(c: Rgba) -> f64 {
        0.2126 * channel(c.r) + 0.7152 * channel(c.g) + 0.0722 * channel(c.b)
    }
    let (x, y) = (luminance(a), luminance(b));
    (x.max(y) + 0.05) / (x.min(y) + 0.05)
}

/// The same as a number that grows with it.
fn contrast(a: Rgba, b: Rgba) -> u64 {
    contrast_ratio(a, b).to_bits()
}

fn tones(palette: &ChromePalette) -> Tones {
    Tones::new(palette, 4.5f64.to_bits(), contrast as fn(Rgba, Rgba) -> u64)
}

fn palette(bg: Rgba, text: Rgba, quiet: Rgba, ring: Rgba, ok: Rgba, err: Rgba) -> ChromePalette {
    ChromePalette {
        bar_bg: bg,
        strip_bg: bg,
        tab_active_bg: bg,
        tab_inactive_bg: bg,
        tab_text: text,
        tab_text_inactive: quiet,
        tab_close_glyph: quiet,
        btn_bg: bg,
        btn_text: text,
        btn_bg_disabled: bg,
        btn_text_disabled: quiet,
        url_bg: bg,
        url_border_focused: ring,
        url_border_idle: quiet,
        url_text: text,
        select: ring,
        cursor: text,
        ok_dot: ok,
        err_text: err,
    }
}

fn dark() -> ChromePalette {
    palette(
        rgb(30, 30, 36),
        rgb(230, 230, 230),
        rgb(170, 170, 180),
        rgb(120, 170, 255),
        rgb(80, 200, 120),
        rgb(255, 120, 120),
    )
}

fn light() -> ChromePalette {
    palette(
        rgb(240, 240, 244),
        rgb(20, 20, 20),
        rgb(80, 80, 90),
        rgb(90, 160, 250),
        rgb(60, 180, 90),
        rgb(200, 60, 60),
    )
}

fn high_contrast() -> ChromePalette {
    palette(
        rgb(0, 0, 0),
        rgb(255, 255, 255),
        rgb(255, 255, 255),
        rgb(255, 255, 0),
        rgb(0, 255, 0),
        rgb(255, 80, 80),
    )
}

/// One row of every kind, including the pathological content the panel
/// has to survive: a 4 000-character value, a URL longer than the panel,
/// and a deeply indented tree row.
fn sample_rows() -> Vec<Row> {
    let row = |kind, indent, segs| Row {
        kind,
        indent,
        segs,
        node: None,
        expandable: false,
        expanded: false,
        inspect: None,
    };
    vec![
        row(
            RowKind::Header,
            0,
            vec![
                Seg::strong("Requests", Tone::Accent),
                Seg::mono("128", Tone::Muted).trail(),
            ],
        ),
        row(
            RowKind::Item,
            1,
            vec![
                Seg::mono("blocked ", Tone::Bad),
                Seg::mono("GET  ", Tone::Key),
                Seg::mono("12.4s", Tone::Muted),
                Seg::mono("1284ms · 3.2 KB", Tone::Muted).trail(),
            ],
        ),
        row(
            RowKind::Detail,
            2,
            vec![Seg::mono(&format!("mizu://host/{}", "seg/".repeat(200)), Tone::Value).middle()],
        ),
        row(
            RowKind::Detail,
            2,
            vec![Seg::mono(&"x".repeat(4000), Tone::Bad).elide()],
        ),
        row(RowKind::Empty, 1, vec![Seg::ui("(none)", Tone::Muted)]),
        Row {
            expandable: true,
            expanded: true,
            indent: 9,
            ..row(
                RowKind::Item,
                9,
                vec![
                    Seg::mono("box", Tone::Accent),
                    Seg::mono("#deeply-nested-identifier", Tone::Value),
                ],
            )
        },
        row(
            RowKind::Item,
            1,
            vec![
                Seg::mono("#3a7bd5", Tone::Value).swatch(&MizuColor {
                    r: 58,
                    g: 123,
                    b: 213,
                    a: 255,
                }),
            ],
        ),
    ]
}

/// How many clips are opened but not closed.
fn open_clips(scene: &Scene) -> i32 {
    scene.items.iter().map(|d| match d {
        Draw::PushClip { .. } => 1,
        Draw::PopClip => -1,
        _ => 0,
    }).sum()
}

/// Every tone must stay legible against the panel's background in every
/// palette.
#[test]
fn paint_every_tone_meets_wcag_aa_against_the_panel_background() {
    let schemes = [
        ("dark", dark()),
        ("light", light()),
        ("high-contrast", high_contrast()),
    ];
    let all = [
        Tone::Key,
        Tone::Value,
        Tone::Muted,
        Tone::Accent,
        Tone::Good,
        Tone::Bad,
    ];
    for (name, palette) in schemes {
        for tone in all {
            let ratio = contrast_ratio(tones(&palette).get(tone), palette.bar_bg);
            assert!(
                ratio >= 4.5,
                "{name}: {tone:?} contrasts {ratio:.2}:1 against the panel background"
            );
        }
    }
}

/// Every tone must stay legible against the panel's background in every
/// palette.
#[test]
fn tests_every_tone_meets_wcag_aa_against_the_panel_background() {
    let schemes = [
        ("dark", dark()),
        ("light", light()),
        ("high-contrast", high_contrast()),
    ];
    let all = [
        Tone::Key,
        Tone::Value,
        Tone::Muted,
        Tone::Accent,
        Tone::Good,
        Tone::Bad,
    ];
    for (name, palette) in schemes {
        for tone in all {
            let ratio = contrast_ratio(tones(&palette).get(tone), palette.bar_bg);
            assert!(
                ratio >= 4.5,
                "{name}: {tone:?} contrasts {ratio:.2}:1 against the panel background"
            );
        }
    }
}

#[test]
fn paint_byte_at_lands_on_character_boundaries() {
    let s = "héllo→";
    for n in 0..=s.chars().count() {
        let i = byte_at(s, n);
        assert!(s.is_char_boundary(i), "byte_at({n}) must not split a char");
    }
    assert_eq!(byte_at(s, 99), s.len(), "past the end clamps to the length");
}

#[test]
fn tests_byte_at_lands_on_character_boundaries() {
    let s = "héllo→";
    for n in 0..=s.chars().count() {
        let i = byte_at(s, n);
        assert!(s.is_char_boundary(i), "byte_at({n}) must not split a char");
    }
    assert_eq!(byte_at(s, 99), s.len(), "past the end clamps to the length");
}

/// The whole point of the segment model: a row that cannot fit still
/// says so with an ellipsis instead of being chopped by the clip rect.
#[test]
fn paint_segments_are_classified_before_they_are_placed() {
    let segs = [
        Seg::mono("GET", Tone::Key),
        Seg::mono("mizu://host/very/long/path", Tone::Value).middle(),
        Seg::mono("42ms", Tone::Muted).trail(),
    ];
    assert_eq!(segs[0].flex, Flex::Fixed);
    assert_eq!(segs[1].flex, Flex::ElideMiddle);
    assert_eq!(segs[2].flex, Flex::Trailing);
}

/// The whole point of the segment model: a row that cannot fit still
/// says so with an ellipsis instead of being chopped by the clip rect.
#[test]
fn tests_segments_are_classified_before_they_are_placed() {
    let segs = [
        Seg::mono("GET", Tone::Key),
        Seg::mono("mizu://host/very/long/path", Tone::Value).middle(),
        Seg::mono("42ms", Tone::Muted).trail(),
    ];
    assert_eq!(segs[0].flex, Flex::Fixed);
    assert_eq!(segs[1].flex, Flex::ElideMiddle);
    assert_eq!(segs[2].flex, Flex::Trailing);
}

/// Readability must not be bought by discarding the accent entirely: the
/// fixed-up colour still has to read as the same hue family, which is
/// what distinguishes this from falling back to plain black.
#[test]
fn paint_the_light_accent_is_darkened_rather_than_flattened() {
    let light = light();
    let ring = light.url_border_focused;
    let fixed = tones(&light).accent;
    assert!(
        contrast_ratio(fixed, light.bar_bg) >= 4.5,
        "the accent must be readable as text"
    );
    assert_ne!(fixed, ring, "the raw ring colour does not pass on light");
    assert!(
        fixed.b > fixed.r && fixed.b > fixed.g,
        "a darkened blue is still blue, unlike the black a flat fallback gives: {fixed:?}"
    );
}

/// Readability must not be bought by discarding the accent entirely: the
/// fixed-up colour still has to read as the same hue family, which is
/// what distinguishes this from falling back to plain black.
#[test]
fn tests_the_light_accent_is_darkened_rather_than_flattened() {
    let light = light();
    let ring = light.url_border_focused;
    let fixed = tones(&light).accent;
    assert!(
        contrast_ratio(fixed, light.bar_bg) >= 4.5,
        "the accent must be readable as text"
    );
    assert_ne!(fixed, ring, "the raw ring colour does not pass on light");
    assert!(
        fixed.b > fixed.r && fixed.b > fixed.g,
        "a darkened blue is still blue, unlike the black a flat fallback gives: {fixed:?}"
    );
}

#[test]
fn paint_tones_that_already_pass_are_left_alone() {
    let dark = dark();
    assert_eq!(tones(&dark).bad, dark.err_text);
    assert_eq!(tones(&dark).good, dark.ok_dot);
}

#[test]
fn tests_tones_that_already_pass_are_left_alone() {
    let dark = dark();
    assert_eq!(tones(&dark).bad, dark.err_text);
    assert_eq!(tones(&dark).good, dark.ok_dot);
}

#[test]
fn paint_tail_elision_fits_the_budget_and_marks_the_cut() {
    let mut t = text_ctx();
    let long = "mizu://example.test/a/very/long/path/that/will/not/fit.json";
    let out = t.elide_tail(long, Face::Mono, px(120) as i128);
    assert!(out.ends_with('…'), "a cut must be visible: {out:?}");
    assert!(
        long.starts_with(out.trim_end_matches('…')),
        "the kept part must be a real prefix of the original"
    );
    assert!(
        t.width(&out, Face::Mono) <= px(120) as u128,
        "and it must actually fit"
    );
}

#[test]
fn tests_tail_elision_fits_the_budget_and_marks_the_cut() {
    let mut t = text_ctx();
    let long = "mizu://example.test/a/very/long/path/that/will/not/fit.json";
    let out = t.elide_tail(long, Face::Mono, px(120) as i128);
    assert!(out.ends_with('…'), "a cut must be visible: {out:?}");
    assert!(
        long.starts_with(out.trim_end_matches('…')),
        "the kept part must be a real prefix of the original"
    );
    assert!(
        t.width(&out, Face::Mono) <= px(120) as u128,
        "and it must actually fit"
    );
}

#[test]
fn paint_middle_elision_keeps_both_ends() {
    let mut t = text_ctx();
    let long = "mizu://example.test/a/very/long/path/that/will/not/fit.json";
    let out = t.elide_middle(long, Face::Mono, px(180) as i128);
    let (head, tail) = out.split_once('…').expect("an ellipsis in the middle");
    assert!(long.starts_with(head) && !head.is_empty());
    assert!(
        long.ends_with(tail),
        "the resource name must survive: {out:?}"
    );
    assert!(t.width(&out, Face::Mono) <= px(180) as u128);
}

#[test]
fn tests_middle_elision_keeps_both_ends() {
    let mut t = text_ctx();
    let long = "mizu://example.test/a/very/long/path/that/will/not/fit.json";
    let out = t.elide_middle(long, Face::Mono, px(180) as i128);
    let (head, tail) = out.split_once('…').expect("an ellipsis in the middle");
    assert!(long.starts_with(head) && !head.is_empty());
    assert!(
        long.ends_with(tail),
        "the resource name must survive: {out:?}"
    );
    assert!(t.width(&out, Face::Mono) <= px(180) as u128);
}

#[test]
fn paint_text_that_already_fits_is_never_touched() {
    let mut t = text_ctx();
    assert_eq!(t.elide_tail("ok", Face::Mono, px(500) as i128), "ok");
    assert_eq!(t.elide_middle("ok", Face::Mono, px(500) as i128), "ok");
}

#[test]
fn tests_text_that_already_fits_is_never_touched() {
    let mut t = text_ctx();
    assert_eq!(t.elide_tail("ok", Face::Mono, px(500) as i128), "ok");
    assert_eq!(t.elide_middle("ok", Face::Mono, px(500) as i128), "ok");
}

/// Nothing a row paints may extend past the width it was given.
#[test]
fn paint_no_placed_segment_escapes_the_row() {
    let mut t = text_ctx();
    let segs = vec![
        Seg::mono("blocked ", Tone::Bad),
        Seg::mono("GET  ", Tone::Key),
        Seg::mono(
            "mizu://a.very.long.host.example.test/deeply/nested/resource/name.json",
            Tone::Value,
        )
        .middle(),
        Seg::mono("1284ms · 12.4 KB", Tone::Muted).trail(),
    ];
    for width in [px(60), px(120), px(240), px(390)] {
        let placed = place_segs(&segs, 0, width, &mut t);
        for item in &placed {
            let end = item.x + t.width(&item.text, item.face) as i64;
            assert!(
                end <= width,
                "segment {:?} ends at {end} in a {width}-wide row",
                item.text
            );
            assert!(item.x >= 0, "and none starts left of the row");
        }
    }
}

/// Nothing a row paints may extend past the width it was given.
#[test]
fn tests_no_placed_segment_escapes_the_row() {
    let mut t = text_ctx();
    let segs = vec![
        Seg::mono("blocked ", Tone::Bad),
        Seg::mono("GET  ", Tone::Key),
        Seg::mono(
            "mizu://a.very.long.host.example.test/deeply/nested/resource/name.json",
            Tone::Value,
        )
        .middle(),
        Seg::mono("1284ms · 12.4 KB", Tone::Muted).trail(),
    ];
    for width in [px(60), px(120), px(240), px(390)] {
        let placed = place_segs(&segs, 0, width, &mut t);
        for item in &placed {
            let end = item.x + t.width(&item.text, item.face) as i64;
            assert!(
                end <= width,
                "segment {:?} ends at {end} in a {width}-wide row",
                item.text
            );
            assert!(item.x >= 0, "and none starts left of the row");
        }
    }
}

#[test]
fn paint_trailing_metrics_yield_to_the_leading_content() {
    let mut t = text_ctx();
    let segs = vec![
        Seg::mono("mizu://host/resource", Tone::Value).elide(),
        Seg::mono("1284ms", Tone::Muted).trail(),
    ];
    let placed = place_segs(&segs, 0, px(50), &mut t);
    assert!(
        !placed.iter().any(|p| p.text == "1284ms"),
        "a row too narrow for both must spend its width on the payload"
    );
}

#[test]
fn tests_trailing_metrics_yield_to_the_leading_content() {
    let mut t = text_ctx();
    let segs = vec![
        Seg::mono("mizu://host/resource", Tone::Value).elide(),
        Seg::mono("1284ms", Tone::Muted).trail(),
    ];
    let placed = place_segs(&segs, 0, px(50), &mut t);
    assert!(
        !placed.iter().any(|p| p.text == "1284ms"),
        "a row too narrow for both must spend its width on the payload"
    );
}

#[test]
fn paint_a_row_with_no_room_at_all_paints_nothing() {
    let mut t = text_ctx();
    let segs = vec![Seg::mono("anything", Tone::Value).elide()];
    assert!(place_segs(&segs, px(100), px(100), &mut t).is_empty());
    assert!(place_segs(&segs, px(100), px(40), &mut t).is_empty());
}

#[test]
fn tests_a_row_with_no_room_at_all_paints_nothing() {
    let mut t = text_ctx();
    let segs = vec![Seg::mono("anything", Tone::Value).elide()];
    assert!(place_segs(&segs, px(100), px(100), &mut t).is_empty());
    assert!(place_segs(&segs, px(100), px(40), &mut t).is_empty());
}

/// The monospace fast path and a measurement must agree, or elision would
/// be measured against one metric and painted with another.
#[test]
fn paint_the_monospace_fast_path_matches_a_real_layout() {
    let mut t = text_ctx();
    let probe = "GET mizu://host/x";
    let fast = t.width(probe, Face::Mono) as f64;
    let laid = wide(probe, Face::Mono) as f64;
    assert!(
        (fast - laid).abs() <= laid * 0.02 + 0.5,
        "fast path {fast} vs layout {laid}"
    );
}

/// The monospace fast path and a measurement must agree, or elision would
/// be measured against one metric and painted with another.
#[test]
fn tests_the_monospace_fast_path_matches_a_real_layout() {
    let mut t = text_ctx();
    let probe = "GET mizu://host/x";
    let fast = t.width(probe, Face::Mono) as f64;
    let laid = wide(probe, Face::Mono) as f64;
    assert!(
        (fast - laid).abs() <= laid * 0.02 + 0.5,
        "fast path {fast} vs layout {laid}"
    );
}

/// Painting must not depend on the window being big: a panel narrower than
/// its own padding is a legitimate transient during a resize drag.
#[test]
fn paint_painting_survives_hostile_content_and_geometry() {
    let mut text = text_ctx();
    let palette = dark();
    let tones = tones(&palette);
    let rows = sample_rows();

    for (w, h) in [
        (1280, 800),
        (420, 300),
        (60, 90),
        (0, 0),
    ] {
        for tab in InspectorTab::ALL {
            let mut state = InspectorState::new();
            state.open = true;
            state.tab = tab;
            state.hover = Some((px(100), px(80)));
            state.picker = tab == InspectorTab::Style;
            state.scroll[tab.index()] = px(40);
            let mut scene = Scene::new();
            paint_panel(
                &mut scene,
                &mut text,
                &mut state,
                &PanelPaintContext {
                    rows: &rows,
                    window_width: px(w),
                    window_height: px(h),
                    palette: &palette,
                    tones: &tones,
                    lines: &LINES,
                },
                wrapped,
            );
            assert!(
                state.scroll[tab.index()] <= state.max_scroll,
                "the paint pass must clamp scroll to the content it measured"
            );
            assert_eq!(open_clips(&scene), 0);
        }
    }
}

/// Painting must not depend on the window being big: a panel narrower than
/// its own padding is a legitimate transient during a resize drag.
#[test]
fn tests_painting_survives_hostile_content_and_geometry() {
    let mut text = text_ctx();
    let palette = dark();
    let tones = tones(&palette);
    let rows = sample_rows();

    for (w, h) in [
        (1280, 800),
        (420, 300),
        (60, 90),
        (0, 0),
    ] {
        for tab in InspectorTab::ALL {
            let mut state = InspectorState::new();
            state.open = true;
            state.tab = tab;
            state.hover = Some((px(100), px(80)));
            state.picker = tab == InspectorTab::Style;
            state.scroll[tab.index()] = px(40);
            let mut scene = Scene::new();
            paint_panel(
                &mut scene,
                &mut text,
                &mut state,
                &PanelPaintContext {
                    rows: &rows,
                    window_width: px(w),
                    window_height: px(h),
                    palette: &palette,
                    tones: &tones,
                    lines: &LINES,
                },
                wrapped,
            );
            assert!(
                state.scroll[tab.index()] <= state.max_scroll,
                "the paint pass must clamp scroll to the content it measured"
            );
            assert_eq!(open_clips(&scene), 0);
        }
    }
}

/// The drawer is a second, independently-scrolling region layered on the
/// same panel; painting it must survive the same hostile geometry as the
/// row list, including a panel too short to fit it.
#[test]
fn paint_the_drawer_survives_hostile_content_and_geometry() {
    let mut text = text_ctx();
    let palette = dark();
    let tones = tones(&palette);
    let rows = sample_rows();
    let long_value = "mizu://".to_string() + &"segment/".repeat(300) + "leaf.json";

    for (w, h) in [
        (1280, 800),
        (420, 300),
        (420, 150),
        (60, 90),
        (0, 0),
    ] {
        for hover in [None, Some((PANEL_WIDTH - px(5), px(h) - px(10)))] {
            let mut state = InspectorState::new();
            state.open = true;
            state.hover = hover;
            state.value_view = Some(ValueView::new("Value".into(), long_value.clone()));
            let mut scene = Scene::new();
            paint_panel(
                &mut scene,
                &mut text,
                &mut state,
                &PanelPaintContext {
                    rows: &rows,
                    window_width: px(w),
                    window_height: px(h),
                    palette: &palette,
                    tones: &tones,
                    lines: &LINES,
                },
                wrapped,
            );
            let view = state.value_view.expect("painting must not drop the drawer");
            assert!(view.scroll <= view.max_scroll);
            assert_eq!(open_clips(&scene), 0);
        }
    }
}

/// The drawer is a second, independently-scrolling region layered on the
/// same panel; painting it must survive the same hostile geometry as the
/// row list, including a panel too short to fit it.
#[test]
fn tests_the_drawer_survives_hostile_content_and_geometry() {
    let mut text = text_ctx();
    let palette = dark();
    let tones = tones(&palette);
    let rows = sample_rows();
    let long_value = "mizu://".to_string() + &"segment/".repeat(300) + "leaf.json";

    for (w, h) in [
        (1280, 800),
        (420, 300),
        (420, 150),
        (60, 90),
        (0, 0),
    ] {
        for hover in [None, Some((PANEL_WIDTH - px(5), px(h) - px(10)))] {
            let mut state = InspectorState::new();
            state.open = true;
            state.hover = hover;
            state.value_view = Some(ValueView::new("Value".into(), long_value.clone()));
            let mut scene = Scene::new();
            paint_panel(
                &mut scene,
                &mut text,
                &mut state,
                &PanelPaintContext {
                    rows: &rows,
                    window_width: px(w),
                    window_height: px(h),
                    palette: &palette,
                    tones: &tones,
                    lines: &LINES,
                },
                wrapped,
            );
            let view = state.value_view.expect("painting must not drop the drawer");
            assert!(view.scroll <= view.max_scroll);
            assert_eq!(open_clips(&scene), 0);
        }
    }
}

#[test]
fn paint_copy_button_flashes_copied_then_reverts() {
    let mut text = text_ctx();
    let palette = dark();
    let tones = tones(&palette);
    let flash = std::time::Duration::from_nanos(COPIED_FLASH);
    let says = |scene: &Scene, label: &str| {
        scene.items.iter().any(|d| matches!(d, Draw::Text { text, .. } if text == label))
    };

    let mut just_copied = ValueView::new("Value".into(), "hello".into());
    just_copied.copied_at = Some(std::time::Instant::now());
    let mut scene = Scene::new();
    let recent = recently_copied(&just_copied);
    paint_value_drawer(
        &mut scene,
        &mut text,
        &mut just_copied,
        &DrawerPaint {
            palette: &palette,
            tones: &tones,
            lines: &LINES,
            left: 0,
            right: PANEL_WIDTH,
            panel_bottom: px(600),
            hover: None,
            recent,
        },
        wrapped,
    );
    assert!(says(&scene, "Copied") && !says(&scene, "Copy"));
    assert!(just_copied.copied_at.unwrap().elapsed() < flash);

    let mut long_ago = ValueView::new("Value".into(), "hello".into());
    long_ago.copied_at = std::time::Instant::now().checked_sub(flash * 2);
    let mut scene = Scene::new();
    let recent = recently_copied(&long_ago);
    paint_value_drawer(
        &mut scene,
        &mut text,
        &mut long_ago,
        &DrawerPaint {
            palette: &palette,
            tones: &tones,
            lines: &LINES,
            left: 0,
            right: PANEL_WIDTH,
            panel_bottom: px(600),
            hover: None,
            recent,
        },
        wrapped,
    );
    assert!(says(&scene, "Copy") && !says(&scene, "Copied"));
}

#[test]
fn tests_copy_button_flashes_copied_then_reverts() {
    let mut text = text_ctx();
    let palette = dark();
    let tones = tones(&palette);
    let flash = std::time::Duration::from_nanos(COPIED_FLASH);
    let says = |scene: &Scene, label: &str| {
        scene.items.iter().any(|d| matches!(d, Draw::Text { text, .. } if text == label))
    };

    let mut just_copied = ValueView::new("Value".into(), "hello".into());
    just_copied.copied_at = Some(std::time::Instant::now());
    let mut scene = Scene::new();
    let recent = recently_copied(&just_copied);
    paint_value_drawer(
        &mut scene,
        &mut text,
        &mut just_copied,
        &DrawerPaint {
            palette: &palette,
            tones: &tones,
            lines: &LINES,
            left: 0,
            right: PANEL_WIDTH,
            panel_bottom: px(600),
            hover: None,
            recent,
        },
        wrapped,
    );
    assert!(says(&scene, "Copied") && !says(&scene, "Copy"));
    assert!(just_copied.copied_at.unwrap().elapsed() < flash);

    let mut long_ago = ValueView::new("Value".into(), "hello".into());
    long_ago.copied_at = std::time::Instant::now().checked_sub(flash * 2);
    let mut scene = Scene::new();
    let recent = recently_copied(&long_ago);
    paint_value_drawer(
        &mut scene,
        &mut text,
        &mut long_ago,
        &DrawerPaint {
            palette: &palette,
            tones: &tones,
            lines: &LINES,
            left: 0,
            right: PANEL_WIDTH,
            panel_bottom: px(600),
            hover: None,
            recent,
        },
        wrapped,
    );
    assert!(says(&scene, "Copy") && !says(&scene, "Copied"));
}

#[test]
fn paint_the_drawer_clamps_its_own_scroll_independent_of_the_row_list() {
    let mut text = text_ctx();
    let palette = dark();
    let tones = tones(&palette);
    let rows = sample_rows();
    let mut state = InspectorState::new();
    state.open = true;
    state.scroll[InspectorTab::Elements.index()] = px(999);
    let mut view = ValueView::new("Value".into(), "x".repeat(2000));
    view.scroll = px(999_999);
    state.value_view = Some(view);

    let mut scene = Scene::new();
    paint_panel(
        &mut scene,
        &mut text,
        &mut state,
        &PanelPaintContext {
            rows: &rows,
            window_width: px(420),
            window_height: px(700),
            palette: &palette,
            tones: &tones,
            lines: &LINES,
        },
        wrapped,
    );
    let view = state.value_view.unwrap();
    assert!(
        view.scroll <= view.max_scroll,
        "a huge requested scroll must be clamped to the wrapped content's real height"
    );
    // 2000 characters at 55 to a line are 37 lines of twelve pixels.
    let room = 176 - 28 - 20;
    assert_eq!(view.max_scroll, px(37 * 12 - room));
    assert_eq!(view.scroll, view.max_scroll);
}

#[test]
fn tests_the_drawer_clamps_its_own_scroll_independent_of_the_row_list() {
    let mut text = text_ctx();
    let palette = dark();
    let tones = tones(&palette);
    let rows = sample_rows();
    let mut state = InspectorState::new();
    state.open = true;
    state.scroll[InspectorTab::Elements.index()] = px(999);
    let mut view = ValueView::new("Value".into(), "x".repeat(2000));
    view.scroll = px(999_999);
    state.value_view = Some(view);

    let mut scene = Scene::new();
    paint_panel(
        &mut scene,
        &mut text,
        &mut state,
        &PanelPaintContext {
            rows: &rows,
            window_width: px(420),
            window_height: px(700),
            palette: &palette,
            tones: &tones,
            lines: &LINES,
        },
        wrapped,
    );
    let view = state.value_view.unwrap();
    assert!(
        view.scroll <= view.max_scroll,
        "a huge requested scroll must be clamped to the wrapped content's real height"
    );
    // 2000 characters at 55 to a line are 37 lines of twelve pixels.
    let room = 176 - 28 - 20;
    assert_eq!(view.max_scroll, px(37 * 12 - room));
    assert_eq!(view.scroll, view.max_scroll);
}

#[test]
fn paint_the_measurement_cache_stays_bounded() {
    let mut metrics = TextMetrics::default();
    // UI-face strings miss the monospace fast path, so they are exactly
    // what would grow the map without a bound.
    for i in 0..METRICS_CACHE_LIMIT + 500 {
        metrics.width(&format!("label {i} ü"), Face::Ui, &wide);
    }
    assert!(metrics.cache.len() <= METRICS_CACHE_LIMIT);
    assert_eq!(metrics.cache.len(), 500);
}

#[test]
fn tests_the_measurement_cache_stays_bounded() {
    let mut metrics = TextMetrics::default();
    // UI-face strings miss the monospace fast path, so they are exactly
    // what would grow the map without a bound.
    for i in 0..METRICS_CACHE_LIMIT + 500 {
        metrics.width(&format!("label {i} ü"), Face::Ui, &wide);
    }
    assert!(metrics.cache.len() <= METRICS_CACHE_LIMIT);
    assert_eq!(metrics.cache.len(), 500);
}

#[test]
fn paint_a_face_has_exactly_one_size() {
    assert_eq!(face_size(Face::Mono), MONO_SIZE);
    assert_eq!(face_size(Face::Ui), UI_SIZE);
    assert_eq!(face_size(Face::UiStrong), HEADER_SIZE);
}

#[test]
fn tests_a_face_has_exactly_one_size() {
    assert_eq!(face_size(Face::Mono), MONO_SIZE);
    assert_eq!(face_size(Face::Ui), UI_SIZE);
    assert_eq!(face_size(Face::UiStrong), HEADER_SIZE);
}

#[test]
fn a_row_is_shared_out_in_proportion() {
    let mut t = text_ctx();
    let segs = vec![
        Seg::mono(&"a".repeat(300), Tone::Value).elide(),
        Seg::mono(&"b".repeat(100), Tone::Value).elide(),
    ];
    let placed = place_segs(&segs, 0, px(1000), &mut t);
    // Three quarters of what the gap leaves, in whole characters.
    let first = (px(1000) - SEG_GAP) * 3 / 4 / 448;
    let second = (px(1000) - SEG_GAP) / 4 / 448;
    let counts: Vec<i64> = placed.iter().map(|p| p.text.chars().count() as i64).collect();
    assert_eq!(counts, vec![first, second]);
    assert_eq!(placed[1].x, first * 448 + SEG_GAP);
}

#[test]
fn a_row_may_be_as_wide_as_can_be_counted() {
    let mut t = text_ctx();
    let segs = vec![
        Seg::mono("left", Tone::Value).elide(),
        Seg::mono("right", Tone::Muted).trail(),
    ];
    let placed = place_segs(&segs, i64::MIN, i64::MAX, &mut t);
    let ends: Vec<(&str, i64)> = placed.iter().map(|p| (p.text.as_str(), p.x)).collect();
    assert_eq!(ends, vec![("left", i64::MIN), ("right", i64::MAX - 5 * 448)]);
    // Text that is wider than a wide row is cut to it.
    let segs = vec![
        Seg::mono(&"a".repeat(3_000_000), Tone::Value).elide(),
        Seg::mono(&"b".repeat(1_000_000), Tone::Value).elide(),
    ];
    let width = px(20_000_000);
    let placed = place_segs(&segs, 0, width, &mut t);
    let counts: Vec<i64> = placed.iter().map(|p| p.text.chars().count() as i64).collect();
    assert_eq!(
        counts,
        vec![(width - SEG_GAP) * 3 / 4 / 448, (width - SEG_GAP) / 4 / 448]
    );
}
