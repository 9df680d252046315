//! What the inspector panel paints, command by command.

use ego_tree::Tree;
use mizu_render::chrome::geometry::CHROME_HEIGHT;
use mizu_render::dom::{Dom, MizuNode, Primitive};
use mizu_render::inspector::model::types::{Face, Row, Seg, Tone, ROW_HEIGHT};
use mizu_render::inspector::paint::bars::{
    paint_node_highlight, paint_scrollbar, paint_tab_bar, TabBarPaint, HIGHLIGHT_FILL_ALPHA,
    MIN_THUMB_H, STRIP_W,
};
use mizu_render::inspector::paint::color::{readable, Tones};
use mizu_render::inspector::paint::drawer::{
    paint_value_drawer, recently_copied, says_copied, DrawerPaint, COPIED_FLASH,
};
use mizu_render::inspector::paint::gauge::{TextCtx, TextMetrics, PROBE};
use mizu_render::inspector::paint::panel::{paint_panel_at, PanelPaintContext};
use mizu_render::inspector::paint::rows::{paint_row, LineMetrics, RowPaint};
use mizu_render::inspector::paint::segments::{place_segs, swatch_width};
use mizu_render::inspector::panel::{
    handle_panel_click, panel_hit, panel_left, InspectorState, InspectorTab, PanelHit, ValueView,
    DRAWER_HEIGHT, HPAD, PANEL_WIDTH, PICKER_BTN_WIDTH, TAB_BAR_HEIGHT,
};
use mizu_render::px::Rect;
use mizu_render::scene::{ChromePalette, Draw, Mark, Rgba, Scene, TextStyle};
use mizu_render::style::MizuColor;
use rustc_hash::FxHashMap;

fn px(v: i64) -> i64 {
    v * 64
}

fn rect(x0: i64, y0: i64, x1: i64, y1: i64) -> Rect {
    Rect { x0, y0, x1, y1 }
}

/// Seven pixels for every monospace character, six for every other.
fn wide(text: &str, face: Face) -> u32 {
    text.chars().count() as u32 * if face == Face::Mono { 448 } else { 384 }
}

fn text_ctx() -> TextCtx<fn(&str, Face) -> u32> {
    TextCtx { metrics: TextMetrics::default(), measure: wide }
}

/// Text wrapped to a width: lines of ten pixels.
fn wrapped(text: &str, max_width: i64) -> u32 {
    let per_line = (max_width / 448).max(1) as usize;
    (text.chars().count().div_ceil(per_line) * 640) as u32
}

const LINES: LineMetrics = LineMetrics {
    ui_height: 13 * 64,
    ui_ascent: 10 * 64,
    strong_height: 11 * 64,
    strong_ascent: 8 * 64,
    mono_height: 13 * 64,
    mono_ascent: 9 * 64,
};

fn red(r: u8) -> Rgba {
    Rgba { r, g: 0, b: 0, a: 255 }
}

fn palette() -> ChromePalette {
    ChromePalette {
        bar_bg: red(1),
        strip_bg: red(2),
        tab_active_bg: red(3),
        tab_inactive_bg: red(4),
        tab_text: red(5),
        tab_text_inactive: red(6),
        tab_close_glyph: red(7),
        btn_bg: red(8),
        btn_text: red(9),
        btn_bg_disabled: red(10),
        btn_text_disabled: red(11),
        url_bg: red(12),
        url_border_focused: red(13),
        url_border_idle: red(14),
        url_text: red(15),
        select: red(16),
        cursor: red(17),
        ok_dot: red(18),
        err_text: red(19),
    }
}

const TONES: Tones = Tones {
    key: Rgba { r: 0, g: 1, b: 0, a: 255 },
    value: Rgba { r: 0, g: 2, b: 0, a: 255 },
    muted: Rgba { r: 0, g: 3, b: 0, a: 255 },
    accent: Rgba { r: 0, g: 4, b: 0, a: 255 },
    good: Rgba { r: 0, g: 5, b: 0, a: 255 },
    bad: Rgba { r: 0, g: 6, b: 0, a: 255 },
};

fn same(scene: &Scene, want: &[Draw]) {
    let all: Vec<String> = scene.items.iter().map(|d| format!("{d:?}")).collect();
    let want: Vec<String> = want.iter().map(|d| format!("{d:?}")).collect();
    assert_eq!(all, want);
}

fn text(t: &str, face: Face, x: i64, y: i64, color: Rgba) -> Draw {
    Draw::Text {
        text: t.to_string(),
        style: TextStyle::Panel(face),
        x,
        y,
        color,
        percent: 100,
    }
}

#[test]
fn an_item_row() {
    let p = palette();
    let mut scene = Scene::new();
    let chip = MizuColor { r: 50, g: 60, b: 70, a: 80 };
    let row = Row::item(
        1,
        vec![
            Seg::mono("size", Tone::Key),
            Seg::mono("#323c46", Tone::Value).swatch(&chip),
            Seg::ui("end", Tone::Muted).trail(),
        ],
    );
    paint_row(
        &mut scene,
        &mut text_ctx(),
        &p,
        &TONES,
        &LINES,
        &RowPaint {
            row: &row,
            y: px(100),
            left: px(10),
            content_x1: px(400),
            selected: false,
            hovered: true,
            show_guides: false,
        },
    );
    // The line is 13 pixels high in a row of 21, and stands on one baseline.
    let x = 10 + 11 + 13;
    let chip_x = x + 28 + 6;
    let chip_middle = px(104) + px(1) + 13 * 32;
    let chip_rect = rect(
        px(chip_x),
        chip_middle - 288,
        px(chip_x + 9),
        chip_middle + 288,
    );
    same(
        &scene,
        &[
            Draw::Fill { rect: rect(px(10), px(100), px(400), px(121)), color: p.tab_inactive_bg },
            text("size", Face::Mono, px(x), px(105), TONES.key),
            Draw::FillRound {
                rect: chip_rect,
                radius: px(2),
                color: Rgba { r: 50, g: 60, b: 70, a: 80 },
            },
            Draw::OutlineRound {
                rect: chip_rect,
                radius: px(2),
                width: px(1),
                color: Rgba { a: 0x66, ..p.url_border_idle },
            },
            text("#323c46", Face::Mono, px(chip_x + 14), px(105), TONES.value),
            text("end", Face::Ui, px(400 - 11 - 18), px(104), TONES.muted),
        ],
    );
    assert_eq!(swatch_width(&row.segs[1]), px(14));
    assert_eq!((LINES.line_height(Face::Ui), LINES.line_ascent(Face::Mono)), (px(13), px(9)));
}

#[test]
fn a_header_row_is_in_capitals_with_a_rule() {
    let p = palette();
    let mut scene = Scene::new();
    let row = Row::header_n("straße", 3);
    paint_row(
        &mut scene,
        &mut text_ctx(),
        &p,
        &TONES,
        &LINES,
        &RowPaint {
            row: &row,
            y: 0,
            left: 0,
            content_x1: px(400),
            selected: false,
            hovered: true,
            show_guides: false,
        },
    );
    match &scene.items[0] {
        Draw::Text { text, .. } => assert_eq!(text, "STRASSE"),
        other => panic!("{other:?}"),
    }
    match &scene.items[1] {
        Draw::Text { text, x, .. } => {
            assert_eq!((text.as_str(), *x), ("3", px(400 - 11 - 7)));
        }
        other => panic!("{other:?}"),
    }
    // A rule leads from the label to the count.
    match &scene.items[2] {
        Draw::Fill { rect, color } => {
            assert_eq!((rect.x0, rect.x1), (px(11 + 42 + 8), px(400 - 11 - 7 - 8)));
            assert_eq!(*color, Rgba { a: 0x66, ..p.url_border_idle });
        }
        other => panic!("{other:?}"),
    }
}

#[test]
fn a_tree_row_has_guides_and_a_triangle() {
    let p = palette();
    let mut scene = Scene::new();
    let row = Row {
        node: Some(4),
        expandable: true,
        expanded: false,
        ..Row::item(2, vec![Seg::mono("box", Tone::Accent)])
    };
    paint_row(
        &mut scene,
        &mut text_ctx(),
        &p,
        &TONES,
        &LINES,
        &RowPaint {
            row: &row,
            y: 0,
            left: 0,
            content_x1: px(400),
            selected: true,
            hovered: false,
            show_guides: true,
        },
    );
    let guide = |i: i64| {
        let x = px(11 + 13 * i) + px(13) / 2;
        Draw::Fill {
            rect: rect(x, 0, x + px(1), ROW_HEIGHT),
            color: Rgba { a: 0x44, ..p.url_border_idle },
        }
    };
    same(
        &scene,
        &[
            Draw::Fill { rect: rect(0, 0, px(400), ROW_HEIGHT), color: p.tab_active_bg },
            Draw::Fill { rect: rect(0, 0, px(2), ROW_HEIGHT), color: p.url_border_focused },
            guide(0),
            guide(1),
            Draw::Mark {
                mark: Mark::Collapsed,
                cx: px(11 + 26) + px(13) / 2,
                cy: ROW_HEIGHT / 2,
                color: p.tab_text_inactive,
            },
            text("box", Face::Mono, HPAD + px(26 + 13), px(4), TONES.accent),
        ],
    );
}

#[test]
fn the_tab_bar_lights_up_where_it_is_clicked() {
    let p = palette();
    let rows: Vec<Row> = vec![];
    for x in (0..PANEL_WIDTH).step_by(97) {
        let mut scene = Scene::new();
        paint_tab_bar(
            &mut scene,
            &mut text_ctx(),
            &TabBarPaint {
                palette: &p,
                lines: &LINES,
                left: px(100),
                right: px(100) + PANEL_WIDTH,
                top: CHROME_HEIGHT,
                active: InspectorTab::Logic,
                picker: false,
                hover: Some((x, px(5))),
            },
        );
        let lit = scene.items.iter().find_map(|d| match d {
            Draw::Fill { rect, color } if *color == p.tab_inactive_bg => Some(*rect),
            _ => None,
        });
        match panel_hit(&rows, 0, px(500), false, x, px(5)) {
            PanelHit::Tab(InspectorTab::Logic) => assert!(lit.is_none()),
            PanelHit::Tab(_) | PanelHit::Picker => {
                let lit = lit.unwrap();
                assert!(lit.x0 <= px(100) + x && px(100) + x < lit.x1, "{x}");
            }
            other => panic!("{other:?}"),
        }
        let labels: Vec<&str> = scene
            .items
            .iter()
            .filter_map(|d| match d {
                Draw::Text { text, .. } => Some(text.as_str()),
                _ => None,
            })
            .collect();
        let all: Vec<&str> = InspectorTab::ALL.iter().map(|t| t.label()).collect();
        assert_eq!(labels, all);
    }
    assert_eq!(STRIP_W + PICKER_BTN_WIDTH, PANEL_WIDTH);
}

#[test]
fn the_thumb_shows_what_is_seen() {
    let p = palette();
    let thumb = |viewport: i64, content: i64, scroll: i64| {
        let mut scene = Scene::new();
        let max = (content - viewport).max(0);
        let bottom = px(100) + viewport;
        paint_scrollbar(&mut scene, &p, px(400), px(100), bottom, viewport, content, scroll, max);
        scene.items.iter().find_map(|d| match d {
            Draw::FillRound { rect, color, .. } if *color == p.url_border_idle => {
                Some((rect.y0, rect.y1))
            }
            _ => None,
        })
    };
    assert_eq!(thumb(px(200), px(200), 0), None);
    assert_eq!(thumb(px(200), px(400), 0), Some((px(100), px(200))));
    assert_eq!(thumb(px(200), px(400), px(100)), Some((px(150), px(250))));
    assert_eq!(thumb(px(200), px(400), px(200)), Some((px(200), px(300))));
    let (top, bottom) = thumb(px(200), px(100_000), 0).unwrap();
    assert_eq!(bottom - top, MIN_THUMB_H);
}

#[test]
fn a_highlight_is_a_tint_with_an_edge() {
    let p = palette();
    let mut scene = Scene::new();
    let r = rect(px(1), px(2), px(30), px(40));
    paint_node_highlight(&mut scene, r, &p);
    match &scene.items[0] {
        Draw::Fill { rect, color } => {
            assert_eq!(*rect, r);
            assert_eq!(color.a, HIGHLIGHT_FILL_ALPHA);
        }
        other => panic!("{other:?}"),
    }
    assert!(matches!(&scene.items[1], Draw::Outline { rect, .. } if *rect == r));
    assert_eq!(scene.items.len(), 2);
}

#[test]
fn the_drawer_is_painted_over_the_rows() {
    let p = palette();
    let mut scene = Scene::new();
    let mut view = ValueView::new("größe".to_string(), "v".repeat(2_000));
    let bottom = px(600);
    assert!(!recently_copied(&view));
    assert!(says_copied(0) && says_copied(COPIED_FLASH - 1) && !says_copied(COPIED_FLASH));
    let hover = Some((PANEL_WIDTH - px(5), bottom - DRAWER_HEIGHT - CHROME_HEIGHT + px(3)));
    paint_value_drawer(
        &mut scene,
        &mut text_ctx(),
        &mut view,
        &DrawerPaint {
            palette: &p,
            tones: &TONES,
            lines: &LINES,
            left: px(300),
            right: px(300) + PANEL_WIDTH,
            panel_bottom: bottom,
            hover,
            recent: false,
        },
        wrapped,
    );
    let top = bottom - DRAWER_HEIGHT;
    let right = px(300) + PANEL_WIDTH;
    // The close button is lit, the title is in capitals.
    assert_eq!(
        format!("{:?}", scene.items[3]),
        format!(
            "{:?}",
            Draw::Fill {
                rect: rect(right - px(28), top + px(1), right, top + px(28)),
                color: p.tab_inactive_bg,
            }
        )
    );
    assert!(scene.items.iter().any(|d| matches!(d, Draw::Text { text, .. } if text == "GRÖSSE")));
    assert!(scene.items.iter().any(|d| matches!(d, Draw::Text { text, .. } if text == "Copy")));
    let body = scene.items.iter().find_map(|d| match d {
        Draw::Wrapped { x, y, max_width, .. } => Some((*x, *y, *max_width)),
        _ => None,
    });
    assert_eq!(body, Some((px(310), top + px(28 + 10), px(420 - 20 - 10))));
    // 2000 characters are 37 lines at 55 to a line, of ten pixels each.
    assert_eq!(view.max_scroll, px(370 - (176 - 28 - 20)));
    assert_eq!(
        panel_hit(&[], 0, px(600) - CHROME_HEIGHT, true, hover.unwrap().0, hover.unwrap().1),
        PanelHit::DrawerClose
    );
}

#[test]
fn the_panel_is_painted_whole() {
    let p = palette();
    let rows: Vec<Row> = (0..50)
        .map(|i| Row::item(0, vec![Seg::mono(&format!("row {i}"), Tone::Value)]))
        .collect();
    let mut state = InspectorState::new();
    state.open = true;
    state.scroll[0] = px(30);
    let mut scene = Scene::new();
    let ctx = PanelPaintContext {
        rows: &rows,
        window_width: px(1000),
        window_height: px(400),
        palette: &p,
        tones: &TONES,
        lines: &LINES,
    };
    paint_panel_at(&mut scene, &mut text_ctx(), &mut state, &ctx, wrapped, false);
    let shown: Vec<&str> = scene
        .items
        .iter()
        .filter_map(|d| match d {
            Draw::Text { text, .. } if text.starts_with("row") => Some(text.as_str()),
            _ => None,
        })
        .collect();
    // Scrolled by 30, row 1 is the first that can be seen; 315 pixels are left
    // of 400 below the chrome and the tab bar.
    assert_eq!(shown.first(), Some(&"row 1"));
    assert_eq!(shown.last(), Some(&"row 16"));
    assert_eq!(state.scroll[0], px(30));
    assert_eq!(state.max_scroll, px(50 * 21 + 8) - px(400 - 54 - 31));
    assert_eq!(panel_left(px(1000)), px(1000) - PANEL_WIDTH);
    assert_eq!(panel_left(px(100)), 0);
    let first = format!("{:?}", scene.items[0]);
    assert!(first.contains(&format!("x0: {}", px(580))), "{first}");
}

#[test]
fn widths_are_measured_once() {
    let calls = std::cell::Cell::new(0);
    let count = |text: &str, face: Face| {
        calls.set(calls.get() + 1);
        wide(text, face)
    };
    let mut metrics = TextMetrics::default();
    assert_eq!(metrics.width("label", Face::Ui, &count), 5 * 384);
    assert_eq!(metrics.width("label", Face::Ui, &count), 5 * 384);
    assert_eq!(calls.get(), 1);
    assert_eq!(metrics.cache.len(), 1);
    // One measured run gives the width of every monospace text.
    assert_eq!(metrics.width("abc", Face::Mono, &count), 3 * 448);
    assert_eq!(metrics.width("abcdef", Face::Mono, &count), 6 * 448);
    assert_eq!(calls.get(), 2);
    assert_eq!(metrics.mono_advance, Some(wide(PROBE, Face::Mono)));
    assert_eq!(metrics.width("", Face::Ui, &count), 0);
}

#[test]
fn what_is_left_of_a_row_is_shared() {
    let mut t = text_ctx();
    let segs = vec![
        Seg::mono("GET", Tone::Key),
        Seg::mono("mizu://host/path/leaf", Tone::Value).middle(),
        Seg::mono("5ms", Tone::Muted).trail(),
    ];
    let texts = |placed: Vec<mizu_render::inspector::paint::segments::Placed>| {
        placed.iter().map(|p| (p.x, p.text.clone())).collect::<Vec<(i64, String)>>()
    };
    let roomy = texts(place_segs(&segs, 0, px(400), &mut t));
    assert_eq!(
        roomy,
        vec![
            (0, "GET".to_string()),
            (px(21 + 6), "mizu://host/path/leaf".to_string()),
            (px(400 - 21), "5ms".to_string()),
        ]
    );
    let tight = texts(place_segs(&segs, 0, px(140), &mut t));
    assert_eq!(tight[0].1, "GET");
    assert!(tight[1].1.contains('…') && tight[1].1.ends_with('f'), "{tight:?}");
}

/// A made-up measure of contrast: the distance between the reds.
fn distance(a: Rgba, b: Rgba) -> u64 {
    (a.r as i64 - b.r as i64).unsigned_abs()
}

#[test]
fn colours_are_changed_as_little_as_it_takes() {
    let bg = red(250);
    assert_eq!(readable(red(100), bg, 150, distance), red(100));
    let fixed = readable(red(240), bg, 100, distance);
    assert!(distance(fixed, bg) >= 100);
    assert!(distance(fixed, bg) <= 101, "{fixed:?}");
}

#[test]
fn the_panel_forgets_a_document_that_is_gone() {
    let mut tree = Tree::new(MizuNode {
        primitive: Primitive::Doc,
        attributes: FxHashMap::default(),
        events: FxHashMap::default(),
        conditional_classes: vec![],
    });
    let mut at = tree.root().id();
    for _ in 0..3 {
        let value = MizuNode {
            primitive: Primitive::Box,
            attributes: FxHashMap::default(),
            events: FxHashMap::default(),
            conditional_classes: vec![],
        };
        at = tree.get_mut(at).unwrap().append(value).id();
    }
    let dom = Dom::from_tree(&tree).unwrap();
    let mut state = InspectorState::new();
    state.open = true;
    state.collapsed.extend([0, 1, 2, 3, 9]);
    state.set_picker(true);
    state.picker_hover = Some(2);
    state.select_with_ancestors(&dom, 3);
    assert_eq!(state.selected, Some(3));
    let mut folded: Vec<usize> = state.collapsed.iter().copied().collect();
    folded.sort();
    assert_eq!(folded, vec![9]);
    state.scroll_to(px(500), px(300));
    assert_eq!(state.scroll_offset(), px(500) - px(300) * 33 / 100);
    state.scroll_to(px(50), px(300));
    assert_eq!(state.scroll_offset(), 0);
    state.set_picker(false);
    assert_eq!(state.picker_hover, None);
    state.value_view = Some(ValueView::new("t".to_string(), "x".to_string()));
    state.reset_document_state();
    assert_eq!(state.selected, None);
    assert!(state.collapsed.is_empty() && state.value_view.is_none());
    assert!(state.open);
}

#[test]
fn copying_gives_the_whole_text() {
    let mut state = InspectorState::new();
    state.open = true;
    let long = "x".repeat(9_999);
    state.value_view = Some(ValueView::new("t".to_string(), long.clone()));
    let height = px(500);
    let y = height - DRAWER_HEIGHT + px(4);
    let outcome = handle_panel_click(&mut state, &[], height, PANEL_WIDTH - px(28 + 10), y);
    assert_eq!(outcome.copy, Some(long));
    assert!(recently_copied(state.value_view.as_ref().unwrap()));
    let outcome = handle_panel_click(&mut state, &[], height, PANEL_WIDTH - px(4), y);
    assert!(outcome.changed && outcome.copy.is_none() && state.value_view.is_none());
    assert_eq!(
        panel_hit(&[], 0, height, false, px(3), TAB_BAR_HEIGHT + px(9)),
        PanelHit::Background
    );
}

#[test]
fn offsets_are_held_whatever_is_measured() {
    let p = palette();
    let rows: Vec<Row> = (0..50)
        .map(|i| Row::item(0, vec![Seg::mono(&format!("row {i}"), Tone::Value)]))
        .collect();
    let ctx = PanelPaintContext {
        rows: &rows,
        window_width: px(1000),
        window_height: px(400),
        palette: &p,
        tones: &TONES,
        lines: &LINES,
    };
    // What these answer changes from call to call.
    let calls = std::cell::Cell::new(0u32);
    let width = |_: &str, _: Face| {
        calls.set(calls.get() + 64);
        calls.get()
    };
    let mut text = TextCtx { metrics: TextMetrics::default(), measure: width };
    let mut state = InspectorState::new();
    state.open = true;
    state.scroll[0] = px(100_000);
    let mut view = ValueView::new("title".to_string(), "text".to_string());
    view.scroll = px(5_000);
    state.value_view = Some(view);
    let mut heights = Vec::new();
    for round in 0..3u32 {
        let height = |_: &str, w: i64| {
            assert_eq!(w, px(420 - 20 - 10));
            64 * (100 + 200 * round)
        };
        paint_panel_at(&mut Scene::new(), &mut text, &mut state, &ctx, height, false);
        // The drawer takes 176 pixels away from the rows.
        assert_eq!(state.max_scroll, px(50 * 21 + 8) - px(400 - 54 - 31 - 176));
        assert_eq!(state.scroll[0], state.max_scroll);
        let drawer = state.value_view.as_ref().unwrap();
        assert_eq!((drawer.title.as_str(), drawer.text.as_str()), ("title", "text"));
        heights.push((drawer.max_scroll, drawer.scroll));
    }
    assert_eq!(
        heights,
        vec![(0, 0), (px(300 - 128), 0), (px(500 - 128), 0)]
    );
}
