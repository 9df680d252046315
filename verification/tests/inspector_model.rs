//! What the inspector's rows say.

use mizu_render::dom::{EventBlock, MizuNode, Primitive};
use mizu_render::inspector::model::elements::{node_label, node_label_segs, CONTENT_PREVIEW_CHARS};
use mizu_render::inspector::model::format::{format_action, format_expr};
use mizu_render::inspector::model::network_tab::fmt_bytes;
use mizu_render::inspector::model::styles::{push_decl_rows, Decl};
use mizu_render::inspector::model::types::{Flex, Row, Tone};
use mizu_render::logic::{
    Action, BinOp, Expr, ExprArena, FrozenInterner, OwnedExpr, Value,
};
use rustc_hash::FxHashMap;

fn node_with(attrs: &[(&str, &str)], events: &[&str]) -> MizuNode {
    let mut attributes = FxHashMap::default();
    for (k, v) in attrs {
        attributes.insert(k.to_string(), v.to_string());
    }
    let mut event_map = FxHashMap::default();
    for name in events {
        let action = Action::Assign {
            target: "x".to_string(),
            expr: OwnedExpr {
                arena: ExprArena {
                    nodes: vec![Expr::Literal(Value::Other("1".to_string()))],
                    args: vec![],
                },
                root: 0,
            },
        };
        event_map.insert((*name).to_string(), EventBlock::Click { action });
    }
    MizuNode {
        primitive: Primitive::Button,
        attributes,
        events: event_map,
        conditional_classes: Vec::new(),
    }
}

#[test]
fn model_format_expr_roundtrips_simple_source() {
    let mut interner = FrozenInterner::new();
    let count = interner.intern("count");
    let busy = interner.intern("busy");
    // count > 4 && !busy
    let arena = ExprArena {
        nodes: vec![
            Expr::Variable(count),
            Expr::Literal(Value::Other("4".to_string())),
            Expr::BinaryOp { left: 0, op: BinOp::Gt, right: 1 },
            Expr::Variable(busy),
            Expr::Not(3),
            Expr::BinaryOp { left: 2, op: BinOp::And, right: 4 },
        ],
        args: vec![],
    };
    assert_eq!(
        format_expr(&arena.nodes[5], &arena, &interner),
        "count > 4 && !busy"
    );
}

#[test]
fn tests_format_expr_roundtrips_simple_source() {
    let mut interner = FrozenInterner::new();
    let count = interner.intern("count");
    let busy = interner.intern("busy");
    // count > 4 && !busy
    let arena = ExprArena {
        nodes: vec![
            Expr::Variable(count),
            Expr::Literal(Value::Other("4".to_string())),
            Expr::BinaryOp { left: 0, op: BinOp::Gt, right: 1 },
            Expr::Variable(busy),
            Expr::Not(3),
            Expr::BinaryOp { left: 2, op: BinOp::And, right: 4 },
        ],
        args: vec![],
    };
    assert_eq!(
        format_expr(&arena.nodes[5], &arena, &interner),
        "count > 4 && !busy"
    );
}

#[test]
fn model_format_action_assign() {
    let mut interner = FrozenInterner::new();
    let count = interner.intern("count");
    let action = Action::Assign {
        target: "count".to_string(),
        expr: OwnedExpr {
            arena: ExprArena {
                nodes: vec![
                    Expr::Variable(count),
                    Expr::Literal(Value::Other("1".to_string())),
                    Expr::BinaryOp { left: 0, op: BinOp::Add, right: 1 },
                ],
                args: vec![],
            },
            root: 2,
        },
    };
    assert_eq!(format_action(&action, &interner), "count = count + 1");
}

#[test]
fn tests_format_action_assign() {
    let mut interner = FrozenInterner::new();
    let count = interner.intern("count");
    let action = Action::Assign {
        target: "count".to_string(),
        expr: OwnedExpr {
            arena: ExprArena {
                nodes: vec![
                    Expr::Variable(count),
                    Expr::Literal(Value::Other("1".to_string())),
                    Expr::BinaryOp { left: 0, op: BinOp::Add, right: 1 },
                ],
                args: vec![],
            },
            root: 2,
        },
    };
    assert_eq!(format_action(&action, &interner), "count = count + 1");
}

#[test]
fn model_node_label_shows_events_and_class() {
    let node = node_with(&[("class", "card")], &["click"]);
    let label = node_label(&node, None);
    assert!(label.contains("button"));
    assert!(label.contains(".card"));
    assert!(label.contains("[click]"));
}

#[test]
fn tests_node_label_shows_events_and_class() {
    let node = node_with(&[("class", "card")], &["click"]);
    let label = node_label(&node, None);
    assert!(label.contains("button"));
    assert!(label.contains(".card"));
    assert!(label.contains("[click]"));
}

#[test]
fn model_node_label_segments_are_individually_toned() {
    let node = node_with(&[("id", "save"), ("class", "primary")], &[]);
    let segs = node_label_segs(&node, None);
    assert_eq!(segs[0].text, "button");
    assert_eq!(segs[0].tone, Tone::Accent, "the tag carries the accent");
    assert_eq!(segs[1].text, "#save");
    assert_eq!(segs[2].text, ".primary");
    assert!(
        segs.iter().all(|s| s.flex != Flex::Elide),
        "with no text content there is nothing that should yield first"
    );
}

#[test]
fn tests_node_label_segments_are_individually_toned() {
    let node = node_with(&[("id", "save"), ("class", "primary")], &[]);
    let segs = node_label_segs(&node, None);
    assert_eq!(segs[0].text, "button");
    assert_eq!(segs[0].tone, Tone::Accent, "the tag carries the accent");
    assert_eq!(segs[1].text, "#save");
    assert_eq!(segs[2].text, ".primary");
    assert!(
        segs.iter().all(|s| s.flex != Flex::Elide),
        "with no text content there is nothing that should yield first"
    );
}

#[test]
fn model_long_content_is_the_segment_that_yields() {
    let long = "a".repeat(400);
    let node = node_with(&[("content", long.as_str())], &[]);
    let segs = node_label_segs(&node, None);
    let content = segs
        .iter()
        .find(|s| s.text.starts_with('"'))
        .expect("content segment");
    assert_eq!(
        content.flex,
        Flex::Elide,
        "the text preview must be the segment the painter shrinks"
    );
    assert!(
        content.text.chars().count() <= CONTENT_PREVIEW_CHARS + 3,
        "a whole paragraph must not be pasted onto one tree row"
    );
}

#[test]
fn tests_long_content_is_the_segment_that_yields() {
    let long = "a".repeat(400);
    let node = node_with(&[("content", long.as_str())], &[]);
    let segs = node_label_segs(&node, None);
    let content = segs
        .iter()
        .find(|s| s.text.starts_with('"'))
        .expect("content segment");
    assert_eq!(
        content.flex,
        Flex::Elide,
        "the text preview must be the segment the painter shrinks"
    );
    assert!(
        content.text.chars().count() <= CONTENT_PREVIEW_CHARS + 3,
        "a whole paragraph must not be pasted onto one tree row"
    );
}

#[test]
fn model_content_preview_collapses_newlines() {
    let node = node_with(&[("content", "first\n\n  second")], &[]);
    let label = node_label(&node, None);
    assert!(
        label.contains("\"first second\""),
        "embedded whitespace must not break the single-line row: {label}"
    );
}

#[test]
fn tests_content_preview_collapses_newlines() {
    let node = node_with(&[("content", "first\n\n  second")], &[]);
    let label = node_label(&node, None);
    assert!(
        label.contains("\"first second\""),
        "embedded whitespace must not break the single-line row: {label}"
    );
}

#[test]
fn model_row_heights_differ_by_role() {
    assert!(
        Row::header("x").height() > Row::item(0, vec![]).height(),
        "headers need the extra leading that separates sections"
    );
    assert!(Row::detail(0, vec![]).height() < Row::item(0, vec![]).height());
}

#[test]
fn tests_row_heights_differ_by_role() {
    assert!(
        Row::header("x").height() > Row::item(0, vec![]).height(),
        "headers need the extra leading that separates sections"
    );
    assert!(Row::detail(0, vec![]).height() < Row::item(0, vec![]).height());
}

#[test]
fn model_byte_counts_are_human_readable() {
    assert_eq!(fmt_bytes(512), "512 B");
    assert_eq!(fmt_bytes(2048), "2.0 KB");
    assert_eq!(fmt_bytes(5 * 1024 * 1024), "5.0 MB");
}

#[test]
fn tests_byte_counts_are_human_readable() {
    assert_eq!(fmt_bytes(512), "512 B");
    assert_eq!(fmt_bytes(2048), "2.0 KB");
    assert_eq!(fmt_bytes(5 * 1024 * 1024), "5.0 MB");
}

#[test]
fn model_declaration_names_are_padded_into_a_column() {
    let mut rows = Vec::new();
    push_decl_rows(
        &mut rows,
        &[Decl::new("gap", "4"), Decl::new("border-radius", "8")],
    );
    let widths: Vec<usize> = rows.iter().map(|r| r.segs[0].text.len()).collect();
    assert_eq!(
        widths[0], widths[1],
        "values must line up in a column, so names pad to a common width"
    );
}

#[test]
fn tests_declaration_names_are_padded_into_a_column() {
    let mut rows = Vec::new();
    push_decl_rows(
        &mut rows,
        &[Decl::new("gap", "4"), Decl::new("border-radius", "8")],
    );
    let widths: Vec<usize> = rows.iter().map(|r| r.segs[0].text.len()).collect();
    assert_eq!(
        widths[0], widths[1],
        "values must line up in a column, so names pad to a common width"
    );
}
