//! What is under the pointer.

use std::collections::HashMap;

use ego_tree::{NodeId as EgoNodeId, Tree};
use mizu_render::dom::{Dom, MizuNode, Primitive};
use mizu_render::hit_test::{hit_test, node_screen_rect, LayoutBox};
use mizu_render::px::Rect;
use rustc_hash::FxHashMap;
use taffy::prelude::TaffyMaxContent;
use taffy::TaffyTree;

fn px(v: i64) -> i64 {
    v * 64
}

fn element(primitive: Primitive) -> MizuNode {
    MizuNode {
        primitive,
        attributes: FxHashMap::default(),
        events: FxHashMap::default(),
        conditional_classes: Vec::new(),
    }
}

fn sized(width: f32, height: f32) -> taffy::style::Style {
    taffy::style::Style {
        size: taffy::geometry::Size {
            width: taffy::style::Dimension::Length(width),
            height: taffy::style::Dimension::Length(height),
        },
        ..Default::default()
    }
}

/// The boxes that were laid out, by the place of their nodes.
fn boxes(
    tree: &Tree<MizuNode>,
    taffy: &TaffyTree<EgoNodeId>,
    node_to_taffy_id: &HashMap<EgoNodeId, taffy::prelude::NodeId>,
) -> HashMap<usize, LayoutBox> {
    let mut out = HashMap::new();
    for (i, n) in tree.nodes().enumerate() {
        if let Some(t) = node_to_taffy_id.get(&n.id()) {
            let l = taffy.layout(*t).unwrap();
            out.insert(
                i,
                LayoutBox {
                    x: (l.location.x * 64.0) as i64,
                    y: (l.location.y * 64.0) as i64,
                    width: (l.size.width * 64.0) as i64,
                    height: (l.size.height * 64.0) as i64,
                },
            );
        }
    }
    out
}

#[test]
fn hit_test_test_hit_test_inside() {
    let mut tree = Tree::new(element(Primitive::Doc));
    let root_id = tree.root().id();
    let child_id = tree.root_mut().append(element(Primitive::Button)).id();

    let mut taffy = TaffyTree::<EgoNodeId>::new();
    let mut node_to_taffy_id = HashMap::new();
    let t_child = taffy.new_leaf_with_context(sized(100.0, 50.0), child_id).unwrap();
    node_to_taffy_id.insert(child_id, t_child);
    let t_root = taffy.new_with_children(sized(800.0, 600.0), &[t_child]).unwrap();
    node_to_taffy_id.insert(root_id, t_root);
    taffy
        .compute_layout(t_root, taffy::geometry::Size::MAX_CONTENT)
        .unwrap();

    let dom = Dom::from_tree(&tree).unwrap();
    let boxes = boxes(&tree, &taffy, &node_to_taffy_id);
    let scroll_offsets = HashMap::new();

    // Hit the root but not the child
    let hit1 = hit_test(&dom, &boxes, &scroll_offsets, px(200), px(200));
    assert_eq!(hit1, Some(0));

    // Hit the child (assuming child is placed at 0,0 since no margin/padding)
    let hit2 = hit_test(&dom, &boxes, &scroll_offsets, px(50), px(25));
    assert_eq!(hit2, Some(1));

    // Outside everything (if root was smaller, but root is 800x600, so outside is >800 or <0)
    let hit3 = hit_test(&dom, &boxes, &scroll_offsets, px(-10), px(200));
    assert_eq!(hit3, None);
}

#[test]
fn tests_test_hit_test_inside() {
    let mut tree = Tree::new(element(Primitive::Doc));
    let root_id = tree.root().id();
    let child_id = tree.root_mut().append(element(Primitive::Button)).id();

    let mut taffy = TaffyTree::<EgoNodeId>::new();
    let mut node_to_taffy_id = HashMap::new();
    let t_child = taffy.new_leaf_with_context(sized(100.0, 50.0), child_id).unwrap();
    node_to_taffy_id.insert(child_id, t_child);
    let t_root = taffy.new_with_children(sized(800.0, 600.0), &[t_child]).unwrap();
    node_to_taffy_id.insert(root_id, t_root);
    taffy
        .compute_layout(t_root, taffy::geometry::Size::MAX_CONTENT)
        .unwrap();

    let dom = Dom::from_tree(&tree).unwrap();
    let boxes = boxes(&tree, &taffy, &node_to_taffy_id);
    let scroll_offsets = HashMap::new();

    // Hit the root but not the child
    let hit1 = hit_test(&dom, &boxes, &scroll_offsets, px(200), px(200));
    assert_eq!(hit1, Some(0));

    // Hit the child (assuming child is placed at 0,0 since no margin/padding)
    let hit2 = hit_test(&dom, &boxes, &scroll_offsets, px(50), px(25));
    assert_eq!(hit2, Some(1));

    // Outside everything (if root was smaller, but root is 800x600, so outside is >800 or <0)
    let hit3 = hit_test(&dom, &boxes, &scroll_offsets, px(-10), px(200));
    assert_eq!(hit3, None);
}

/// A document with a scrolled list of two rows.
fn scrolled() -> (Tree<MizuNode>, HashMap<usize, LayoutBox>, HashMap<usize, i64>) {
    let mut tree = Tree::new(element(Primitive::Doc));
    let list = tree.root_mut().append(element(Primitive::Box)).id();
    tree.get_mut(list).unwrap().append(element(Primitive::Text));
    tree.get_mut(list).unwrap().append(element(Primitive::Text));
    let cell = |x, y, width, height| LayoutBox {
        x: px(x),
        y: px(y),
        width: px(width),
        height: px(height),
    };
    let boxes = [
        (0, cell(0, 0, 400, 300)),
        (1, cell(10, 20, 200, 100)),
        (2, cell(0, 0, 200, 80)),
        (3, cell(0, 80, 200, 80)),
    ];
    (tree, boxes.into_iter().collect(), [(1, px(60))].into_iter().collect())
}

/// The row that was scrolled to is hit, where it is shown.
#[test]
fn scrolled_content_is_hit_where_it_is_shown() {
    let (tree, boxes, scrolls) = scrolled();
    let dom = Dom::from_tree(&tree).unwrap();
    let at = |x, y| hit_test(&dom, &boxes, &scrolls, px(x), px(y));
    // Scrolled by 60, the first row shows its last 20 pixels.
    assert_eq!(at(50, 25), Some(2));
    assert_eq!(at(50, 45), Some(3));
    // A row does not reach out of the list that it is in.
    assert_eq!(at(50, 125), Some(0));
    assert_eq!(at(50, 10), Some(0));
    assert_eq!(at(500, 10), None);
}

/// Of two that overlap, the earlier one is hit.
#[test]
fn the_first_of_siblings_is_hit() {
    let (tree, mut boxes, _) = scrolled();
    boxes.insert(3, boxes[&2]);
    let dom = Dom::from_tree(&tree).unwrap();
    assert_eq!(hit_test(&dom, &boxes, &HashMap::new(), px(50), px(25)), Some(2));
    // Without its box it takes no room.
    boxes.remove(&2);
    assert_eq!(hit_test(&dom, &boxes, &HashMap::new(), px(50), px(25)), Some(3));
}

/// The rectangle that is highlighted counts in every offset on the way.
#[test]
fn a_node_is_highlighted_where_it_is() {
    let (tree, boxes, scrolls) = scrolled();
    let dom = Dom::from_tree(&tree).unwrap();
    let rect = |i| node_screen_rect(&dom, &boxes, &scrolls, px(5), px(74), i);
    assert_eq!(
        rect(3),
        Some(Rect {
            x0: px(10),
            y0: px(74 - 5 + 20 + 80 - 60),
            x1: px(210),
            y1: px(74 - 5 + 20 + 160 - 60),
        })
    );
    assert_eq!(rect(4), None);
    let mut boxes = boxes.clone();
    boxes.remove(&3);
    assert_eq!(node_screen_rect(&dom, &boxes, &scrolls, 0, 0, 3), None);
}

#[test]
fn very_tall_pages_are_hit() {
    let mut tree = Tree::new(element(Primitive::Box));
    let list = tree.root_mut().append(element(Primitive::Box)).id();
    tree.get_mut(list).unwrap().append(element(Primitive::Box));
    let dom = Dom::from_tree(&tree).unwrap();
    // A page of ten billion pixels, scrolled almost to its end.
    let tall = px(10_000_000_000);
    let cell = |y: i64, height: i64| LayoutBox { x: 0, y, width: px(800), height };
    let boxes: HashMap<usize, LayoutBox> =
        [(0, cell(0, px(600))), (1, cell(0, tall)), (2, cell(tall - px(40), px(30)))]
            .into_iter()
            .collect();
    let scrolls: HashMap<usize, i64> = [(0, tall - px(600))].into_iter().collect();
    assert_eq!(hit_test(&dom, &boxes, &scrolls, px(10), px(570)), Some(2));
    assert_eq!(hit_test(&dom, &boxes, &scrolls, px(10), px(100)), Some(1));
    let rect = node_screen_rect(&dom, &boxes, &scrolls, 0, px(74), 2).unwrap();
    assert_eq!((rect.y0, rect.y1), (px(560 + 74), px(590 + 74)));
    // Boxes at the ends of what can be counted.
    let ends: HashMap<usize, LayoutBox> = [
        (0, LayoutBox { x: i64::MIN, y: i64::MIN, width: i64::MAX, height: i64::MAX }),
        (1, LayoutBox { x: i64::MAX, y: i64::MAX, width: i64::MAX, height: i64::MAX }),
    ]
    .into_iter()
    .collect();
    assert_eq!(hit_test(&dom, &ends, &HashMap::new(), i64::MIN, i64::MIN), Some(0));
    assert_eq!(hit_test(&dom, &ends, &HashMap::new(), -1, -1), Some(1));
}
