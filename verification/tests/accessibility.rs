//! The accessibility tree.

use std::collections::{HashMap, HashSet};

use ego_tree::{NodeId as EgoNodeId, Tree};
use mizu_render::accessibility::{
    access_id, build_a11y_tree, resolve_ego_id, role_for, AccessAction, AccessContext, AccessNode,
    Role, TreeUpdate,
};
use mizu_render::dom::{Dom, EventBlock, MizuNode, Primitive};
use mizu_render::logic::{Action, Expr, ExprArena, OwnedExpr, Value};
use rustc_hash::FxHashMap;

/// Arbitrary document generation; the value only has to be consistent
/// within a test.
const EPOCH: u32 = 7;

fn node(primitive: Primitive, attrs: &[(&str, &str)]) -> MizuNode {
    let mut attributes = FxHashMap::default();
    for (k, v) in attrs {
        attributes.insert(k.to_string(), v.to_string());
    }
    MizuNode {
        primitive,
        attributes,
        events: FxHashMap::default(),
        conditional_classes: Vec::new(),
    }
}

/// Which nodes the keyboard reaches.
fn is_focusable(node: &MizuNode) -> bool {
    matches!(node.primitive, Primitive::Button | Primitive::Input)
        || node.events.contains_key("click")
        || node.events.contains_key("submit")
}

/// The place of a node in the order in which nodes were made.
fn place(tree: &Tree<MizuNode>, id: EgoNodeId) -> usize {
    tree.nodes().position(|n| n.id() == id).unwrap()
}

/// Numbers the nodes of a document from zero.
fn numbering(tree: &Tree<MizuNode>) -> HashMap<usize, u32> {
    tree.nodes().enumerate().map(|(i, _)| (i, i as u32)).collect()
}

fn build(
    epoch: u32,
    tree: &Tree<MizuNode>,
    node_id_to_u32: &HashMap<usize, u32>,
    focused: Option<usize>,
) -> TreeUpdate {
    let dom = Dom::from_tree(tree).expect("a document");
    let ctx = AccessContext {
        epoch,
        dom: &dom,
        node_id_to_u32,
        interpolate: |text: &str| text.to_string(),
        is_focusable,
    };
    build_a11y_tree(&ctx, focused)
}

/// window -> [button(content="Save"), input(placeholder="email"),
///            image(alt="logo"), image(no alt)]
fn build_fixture() -> (
    Tree<MizuNode>,
    HashMap<usize, u32>,
    usize, // button
    usize, // input
    usize, // labeled image
    usize, // bare image
) {
    let mut tree = Tree::new(node(Primitive::Doc, &[]));
    let button_id = tree
        .root_mut()
        .append(node(Primitive::Button, &[("content", "Save")]))
        .id();
    let input_id = tree
        .root_mut()
        .append(node(Primitive::Input, &[("placeholder", "email")]))
        .id();
    let labeled_image_id = tree
        .root_mut()
        .append(node(Primitive::Image, &[("alt", "logo")]))
        .id();
    let bare_image_id = tree.root_mut().append(node(Primitive::Image, &[])).id();

    let node_id_to_u32 = numbering(&tree);
    let places = (
        place(&tree, button_id),
        place(&tree, input_id),
        place(&tree, labeled_image_id),
        place(&tree, bare_image_id),
    );
    (tree, node_id_to_u32, places.0, places.1, places.2, places.3)
}

/// Builds a DOM of `parents.len() + 1` nodes: node 0 is the root, and
/// node `i + 1` is appended to node `parents[i]`.
fn dom_shaped(parents: &[usize]) -> (Tree<MizuNode>, HashMap<usize, u32>) {
    let mut tree = Tree::new(node(Primitive::Doc, &[]));
    let mut ids = vec![tree.root().id()];
    for &parent in parents {
        let child = tree
            .get_mut(ids[parent])
            .expect("parent exists")
            .append(node(Primitive::Box, &[]))
            .id();
        ids.push(child);
    }
    let numbering = numbering(&tree);
    (tree, numbering)
}

/// Document shapes covering the structural moves a navigation can make:
/// nodes appearing, disappearing, nesting deeper, and lifting closer to
/// the root.
const SHAPES: &[&[usize]] = &[
    &[],
    &[0],
    &[0, 0],
    &[0, 1],
    &[0, 0, 0],
    &[0, 1, 0],
    &[0, 1, 1],
    &[0, 1, 2],
    &[0, 0, 1],
    &[0, 0, 1, 1],
    &[0, 1, 1, 0],
    &[0, 1, 2, 0],
    &[0, 1, 0, 2],
];

/// A `TreeChangeHandler` that records nothing: the test is about whether
/// the consumer survives the update, not about what it would announce.
struct IgnoreChanges;

impl accesskit_consumer::TreeChangeHandler for IgnoreChanges {
    fn node_added(&mut self, _node: &accesskit_consumer::Node) {}
    fn node_updated(
        &mut self,
        _old_node: &accesskit_consumer::DetachedNode,
        _new_node: &accesskit_consumer::Node,
    ) {
    }
    fn focus_moved(
        &mut self,
        _old_node: Option<&accesskit_consumer::DetachedNode>,
        _new_node: Option<&accesskit_consumer::Node>,
        _current_state: &accesskit_consumer::TreeState,
    ) {
    }
    fn node_removed(
        &mut self,
        _node: &accesskit_consumer::DetachedNode,
        _current_state: &accesskit_consumer::TreeState,
    ) {
    }
}

/// The update as the consumer takes it.
fn consumed(update: &TreeUpdate) -> accesskit::TreeUpdate {
    let mut classes = accesskit::NodeClassSet::new();
    let nodes = update
        .nodes
        .iter()
        .map(|(id, n)| {
            let role = if n.role == Role::Window {
                accesskit::Role::Window
            } else {
                accesskit::Role::GenericContainer
            };
            let mut builder = accesskit::NodeBuilder::new(role);
            let children: Vec<accesskit::NodeId> =
                n.children.iter().map(|c| accesskit::NodeId(*c)).collect();
            builder.set_children(children);
            (accesskit::NodeId(*id), builder.build(&mut classes))
        })
        .collect();
    accesskit::TreeUpdate {
        nodes,
        tree: Some(accesskit::Tree::new(accesskit::NodeId(update.root))),
        focus: accesskit::NodeId(update.focus),
    }
}

#[test]
fn accessibility_roles_and_names_match_the_fixture() {
    let (tree, node_id_to_u32, button_id, input_id, labeled_image_id, bare_image_id) =
        build_fixture();

    let update = build(EPOCH, &tree, &node_id_to_u32, None);
    let by_id: HashMap<u64, &AccessNode> =
        update.nodes.iter().map(|(id, n)| (*id, n)).collect();

    let button_node = by_id[&access_id(EPOCH, node_id_to_u32[&button_id])];
    assert_eq!(button_node.role, Role::Button);
    assert_eq!(button_node.name.as_deref(), Some("Save"));

    let input_node = by_id[&access_id(EPOCH, node_id_to_u32[&input_id])];
    assert_eq!(input_node.role, Role::TextInput);
    assert_eq!(input_node.name.as_deref(), Some("email"));

    let labeled_image_node = by_id[&access_id(EPOCH, node_id_to_u32[&labeled_image_id])];
    assert_eq!(labeled_image_node.role, Role::Image);
    assert_eq!(
        labeled_image_node.name.as_deref(),
        Some("logo"),
        "alt-bearing image must expose its alt text as the accessible name"
    );

    let bare_image_node = by_id[&access_id(EPOCH, node_id_to_u32[&bare_image_id])];
    assert_eq!(
        bare_image_node.role,
        Role::Image,
        "an image with no alt is still exposed (flagged as unlabeled), not silently omitted"
    );
    assert_eq!(
        bare_image_node.name.as_deref(),
        None,
        "an image with no alt must expose no accessible name"
    );
}

#[test]
fn tests_roles_and_names_match_the_fixture() {
    let (tree, node_id_to_u32, button_id, input_id, labeled_image_id, bare_image_id) =
        build_fixture();

    let update = build(EPOCH, &tree, &node_id_to_u32, None);
    let by_id: HashMap<u64, &AccessNode> =
        update.nodes.iter().map(|(id, n)| (*id, n)).collect();

    let button_node = by_id[&access_id(EPOCH, node_id_to_u32[&button_id])];
    assert_eq!(button_node.role, Role::Button);
    assert_eq!(button_node.name.as_deref(), Some("Save"));

    let input_node = by_id[&access_id(EPOCH, node_id_to_u32[&input_id])];
    assert_eq!(input_node.role, Role::TextInput);
    assert_eq!(input_node.name.as_deref(), Some("email"));

    let labeled_image_node = by_id[&access_id(EPOCH, node_id_to_u32[&labeled_image_id])];
    assert_eq!(labeled_image_node.role, Role::Image);
    assert_eq!(
        labeled_image_node.name.as_deref(),
        Some("logo"),
        "alt-bearing image must expose its alt text as the accessible name"
    );

    let bare_image_node = by_id[&access_id(EPOCH, node_id_to_u32[&bare_image_id])];
    assert_eq!(
        bare_image_node.role,
        Role::Image,
        "an image with no alt is still exposed (flagged as unlabeled), not silently omitted"
    );
    assert_eq!(
        bare_image_node.name.as_deref(),
        None,
        "an image with no alt must expose no accessible name"
    );
}

#[test]
fn heading_node_gets_heading_role_and_matching_hierarchical_level() {
    let mut tree = Tree::new(node(Primitive::Doc, &[]));
    let h1_id = tree
        .root_mut()
        .append(node(Primitive::Heading, &[("level", "1")]))
        .id();
    let h4_id = tree
        .root_mut()
        .append(node(Primitive::Heading, &[("level", "4")]))
        .id();
    let node_id_to_u32 = numbering(&tree);
    let update = build(EPOCH, &tree, &node_id_to_u32, None);
    let by_id: HashMap<u64, &AccessNode> =
        update.nodes.iter().map(|(id, n)| (*id, n)).collect();

    let h1_node = by_id[&access_id(EPOCH, node_id_to_u32[&place(&tree, h1_id)])];
    assert_eq!(h1_node.role, Role::Heading);
    assert_eq!(h1_node.level, Some(1));

    let h4_node = by_id[&access_id(EPOCH, node_id_to_u32[&place(&tree, h4_id)])];
    assert_eq!(h4_node.role, Role::Heading);
    assert_eq!(h4_node.level, Some(4));
}

#[test]
fn accessibility_removing_alt_regresses_the_name_to_empty() {
    // Regression pin: `alt` must never become dead code again. If this
    // starts failing, something stopped reading the `alt` attribute.
    let mut tree = Tree::new(node(Primitive::Doc, &[]));
    let with_alt = tree
        .root_mut()
        .append(node(Primitive::Image, &[("alt", "a cat")]))
        .id();
    let node_id_to_u32 = numbering(&tree);
    let update = build(EPOCH, &tree, &node_id_to_u32, None);
    let named = update
        .nodes
        .iter()
        .find(|(id, _)| *id == access_id(EPOCH, node_id_to_u32[&place(&tree, with_alt)]))
        .and_then(|(_, n)| n.name.clone());
    assert_eq!(named.as_deref(), Some("a cat"));

    // Now the same image, minus `alt`.
    let mut tree2 = Tree::new(node(Primitive::Doc, &[]));
    let without_alt = tree2.root_mut().append(node(Primitive::Image, &[])).id();
    let node_id_to_u32_2 = numbering(&tree2);
    let update2 = build(EPOCH, &tree2, &node_id_to_u32_2, None);
    let unnamed = update2
        .nodes
        .iter()
        .find(|(id, _)| *id == access_id(EPOCH, node_id_to_u32_2[&place(&tree2, without_alt)]))
        .and_then(|(_, n)| n.name.clone());
    assert_eq!(unnamed, None, "removing alt must clear the accessible name");
}

#[test]
fn tests_removing_alt_regresses_the_name_to_empty() {
    // Regression pin: `alt` must never become dead code again. If this
    // starts failing, something stopped reading the `alt` attribute.
    let mut tree = Tree::new(node(Primitive::Doc, &[]));
    let with_alt = tree
        .root_mut()
        .append(node(Primitive::Image, &[("alt", "a cat")]))
        .id();
    let node_id_to_u32 = numbering(&tree);
    let update = build(EPOCH, &tree, &node_id_to_u32, None);
    let named = update
        .nodes
        .iter()
        .find(|(id, _)| *id == access_id(EPOCH, node_id_to_u32[&place(&tree, with_alt)]))
        .and_then(|(_, n)| n.name.clone());
    assert_eq!(named.as_deref(), Some("a cat"));

    // Now the same image, minus `alt`.
    let mut tree2 = Tree::new(node(Primitive::Doc, &[]));
    let without_alt = tree2.root_mut().append(node(Primitive::Image, &[])).id();
    let node_id_to_u32_2 = numbering(&tree2);
    let update2 = build(EPOCH, &tree2, &node_id_to_u32_2, None);
    let unnamed = update2
        .nodes
        .iter()
        .find(|(id, _)| *id == access_id(EPOCH, node_id_to_u32_2[&place(&tree2, without_alt)]))
        .and_then(|(_, n)| n.name.clone());
    assert_eq!(unnamed, None, "removing alt must clear the accessible name");
}

#[test]
fn accessibility_focus_in_tree_update_tracks_focused_node() {
    let (tree, node_id_to_u32, button_id, input_id, ..) = build_fixture();

    let update = build(EPOCH, &tree, &node_id_to_u32, Some(input_id));
    assert_eq!(update.focus, access_id(EPOCH, node_id_to_u32[&input_id]));

    let update = build(EPOCH, &tree, &node_id_to_u32, Some(button_id));
    assert_eq!(update.focus, access_id(EPOCH, node_id_to_u32[&button_id]));

    // Nothing focused: falls back to the root, never an unset/dangling id.
    let update = build(EPOCH, &tree, &node_id_to_u32, None);
    assert_eq!(
        update.focus,
        access_id(EPOCH, node_id_to_u32[&0])
    );
}

#[test]
fn tests_focus_in_tree_update_tracks_focused_node() {
    let (tree, node_id_to_u32, button_id, input_id, ..) = build_fixture();

    let update = build(EPOCH, &tree, &node_id_to_u32, Some(input_id));
    assert_eq!(update.focus, access_id(EPOCH, node_id_to_u32[&input_id]));

    let update = build(EPOCH, &tree, &node_id_to_u32, Some(button_id));
    assert_eq!(update.focus, access_id(EPOCH, node_id_to_u32[&button_id]));

    // Nothing focused: falls back to the root, never an unset/dangling id.
    let update = build(EPOCH, &tree, &node_id_to_u32, None);
    assert_eq!(
        update.focus,
        access_id(EPOCH, node_id_to_u32[&0])
    );
}

#[test]
fn accessibility_resolve_ego_id_round_trips_through_access_id() {
    let (_tree, node_id_to_u32, button_id, ..) = build_fixture();
    let mut u32_to_node_id = HashMap::new();
    for (&ego, &u32_id) in &node_id_to_u32 {
        u32_to_node_id.insert(u32_id, ego);
    }
    let ak_id = access_id(EPOCH, node_id_to_u32[&button_id]);
    assert_eq!(
        resolve_ego_id(EPOCH, &u32_to_node_id, ak_id),
        Some(button_id)
    );

    // An unknown id must resolve to None, not panic or alias another node.
    assert_eq!(
        resolve_ego_id(EPOCH, &u32_to_node_id, access_id(EPOCH, 999_999)),
        None
    );
    assert_eq!(
        resolve_ego_id(EPOCH, &u32_to_node_id, 0),
        None
    );
}

#[test]
fn tests_resolve_ego_id_round_trips_through_access_id() {
    let (_tree, node_id_to_u32, button_id, ..) = build_fixture();
    let mut u32_to_node_id = HashMap::new();
    for (&ego, &u32_id) in &node_id_to_u32 {
        u32_to_node_id.insert(u32_id, ego);
    }
    let ak_id = access_id(EPOCH, node_id_to_u32[&button_id]);
    assert_eq!(
        resolve_ego_id(EPOCH, &u32_to_node_id, ak_id),
        Some(button_id)
    );

    // An unknown id must resolve to None, not panic or alias another node.
    assert_eq!(
        resolve_ego_id(EPOCH, &u32_to_node_id, access_id(EPOCH, 999_999)),
        None
    );
    assert_eq!(
        resolve_ego_id(EPOCH, &u32_to_node_id, 0),
        None
    );
}

#[test]
fn an_id_from_an_earlier_document_never_resolves() {
    let (_tree, node_id_to_u32, button_id, ..) = build_fixture();
    let mut u32_to_node_id = HashMap::new();
    for (&ego, &u32_id) in &node_id_to_u32 {
        u32_to_node_id.insert(u32_id, ego);
    }
    // The AT asks about a node it saw before a navigation. That slot is
    // occupied in the current document too — answering with whatever now
    // sits there would fire the action at the wrong node.
    let stale = access_id(EPOCH - 1, node_id_to_u32[&button_id]);
    assert_eq!(resolve_ego_id(EPOCH, &u32_to_node_id, stale), None);
}

#[test]
fn two_document_generations_share_no_node_ids() {
    // The condition behind the `accesskit_consumer` panic: if a reloaded
    // document reuses the previous one's ids, the consumer treats its
    // nodes as the old ones moved about, prunes a subtree it should not,
    // and then unwraps a `None` (tree.rs:350).
    let (tree, node_id_to_u32, ..) = build_fixture();

    let first = build(EPOCH, &tree, &node_id_to_u32, None);
    // Same DOM, same u32 numbering — only the generation differs, which
    // is exactly the case a fresh load of the same page produces.
    let second = build(EPOCH + 1, &tree, &node_id_to_u32, None);

    assert!(!first.nodes.is_empty(), "fixture must produce nodes");
    assert_eq!(first.nodes.len(), second.nodes.len());

    let first_ids: HashSet<u64> =
        first.nodes.iter().map(|(id, _)| *id).collect();
    for (id, _) in &second.nodes {
        assert!(
            !first_ids.contains(id),
            "id {id:?} is reused across document generations"
        );
    }
    assert!(!first_ids.contains(&second.focus));
}

#[test]
fn no_sequence_of_documents_panics_the_accesskit_consumer() {
    // Regression test for a crash on navigation: the platform-side
    // consumer panicked while applying the update for the newly loaded
    // document (`accesskit_consumer` 0.18, tree.rs:350).
    //
    // Feeding every ordered pair of shapes through the real consumer,
    // rather than one hand-picked pair, because the trigger is not
    // obvious from the outside: it fires when a node looks like it moved
    // while its former parent vanished, and which shape transitions do
    // that depends on the consumer's internal bookkeeping order. With ids
    // reused between the two documents, 53 of the 169 pairs below panic;
    // with `access_id`'s generations making them disjoint, none do.

    for (generation, (before, after)) in SHAPES
        .iter()
        .flat_map(|a| SHAPES.iter().map(move |b| (*a, *b)))
        .enumerate()
    {
        let (before_dom, before_ids) = dom_shaped(before);
        let (after_dom, after_ids) = dom_shaped(after);
        // Two consecutive generations, exactly as two document loads get.
        let epoch = (generation as u32) * 2 + 1;
        let first = build(epoch, &before_dom, &before_ids, None);
        let second = build(epoch + 1, &after_dom, &after_ids, None);

        // `update_and_process_changes`, not `update`: the panic lives in
        // the change-notification pass, which is the one a real platform
        // adapter runs in order to emit events to the AT.
        let mut consumer = accesskit_consumer::Tree::new(consumed(&first), true);
        consumer.update_and_process_changes(consumed(&second), &mut IgnoreChanges);
    }
}

#[test]
fn every_node_in_an_update_is_reachable_from_its_root() {
    // The other half of the same guarantee: within one update, no node
    // may be left dangling. A node the consumer cannot reach from the
    // root is pruned, and pruning a node the update also declared is
    // what turns into the panic.
    let (tree, node_id_to_u32, ..) = build_fixture();
    let update = build(EPOCH, &tree, &node_id_to_u32, None);

    let by_id: HashMap<u64, &AccessNode> =
        update.nodes.iter().map(|(id, n)| (*id, n)).collect();
    let root = update.root;

    let mut reached = HashSet::new();
    let mut stack = vec![root];
    while let Some(id) = stack.pop() {
        if !reached.insert(id) {
            continue;
        }
        let node = by_id
            .get(&id)
            .unwrap_or_else(|| panic!("child {id:?} is referenced but never declared"));
        stack.extend(node.children.iter().copied());
    }
    assert_eq!(
        reached.len(),
        update.nodes.len(),
        "every declared node must hang off the root"
    );
}

/// Every role, and the order in which the nodes are listed.
#[test]
fn children_are_listed_before_their_parents() {
    let (tree, ids) = dom_shaped(&[0, 1, 1, 0]);
    let update = build(EPOCH, &tree, &ids, None);
    let order: Vec<u64> = update.nodes.iter().map(|(id, _)| *id).collect();
    let want: Vec<u64> = [2, 3, 1, 4, 0].iter().map(|i| access_id(EPOCH, *i)).collect();
    assert_eq!(order, want);
    assert_eq!(update.nodes[4].1.children, vec![access_id(EPOCH, 1), access_id(EPOCH, 4)]);
    assert_eq!(update.nodes[4].1.role, Role::Window);
    assert_eq!(update.root, access_id(EPOCH, 0));
    let roles = [
        (Primitive::Doc, Role::Window),
        (Primitive::Box, Role::GenericContainer),
        (Primitive::Text, Role::StaticText),
        (Primitive::Markdown, Role::StaticText),
        (Primitive::Button, Role::Button),
        (Primitive::Input, Role::TextInput),
        (Primitive::Image, Role::Image),
        (Primitive::Form, Role::Form),
        (Primitive::Heading, Role::Heading),
    ];
    for (primitive, role) in roles {
        assert_eq!(role_for(primitive), role);
    }
}

/// The generation is in the high half of an id, and the number, counted from
/// one, in the low half.
#[test]
fn ids_hold_generation_and_number() {
    assert_eq!(access_id(0, 0), 1);
    assert_eq!(access_id(7, 41), (7 << 32) | 42);
    assert_eq!(access_id(u32::MAX, 0), 0xffff_ffff_0000_0001);
    let places: HashMap<u32, usize> = [(41, 5)].into_iter().collect();
    assert_eq!(resolve_ego_id(7, &places, access_id(7, 41)), Some(5));
    assert_eq!(resolve_ego_id(7, &places, 7 << 32), None);
    assert_eq!(resolve_ego_id(6, &places, access_id(7, 41)), None);
}

/// Only what the keyboard reaches can be focused, and only what reacts can be
/// activated.
#[test]
fn actions_follow_the_keyboard() {
    let click = || EventBlock::Click {
        action: Action::Assign {
            target: "x".to_string(),
            expr: OwnedExpr {
                arena: ExprArena {
                    nodes: vec![Expr::Literal(Value::Bool(true))],
                    args: vec![],
                },
                root: 0,
            },
        },
    };
    let mut tree = Tree::new(node(Primitive::Doc, &[]));
    tree.root_mut().append(node(Primitive::Button, &[]));
    tree.root_mut().append(node(Primitive::Input, &[]));
    let mut clicked = node(Primitive::Box, &[]);
    clicked.events.insert("click".to_string(), click());
    tree.root_mut().append(clicked);
    tree.root_mut().append(node(Primitive::Text, &[("content", "hi")]));
    let update = build(EPOCH, &tree, &numbering(&tree), None);
    let by_id: HashMap<u64, &AccessNode> = update.nodes.iter().map(|(id, n)| (*id, n)).collect();
    let actions = |i: u32| by_id[&access_id(EPOCH, i)].actions.clone();
    assert_eq!(actions(0), vec![]);
    assert_eq!(actions(1), vec![AccessAction::Focus, AccessAction::Activate]);
    assert_eq!(actions(2), vec![AccessAction::Focus]);
    assert_eq!(actions(3), vec![AccessAction::Focus, AccessAction::Activate]);
    assert_eq!(actions(4), vec![]);
}

/// A text's name is what it shows once values are filled in; an empty name is
/// no name.
#[test]
fn names_are_what_is_painted() {
    let mut tree = Tree::new(node(Primitive::Doc, &[]));
    tree.root_mut().append(node(Primitive::Text, &[("content", "{user}")]));
    tree.root_mut().append(node(Primitive::Button, &[("content", "{none}")]));
    tree.root_mut().append(node(Primitive::Input, &[("placeholder", "")]));
    tree.root_mut().append(node(Primitive::Heading, &[("level", "x")]));
    let dom = Dom::from_tree(&tree).unwrap();
    let ids = numbering(&tree);
    let ctx = AccessContext {
        epoch: EPOCH,
        dom: &dom,
        node_id_to_u32: &ids,
        interpolate: |text: &str| text.replace("{user}", "Ada").replace("{none}", ""),
        is_focusable,
    };
    let update = build_a11y_tree(&ctx, None);
    assert_eq!(update.nodes[0].1.name.as_deref(), Some("Ada"));
    assert_eq!(update.nodes[1].1.name, None);
    assert_eq!(update.nodes[2].1.name, None);
    assert_eq!(update.nodes[3].1.level, None);
}

/// A node without a number is left out, with all below it.
#[test]
fn nodes_without_a_number_are_left_out() {
    let (tree, mut ids) = dom_shaped(&[0, 1, 0]);
    ids.remove(&1);
    let update = build(EPOCH, &tree, &ids, Some(1));
    let order: Vec<u64> = update.nodes.iter().map(|(id, _)| *id).collect();
    assert_eq!(order, vec![access_id(EPOCH, 3), access_id(EPOCH, 0)]);
    assert_eq!(update.nodes[1].1.children, vec![access_id(EPOCH, 3)]);
    assert_eq!(update.focus, update.root);
    ids.clear();
    let update = build(EPOCH, &tree, &ids, None);
    assert!(update.nodes.is_empty());
    assert_eq!((update.root, update.focus), (1, 1));
}

#[test]
fn every_node_is_in_the_tree_once() {
    for shape in SHAPES {
        let (mut tree, _) = dom_shaped(shape);
        // A node that hangs nowhere is in no tree.
        tree.orphan(node(Primitive::Box, &[]));
        let numbers = numbering(&tree);
        let update = build(EPOCH, &tree, &numbers, None);
        assert_eq!(update.nodes.len(), shape.len() + 1);
        for number in 0..=shape.len() as u32 {
            let id = access_id(EPOCH, number);
            assert_eq!(update.nodes.iter().filter(|(i, _)| *i == id).count(), 1);
        }
    }
}

#[test]
fn the_greatest_number_has_no_id_of_its_own() {
    let numbers: HashMap<u32, usize> = [(u32::MAX, 3), (0, 4)].into_iter().collect();
    assert_eq!(resolve_ego_id(2, &numbers, access_id(2, u32::MAX)), None);
    assert_eq!(access_id(2, u32::MAX), access_id(3, u32::MAX));
    assert_ne!(access_id(2, u32::MAX), access_id(4, u32::MAX));
    assert_ne!(access_id(2, u32::MAX), access_id(3, 0));
    assert_ne!(access_id(2, u32::MAX), access_id(2, 0));
}

#[test]
fn the_shape_does_not_depend_on_what_the_nodes_say() {
    let (tree, numbers) = dom_shaped(&[0, 1, 0]);
    let dom = Dom::from_tree(&tree).unwrap();
    // What these answer changes from call to call.
    let calls = std::cell::Cell::new(0);
    let ctx = AccessContext {
        epoch: EPOCH,
        dom: &dom,
        node_id_to_u32: &numbers,
        interpolate: |text: &str| {
            calls.set(calls.get() + 1);
            format!("{text}{}", calls.get())
        },
        is_focusable: |_: &MizuNode| {
            calls.set(calls.get() + 1);
            calls.get() % 2 == 0
        },
    };
    let update = build_a11y_tree(&ctx, Some(2));
    assert_eq!((update.root, update.focus), (access_id(EPOCH, 0), access_id(EPOCH, 2)));
    let shape: Vec<(u64, Vec<u64>)> =
        update.nodes.iter().map(|(id, n)| (*id, n.children.clone())).collect();
    let id = |n: u32| access_id(EPOCH, n);
    assert_eq!(
        shape,
        vec![
            (id(2), vec![]),
            (id(1), vec![id(2)]),
            (id(3), vec![]),
            (id(0), vec![id(1), id(3)]),
        ]
    );
}
