//! Directions, languages, and the characters that must not get through.

use ego_tree::{NodeId, Tree};
use mizu_render::bidi::{
    is_bidi_override_or_isolate, resolve_direction, resolve_lang, strip_bidi_overrides,
    ResolvedDirection,
};
use mizu_render::dom::{Dom, MizuNode, Primitive};
use rustc_hash::FxHashMap;

fn dom(tree: &Tree<MizuNode>) -> Dom<'_> {
    Dom::from_tree(tree).expect("a tree is a document")
}

fn place(tree: &Tree<MizuNode>, id: NodeId) -> usize {
    tree.nodes().position(|n| n.id() == id).expect("the node exists")
}

fn node(dir: Option<&str>) -> MizuNode {
    let mut attributes = FxHashMap::default();
    if let Some(d) = dir {
        attributes.insert("dir".to_string(), d.to_string());
    }
    MizuNode {
        primitive: Primitive::Box,
        attributes,
        events: FxHashMap::default(),
        conditional_classes: Vec::new(),
    }
}

fn lang_node(lang: Option<&str>) -> MizuNode {
    let mut attributes = FxHashMap::default();
    if let Some(l) = lang {
        attributes.insert("lang".to_string(), l.to_string());
    }
    MizuNode {
        primitive: Primitive::Box,
        attributes,
        events: FxHashMap::default(),
        conditional_classes: Vec::new(),
    }
}

#[test]
fn bidi_resolve_direction_finds_explicit_dir_on_self() {
    let tree = ego_tree::Tree::new(node(Some("rtl")));
    assert_eq!(resolve_direction(&dom(&tree), 0), ResolvedDirection::Rtl);
}

#[test]
fn tests_resolve_direction_finds_explicit_dir_on_self() {
    let tree = ego_tree::Tree::new(node(Some("rtl")));
    assert_eq!(resolve_direction(&dom(&tree), 0), ResolvedDirection::Rtl);
}

#[test]
fn bidi_resolve_direction_inherits_from_ancestor() {
    let mut tree = ego_tree::Tree::new(node(Some("rtl")));
    let child_id = tree.root_mut().append(node(None)).id();
    let grandchild_id = tree.get_mut(child_id).unwrap().append(node(None)).id();
    assert_eq!(
        resolve_direction(&dom(&tree), place(&tree, grandchild_id)),
        ResolvedDirection::Rtl,
        "an unset dir must inherit from the nearest ancestor that set one"
    );
}

#[test]
fn tests_resolve_direction_inherits_from_ancestor() {
    let mut tree = ego_tree::Tree::new(node(Some("rtl")));
    let child_id = tree.root_mut().append(node(None)).id();
    let grandchild_id = tree.get_mut(child_id).unwrap().append(node(None)).id();
    assert_eq!(
        resolve_direction(&dom(&tree), place(&tree, grandchild_id)),
        ResolvedDirection::Rtl,
        "an unset dir must inherit from the nearest ancestor that set one"
    );
}

#[test]
fn bidi_resolve_direction_explicit_auto_does_not_stop_inheritance() {
    let mut tree = ego_tree::Tree::new(node(Some("rtl")));
    let child_id = tree.root_mut().append(node(Some("auto"))).id();
    assert_eq!(
        resolve_direction(&dom(&tree), place(&tree, child_id)),
        ResolvedDirection::Rtl,
        "`dir=\"auto\"` must not shadow an ancestor's explicit direction"
    );
}

#[test]
fn tests_resolve_direction_explicit_auto_does_not_stop_inheritance() {
    let mut tree = ego_tree::Tree::new(node(Some("rtl")));
    let child_id = tree.root_mut().append(node(Some("auto"))).id();
    assert_eq!(
        resolve_direction(&dom(&tree), place(&tree, child_id)),
        ResolvedDirection::Rtl,
        "`dir=\"auto\"` must not shadow an ancestor's explicit direction"
    );
}

#[test]
fn bidi_resolve_direction_child_overrides_ancestor() {
    let mut tree = ego_tree::Tree::new(node(Some("rtl")));
    let child_id = tree.root_mut().append(node(Some("ltr"))).id();
    assert_eq!(
        resolve_direction(&dom(&tree), place(&tree, child_id)),
        ResolvedDirection::Ltr
    );
}

#[test]
fn tests_resolve_direction_child_overrides_ancestor() {
    let mut tree = ego_tree::Tree::new(node(Some("rtl")));
    let child_id = tree.root_mut().append(node(Some("ltr"))).id();
    assert_eq!(
        resolve_direction(&dom(&tree), place(&tree, child_id)),
        ResolvedDirection::Ltr
    );
}

#[test]
fn bidi_resolve_direction_defaults_to_auto_with_no_dir_anywhere() {
    let tree = ego_tree::Tree::new(node(None));
    assert_eq!(resolve_direction(&dom(&tree), 0), ResolvedDirection::Auto);
}

#[test]
fn tests_resolve_direction_defaults_to_auto_with_no_dir_anywhere() {
    let tree = ego_tree::Tree::new(node(None));
    assert_eq!(resolve_direction(&dom(&tree), 0), ResolvedDirection::Auto);
}

#[test]
fn bidi_is_rtl_for_layout_treats_auto_as_ltr() {
    assert!(!ResolvedDirection::Auto.is_rtl_for_layout());
    assert!(!ResolvedDirection::Ltr.is_rtl_for_layout());
    assert!(ResolvedDirection::Rtl.is_rtl_for_layout());
}

#[test]
fn tests_is_rtl_for_layout_treats_auto_as_ltr() {
    assert!(!ResolvedDirection::Auto.is_rtl_for_layout());
    assert!(!ResolvedDirection::Ltr.is_rtl_for_layout());
    assert!(ResolvedDirection::Rtl.is_rtl_for_layout());
}

#[test]
fn bidi_prepend_mark_matches_explicit_direction_only() {
    assert_eq!(ResolvedDirection::Ltr.prepend_mark(), Some('\u{200E}'));
    assert_eq!(ResolvedDirection::Rtl.prepend_mark(), Some('\u{200F}'));
    assert_eq!(ResolvedDirection::Auto.prepend_mark(), None);
}

#[test]
fn tests_prepend_mark_matches_explicit_direction_only() {
    assert_eq!(ResolvedDirection::Ltr.prepend_mark(), Some('\u{200E}'));
    assert_eq!(ResolvedDirection::Rtl.prepend_mark(), Some('\u{200F}'));
    assert_eq!(ResolvedDirection::Auto.prepend_mark(), None);
}

#[test]
fn resolve_lang_finds_explicit_lang_on_self() {
    let tree = ego_tree::Tree::new(lang_node(Some("en")));
    assert_eq!(resolve_lang(&dom(&tree), 0), Some("en".to_string()));
}

#[test]
fn resolve_lang_inherits_from_ancestor() {
    let mut tree = ego_tree::Tree::new(lang_node(Some("it")));
    let child_id = tree.root_mut().append(lang_node(None)).id();
    let grandchild_id = tree.get_mut(child_id).unwrap().append(lang_node(None)).id();
    assert_eq!(
        resolve_lang(&dom(&tree), place(&tree, grandchild_id)),
        Some("it".to_string()),
        "an unset lang must inherit from the nearest ancestor that set one"
    );
}

#[test]
fn resolve_lang_child_overrides_ancestor() {
    let mut tree = ego_tree::Tree::new(lang_node(Some("en")));
    let child_id = tree.root_mut().append(lang_node(Some("ja"))).id();
    assert_eq!(
        resolve_lang(&dom(&tree), place(&tree, child_id)),
        Some("ja".to_string())
    );
}

#[test]
fn resolve_lang_defaults_to_none_with_no_lang_anywhere() {
    let tree = ego_tree::Tree::new(lang_node(None));
    assert_eq!(resolve_lang(&dom(&tree), 0), None);
}

#[test]
fn bidi_strip_bidi_overrides_removes_rlo_and_isolates() {
    let input = "evil\u{202E}gnp.exe\u{2066}safe\u{2069}";
    let stripped = strip_bidi_overrides(input);
    assert_eq!(stripped, "evilgnp.exesafe");
    assert!(!stripped.chars().any(is_bidi_override_or_isolate));
}

#[test]
fn tests_strip_bidi_overrides_removes_rlo_and_isolates() {
    let input = "evil\u{202E}gnp.exe\u{2066}safe\u{2069}";
    let stripped = strip_bidi_overrides(input);
    assert_eq!(stripped, "evilgnp.exesafe");
    assert!(!stripped.chars().any(is_bidi_override_or_isolate));
}

#[test]
fn bidi_strip_bidi_overrides_leaves_clean_strings_untouched() {
    let input = "mizu://example.com/page";
    let stripped = strip_bidi_overrides(input);
    assert_eq!(stripped, input);
    assert!(matches!(stripped, std::borrow::Cow::Borrowed(_)));
}

#[test]
fn tests_strip_bidi_overrides_leaves_clean_strings_untouched() {
    let input = "mizu://example.com/page";
    let stripped = strip_bidi_overrides(input);
    assert_eq!(stripped, input);
    assert!(matches!(stripped, std::borrow::Cow::Borrowed(_)));
}

#[test]
fn bidi_strip_bidi_overrides_does_not_touch_legitimate_bidi_text() {
    // Sanity: only the specific override/isolate ranges are stripped —
    // ordinary Hebrew/Arabic text (which is NOT in either stripped
    // range; it's just letters with strong bidi *properties*, not
    // format control characters) must pass through untouched.
    let hebrew = "\u{05E9}\u{05DC}\u{05D5}\u{05DD}"; // "שלום"
    let stripped = strip_bidi_overrides(hebrew);
    assert_eq!(stripped, hebrew);
}

#[test]
fn tests_strip_bidi_overrides_does_not_touch_legitimate_bidi_text() {
    // Sanity: only the specific override/isolate ranges are stripped —
    // ordinary Hebrew/Arabic text (which is NOT in either stripped
    // range; it's just letters with strong bidi *properties*, not
    // format control characters) must pass through untouched.
    let hebrew = "\u{05E9}\u{05DC}\u{05D5}\u{05DD}"; // "שלום"
    let stripped = strip_bidi_overrides(hebrew);
    assert_eq!(stripped, hebrew);
}

#[test]
fn every_override_and_isolate_is_stripped_and_nothing_else() {
    for c in (0u32..=0x10ffff).filter_map(char::from_u32) {
        let control = matches!(c, '\u{202A}'..='\u{202E}' | '\u{2066}'..='\u{2069}');
        assert_eq!(is_bidi_override_or_isolate(c), control, "{c:?}");
    }
    let mixed = "\u{202A}a\u{202B}b\u{202C}c\u{202D}d\u{202E}e\u{2066}f\u{2067}g\u{2068}h\u{2069}";
    assert_eq!(strip_bidi_overrides(mixed), "abcdefgh");
    let twice = strip_bidi_overrides(mixed).into_owned();
    assert_eq!(strip_bidi_overrides(&twice), "abcdefgh", "a second pass finds nothing");
}

#[test]
fn a_language_is_not_a_direction() {
    let mut attributes = FxHashMap::default();
    attributes.insert("lang".to_string(), "rtl".to_string());
    attributes.insert("dir".to_string(), "sideways".to_string());
    let tree = Tree::new(MizuNode {
        primitive: Primitive::Text,
        attributes,
        events: FxHashMap::default(),
        conditional_classes: Vec::new(),
    });
    assert_eq!(resolve_direction(&dom(&tree), 0), ResolvedDirection::Auto);
    assert_eq!(resolve_lang(&dom(&tree), 0), Some("rtl".to_string()));
}
