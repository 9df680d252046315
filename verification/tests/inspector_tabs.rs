//! The rows of every tab of the inspector.

use std::collections::{HashMap, HashSet};

use ego_tree::Tree;
use mizu_render::dom::{ConditionalClass, Dom, EventBlock, MizuNode, Primitive};
use mizu_render::inspector::log::{EventKind, InspectorLog, NetOutcome};
use mizu_render::inspector::model::elements::elements_rows;
use mizu_render::inspector::model::events_tab::{
    countdown_seg, events_rows, events_rows_in_order, fmt_millis, list_events,
};
use mizu_render::inspector::model::format::{format_owned, value_str};
use mizu_render::inspector::model::logic_tab::{
    logic_rows, push_section, value_seg, widest_of, MUTATION_FLASH,
};
use mizu_render::inspector::model::network_tab::{fmt_bytes, network_rows};
use mizu_render::inspector::model::sources::{
    BoxMetrics, ComputedBinding, Endpoint, EndpointKind, Evaluated, InspectorSources, MizuFunction,
    RootTimer, TimerInterval,
};
use mizu_render::inspector::model::styles::{fmt_color, fmt_dimension, style_decls, style_rows};
use mizu_render::inspector::model::tabs::{build_rows, build_rows_at};
use mizu_render::inspector::model::types::{join_segs, Flex, Row, RowKind, Seg, Tone};
use mizu_render::inspector::panel::{InspectorState, InspectorTab};
use mizu_render::logic::{
    Action, BinOp, Expr, ExprArena, FrozenInterner, HttpMethod, OwnedExpr, Symbol, Value,
};
use mizu_render::style::{MizuBackground, MizuColor, MizuDimension, StyleRules, StyleSheet};
use rustc_hash::FxHashMap;

fn node(primitive: Primitive, attrs: &[(&str, &str)]) -> MizuNode {
    let mut attributes = FxHashMap::default();
    for (k, v) in attrs {
        attributes.insert(k.to_string(), v.to_string());
    }
    MizuNode {
        primitive,
        attributes,
        events: FxHashMap::default(),
        conditional_classes: Vec::new(),
    }
}

fn literal(v: Value) -> OwnedExpr {
    OwnedExpr { arena: ExprArena { nodes: vec![Expr::Literal(v)], args: vec![] }, root: 0 }
}

fn variable(s: Symbol) -> OwnedExpr {
    OwnedExpr { arena: ExprArena { nodes: vec![Expr::Variable(s)], args: vec![] }, root: 0 }
}

fn colour(r: u8, g: u8, b: u8, a: u8) -> MizuColor {
    MizuColor { r, g, b, a }
}

/// Everything that rows are made from.
struct Fixture {
    tree: Tree<MizuNode>,
    boxes: HashMap<usize, BoxMetrics>,
    style_rules: StyleSheet,
    interner: FrozenInterner,
    variables: Vec<(Symbol, Value)>,
    evaluated: Vec<Evaluated>,
    logic_fns: Vec<(Symbol, MizuFunction)>,
    computed_bindings: Vec<ComputedBinding>,
    url_registry: Vec<(Symbol, Endpoint)>,
    root_timers: Vec<RootTimer>,
    root_timer_queue: Vec<(u64, Vec<usize>)>,
    bytes_stored: usize,
    quota_bytes: usize,
    log: InspectorLog,
    recent_mutations: Vec<(Symbol, u64)>,
    truncated: HashMap<usize, usize>,
}

impl Fixture {
    fn new() -> Fixture {
        Fixture {
            tree: Tree::new(node(Primitive::Doc, &[])),
            boxes: HashMap::new(),
            style_rules: StyleSheet::new(),
            interner: FrozenInterner::new(),
            variables: vec![],
            evaluated: vec![],
            logic_fns: vec![],
            computed_bindings: vec![],
            url_registry: vec![],
            root_timers: vec![],
            root_timer_queue: vec![],
            bytes_stored: 0,
            quota_bytes: 0,
            log: InspectorLog::new(),
            recent_mutations: vec![],
            truncated: HashMap::new(),
        }
    }

    fn with<R>(&self, f: impl Fn(&InspectorSources<'_>) -> R) -> R {
        let dom = Dom::from_tree(&self.tree).unwrap();
        f(&InspectorSources {
            dom: &dom,
            boxes: &self.boxes,
            style_rules: &self.style_rules,
            interner: &self.interner,
            variables: &self.variables,
            evaluated: &self.evaluated,
            logic_fns: &self.logic_fns,
            computed_bindings: &self.computed_bindings,
            url_registry: &self.url_registry,
            root_timers: &self.root_timers,
            root_timer_queue: &self.root_timer_queue,
            bytes_stored: self.bytes_stored,
            quota_bytes: self.quota_bytes,
            log: &self.log,
            recent_mutations: &self.recent_mutations,
            truncated: &self.truncated,
        })
    }
}

fn lines(rows: &[Row]) -> Vec<String> {
    rows.iter().map(|r| format!("{}|{}", r.indent, r.plain_text())).collect()
}

#[test]
fn empty_tabs_say_so() {
    let f = Fixture::new();
    assert_eq!(
        f.with(|src| lines(&logic_rows(src, None, 0))),
        vec![
            "0|Information flow",
            "1|Flow metrics not available.",
            "0|Variables 0",
            "1|This document declares no state.",
            "0|Computed 0",
            "1|No derived values.",
            "0|Functions 0",
            "1|No functions declared.",
        ]
    );
    assert_eq!(
        f.with(|src| lines(&events_rows(src, 0))),
        vec![
            "0|Timers 0",
            "1|No timers declared.",
            "0|Actions 0",
            "1|No event handlers declared.",
            "0|Activity 0",
            "1|Nothing has happened yet.",
        ]
    );
    assert_eq!(
        f.with(|src| lines(&network_rows(src))),
        vec![
            "0|Endpoints 0",
            "1|This document declares no network access.",
            "0|Storage",
            "1|0 B / 0 B 0%",
            "0|Requests 0",
            "1|No requests yet.",
        ]
    );
    assert_eq!(
        f.with(|src| lines(&style_rows(src, None))),
        vec!["0|No element selected. Pick one in Elements, or use the picker."]
    );
    assert_eq!(
        f.with(|src| lines(&style_rows(src, Some(9)))),
        vec!["0|Selection is stale — the document was replaced."]
    );
}

#[test]
fn the_document_is_a_tree_that_folds() {
    let mut f = Fixture::new();
    let list = f.tree.root_mut().append(node(Primitive::Box, &[("id", "list"), ("class", ".c")])).id();
    let long = "so much   text\nthat the preview has to stop somewhere";
    f.tree.get_mut(list).unwrap().append(node(Primitive::Text, &[("content", long)]));
    f.tree.root_mut().append(node(Primitive::Button, &[("content", "Go")]));
    f.truncated.insert(1, 12);
    let dom = Dom::from_tree(&f.tree).unwrap();
    let rows = elements_rows(&dom, &HashSet::new(), &f.truncated);
    assert_eq!(
        lines(&rows),
        vec![
            "0|doc",
            "1|box #list .c +12 hidden",
            "2|text \"so much text that the preview has to sto…\"",
            "1|button \"Go\"",
        ]
    );
    assert_eq!(rows[2].node, Some(2));
    let value = rows[2].inspect.as_ref().unwrap();
    assert_eq!(value.title, "Text content");
    assert_eq!(value.text, "so much text that the preview has to stop somewhere");
    assert!(rows[1].expandable && rows[1].expanded && !rows[2].expandable);
    let folded: HashSet<usize> = [1].into_iter().collect();
    let rows = elements_rows(&dom, &folded, &f.truncated);
    assert_eq!(rows.len(), 3);
    assert!(rows[1].expandable && !rows[1].expanded);
    assert!(rows[1].selectable());
}

#[test]
fn variables_are_sorted_and_lined_up() {
    let mut f = Fixture::new();
    let zed = f.interner.intern("zed");
    let a = f.interner.intern("a");
    let sum = f.interner.intern("sum");
    let add = f.interner.intern("add");
    f.variables = vec![
        (zed, Value::String("hi".to_string())),
        (sum, Value::Other("7".to_string())),
        (a, Value::Bool(true)),
        (Symbol { id: 999 }, Value::Null),
    ];
    f.computed_bindings = vec![ComputedBinding {
        name: sum,
        expr: OwnedExpr {
            arena: ExprArena {
                nodes: vec![
                    Expr::Variable(a),
                    Expr::Variable(zed),
                    Expr::BinaryOp { left: 0, op: BinOp::Add, right: 1 },
                ],
                args: vec![],
            },
            root: 2,
        },
        depends_on: vec![a, Symbol { id: 999 }, zed],
    }];
    f.logic_fns = vec![(
        add,
        MizuFunction { params: vec![(a, "int".to_string()), (zed, "str".to_string())] },
    )];
    f.recent_mutations = vec![(zed, 100)];
    let now = 100 + MUTATION_FLASH;
    assert_eq!(
        f.with(|src| lines(&logic_rows(src, Some((3, 2, 1)), now))),
        vec![
            "0|Information flow",
            "1|1 violations 3 sources · 2 sinks",
            "0|Variables 2",
            "1|a   = true",
            "1|zed = \"hi\"",
            "0|Computed 1",
            "1|sum = 7",
            "2|a + zed",
            "2|depends on a, zed",
            "0|Functions 1",
            "1|add (a: int, zed: str)",
            "1|call graph verified acyclic",
        ]
    );
    // What changed a moment ago stands out.
    let tone = |now: u64| f.with(|src| logic_rows(src, Some((0, 0, 0)), now)[4].segs[0].tone);
    assert_eq!(tone(now - 1), Tone::Accent);
    assert_eq!(tone(now), Tone::Key);
    assert_eq!(
        f.with(|src| logic_rows(src, Some((0, 0, 0)), 0)[1].plain_text()),
        "no violations 0 sources · 0 sinks"
    );
}

#[test]
fn values_show_their_kind() {
    let show = |v: Value| {
        let seg = value_seg(&v);
        (seg.text, seg.tone, seg.flex)
    };
    assert_eq!(show(Value::String("x".into())), ("\"x\"".to_string(), Tone::Value, Flex::Elide));
    assert_eq!(show(Value::Bool(true)), ("true".to_string(), Tone::Good, Flex::Elide));
    assert_eq!(show(Value::Bool(false)), ("false".to_string(), Tone::Muted, Flex::Elide));
    assert_eq!(show(Value::Null), ("null".to_string(), Tone::Muted, Flex::Elide));
    assert_eq!(show(Value::Other("[1]".into())), ("[1]".to_string(), Tone::Value, Flex::Elide));
    assert_eq!(value_str(&Value::Null), "null");
    assert_eq!(widest_of(&vec!["a".to_string(), "日".to_string()]), 3);
    let mut rows = Vec::new();
    push_section(&mut rows, "Things", 2, "none");
    push_section(&mut rows, "Others", 0, "none");
    assert_eq!(lines(&rows), vec!["0|Things 2", "0|Others 0", "1|none"]);
}

#[test]
fn expressions_are_printed_as_they_are_written() {
    let mut names = FrozenInterner::new();
    let f = names.intern("f");
    let x = names.intern("x");
    assert_eq!(names.intern("f"), f);
    let arena = ExprArena {
        nodes: vec![
            Expr::Variable(x),
            Expr::Literal(Value::String("s".to_string())),
            Expr::FunctionCall { name: f, args_start: 0, args_len: 2 },
            Expr::FieldAccess { base: 0, field: f },
        ],
        args: vec![0, 1],
    };
    assert_eq!(
        format_owned(&OwnedExpr { arena: arena.clone(), root: 2 }, &names),
        "f(x, \"s\")"
    );
    assert_eq!(format_owned(&OwnedExpr { arena, root: 3 }, &names), "x.f");
    assert_eq!(format_owned(&variable(Symbol { id: 77 }), &names), "?");
}

#[test]
fn timers_and_reactions_are_listed() {
    let mut f = Fixture::new();
    let x = f.interner.intern("x");
    let api = f.interner.intern("api");
    let mut button = node(Primitive::Button, &[]);
    button.events.insert(
        "click".to_string(),
        EventBlock::Click { action: Action::Assign { target: "x".to_string(), expr: variable(x) } },
    );
    f.tree.root_mut().append(button);
    f.root_timers = vec![
        RootTimer { interval: TimerInterval::Millis(2_000), action: Action::Eval(variable(x)) },
        RootTimer {
            interval: TimerInterval::Variable("rate".to_string()),
            action: Action::NetworkCall {
                method: HttpMethod::Get,
                alias_sym: api,
                target_var: "x".to_string(),
            },
        },
    ];
    f.root_timer_queue = vec![(5_000_000_000, vec![1]), (6_500_000_000, vec![0, 1])];
    f.log.push_event_at(1_000_000_000, EventKind::Click, "button");
    f.log.push_event_at(2_500_000_000, EventKind::Timer, "tick");
    let rows = f.with(|src| events_rows(src, 5_000_000_000));
    let text = lines(&rows);
    assert_eq!(text[0], "0|Timers 2");
    assert_eq!(text[1], "1|every 2s next in 1.5s");
    assert_eq!(text[3], "1|every {rate} due");
    assert_eq!(text[5], "0|Actions 1");
    assert_eq!(text[6], "1|button on:click");
    assert_eq!(text[7], "2|→ x = x");
    assert_eq!(text[8], "0|Activity 2");
    assert!(text[9].starts_with("1|timer") && text[9].contains("tick"), "{}", text[9]);
    assert!(text[10].contains("button"), "{}", text[10]);
    let orders = list_events(&Dom::from_tree(&f.tree).unwrap());
    assert_eq!(orders, vec![vec![], vec!["click".to_string()]]);
    let again = f.with(|src| events_rows_in_order(src, &orders, 5_000_000_000));
    assert_eq!(lines(&again), text);
    assert_eq!((fmt_millis(999), fmt_millis(1_000)), ("999ms".to_string(), "1s".to_string()));
    assert_eq!(fmt_millis(1_500), "1500ms");
    assert_eq!(countdown_seg(None, 3).text, "idle");
    assert_eq!(countdown_seg(Some(3), 3).text, "due");
    assert_eq!(countdown_seg(Some(100_000_003), 3).text, "next in 0.1s");
}

#[test]
fn requests_are_listed_newest_first() {
    let mut f = Fixture::new();
    let zoo = f.interner.intern("zoo");
    let api = f.interner.intern("api");
    f.url_registry = vec![
        (zoo, Endpoint { kind: EndpointKind::Media, raw_target: "mizu://z".to_string() }),
        (api, Endpoint { kind: EndpointKind::Api, raw_target: "mizu://a".to_string() }),
        (Symbol { id: 50 }, Endpoint { kind: EndpointKind::Api, raw_target: "?".to_string() }),
    ];
    f.bytes_stored = 950;
    f.quota_bytes = 1_000;
    f.log.push_net_start_at(0, "GET", "mizu://one", Some("k".to_string()));
    f.log.push_net_done_at(0, "GET", "mizu://two", NetOutcome::Redirect);
    f.log.complete_net_at(2_000_000_000, "k", NetOutcome::Completed, Some(2_048));
    f.log.push_net_blocked("POST", "mizu://three", "not declared".to_string());
    let rows = f.with(|src| network_rows(src));
    let text = lines(&rows);
    assert_eq!(
        text[..8],
        [
            "0|Endpoints 2",
            "1|api   api",
            "2|mizu://a",
            "1|media zoo",
            "2|mizu://z",
            "0|Storage",
            "1|950 B / 1000 B 95%",
            "0|Requests 3",
        ]
    );
    assert_eq!(rows[6].segs[1].tone, Tone::Bad);
    let all = text[8..].join("\n");
    let order: Vec<usize> =
        ["three", "two", "one"].iter().map(|t| all.find(t).unwrap()).collect();
    assert!(order[0] < order[1] && order[1] < order[2], "{all}");
    assert!(all.contains("2000ms · 2.0 KB") && all.contains("not declared"), "{all}");
    assert!(!f.log.network[0].outcome.is_pending());
    f.log.push_net_start_at(7, "GET", "mizu://four", None);
    assert!(f.log.network[3].outcome.is_pending());
    f.log.complete_latest_pending_at(9_000_007, NetOutcome::Failed("gone".to_string()));
    assert_eq!(f.log.network[3].duration_ms, Some(9));
    f.log.push_net_start("GET", "mizu://five", None);
    f.log.complete_latest_pending(NetOutcome::Completed);
    f.log.push_net_done("GET", "mizu://six", NetOutcome::Completed);
    assert!(f.log.network.iter().all(|e| !e.outcome.is_pending()));
    assert!(f.log.clock() < 60_000_000_000);
    assert!(f.log.fmt_ts(1_500_000_000).contains("1.5"), "{}", f.log.fmt_ts(1_500_000_000));
}

#[test]
fn byte_counts_are_rounded_as_doubles_are() {
    let counts = [
        0usize,
        1,
        1_023,
        1_024,
        1_075,
        1_076,
        1_126,
        1_177,
        1_048_575,
        1_048_576,
        5_242_880,
        123_456_789_012,
    ];
    for b in counts {
        let x = b as f64;
        let want = if x < 1024.0 {
            format!("{x:.0} B")
        } else if x < 1024.0 * 1024.0 {
            format!("{:.1} KB", x / 1024.0)
        } else {
            format!("{:.1} MB", x / (1024.0 * 1024.0))
        };
        assert_eq!(fmt_bytes(b), want);
    }
    for b in (1_024..200_000).step_by(7) {
        assert_eq!(fmt_bytes(b), format!("{:.1} KB", b as f64 / 1024.0));
    }
}

#[test]
fn a_nodes_style_is_its_cascade() {
    let mut f = Fixture::new();
    let x = f.interner.intern("x");
    let mut card = node(Primitive::Box, &[("class", "..card")]);
    card.conditional_classes = vec![
        ConditionalClass::Toggle { class_name: "on".to_string(), condition: variable(x) },
        ConditionalClass::Toggle { class_name: "off".to_string(), condition: variable(x) },
        ConditionalClass::Toggle { class_name: "bad".to_string(), condition: variable(x) },
        ConditionalClass::Ternary { expr: literal(Value::Null) },
        ConditionalClass::Ternary { expr: variable(x) },
        ConditionalClass::Ternary { expr: variable(x) },
    ];
    f.tree.root_mut().append(card);
    f.evaluated = vec![
        Evaluated::Value(Value::Bool(true)),
        Evaluated::Value(Value::Null),
        Evaluated::Failed,
        Evaluated::Value(Value::String("wide".to_string())),
        Evaluated::Value(Value::Null),
        Evaluated::Failed,
    ];
    f.boxes.insert(
        1,
        BoxMetrics {
            width: "10".to_string(),
            height: "20".to_string(),
            x: "3".to_string(),
            y: "4".to_string(),
        },
    );
    f.style_rules.insert(
        "box".to_string(),
        StyleRules {
            flex_direction: Some("Column".to_string()),
            color: Some(colour(1, 2, 255, 255)),
            ..Default::default()
        },
    );
    f.style_rules.insert("card".to_string(), StyleRules { z_index: -2, ..Default::default() });
    let rows = f.with(|src| style_rows(src, Some(1)));
    assert_eq!(
        lines(&rows),
        vec![
            "0|Selected",
            "1|box .card",
            "0|Box",
            "1|size   10 × 20",
            "1|offset 3, 4",
            "0|Rules · box 2",
            "1|flex-direction column",
            "1|color          #0102ff",
            "0|Rules · .card 1",
            "1|z-index -2",
            "0|Conditional classes 6",
            "1|on  .on",
            "2|if x",
            "1|off .off",
            "2|if x",
            "1|err .bad",
            "2|if x",
            "1|?   .wide ternary",
            "2|= null",
            "1|?   <non-string result> ternary",
            "2|= x",
            "1|?   <error> ternary",
            "2|= x",
        ]
    );
    assert_eq!(rows[7].segs[1].swatch, Some((1, 2, 255, 255)));
    assert_eq!(rows[11].segs[0].tone, Tone::Good);
}

#[test]
fn every_declaration_is_printed() {
    let number = |s: &str| Some(s.to_string());
    let rules = StyleRules {
        width: Some(MizuDimension::Pixels("5".to_string())),
        height: Some(MizuDimension::Percent("50".to_string())),
        padding: Some(MizuDimension::ViewportWidth("1".to_string())),
        margin: Some(MizuDimension::ViewportHeight("2".to_string())),
        gap: Some(MizuDimension::ViewportMin("3".to_string())),
        flex_direction: number("Row"),
        justify: number("SpaceBetween"),
        align: number("Center"),
        background: Some(MizuBackground::LinearGradient {
            angle: "45".to_string(),
            start: colour(0, 0, 0, 255),
            end: colour(255, 255, 255, 128),
        }),
        background_image: number("pic"),
        color: Some(colour(9, 9, 9, 0)),
        font_size: number("12"),
        border_radius: number("4"),
        border_width: number("1"),
        border_color: Some(colour(16, 32, 48, 255)),
        z_index: 3,
    };
    let decls: Vec<String> =
        style_decls(&rules).iter().map(|d| format!("{}: {}", d.name, d.value)).collect();
    assert_eq!(
        decls,
        vec![
            "width: 5",
            "height: 50%",
            "padding: 1vw",
            "margin: 2vh",
            "gap: 3vmin",
            "flex-direction: row",
            "justify: spacebetween",
            "align: center",
            "background: linear-gradient(45deg, #000000, #ffffff80)",
            "background-image: pic",
            "color: #09090900",
            "font-size: 12",
            "border-radius: 4",
            "border-width: 1",
            "border-color: #102030",
            "z-index: 3",
        ]
    );
    assert_eq!(fmt_color(&colour(1, 2, 3, 4)), "#01020304");
    assert_eq!(fmt_dimension(&MizuDimension::ViewportMax("7".to_string())), "7vmax");
    assert!(style_decls(&StyleRules::default()).is_empty());
}

#[test]
fn the_open_tab_decides_what_is_listed() {
    let mut f = Fixture::new();
    f.quota_bytes = 10;
    let first = |tab: InspectorTab| {
        let mut state = InspectorState::new();
        state.tab = tab;
        let text = f.with(|src| lines(&build_rows_at(src, &state, 0)));
        assert_eq!(f.with(|src| lines(&build_rows(src, &state))), text);
        text[0].clone()
    };
    assert_eq!(first(InspectorTab::Elements), "0|doc");
    assert_eq!(
        first(InspectorTab::Style),
        "0|No element selected. Pick one in Elements, or use the picker."
    );
    assert_eq!(first(InspectorTab::Logic), "0|Information flow");
    assert_eq!(first(InspectorTab::Events), "0|Timers 0");
    assert_eq!(first(InspectorTab::Network), "0|Endpoints 0");
}

#[test]
fn only_what_may_be_cut_can_be_opened() {
    let short = Row::item(1, vec![Seg::ui("x", Tone::Key)]).maybe_inspect("t", &"x".repeat(27));
    assert!(short.inspect.is_none());
    let long = Row::item(1, vec![Seg::ui("x", Tone::Key)]).maybe_inspect("t", &"x".repeat(29));
    assert_eq!(long.inspect.unwrap().text.len(), 29);
    let segs = vec![Seg::strong("a", Tone::Key), Seg::mono("b", Tone::Bad)];
    assert_eq!(join_segs(&segs), "a b");
    assert_eq!(Row::header_n("T", 3).kind, RowKind::Header);
    assert!(!Row::header("T").selectable());
}

#[test]
fn times_are_right_aligned() {
    let log = InspectorLog::new();
    assert_eq!(log.fmt_ts(12_400_000_000), "  12.4s");
    assert_eq!(log.fmt_ts(1_500_000_000), "   1.5s");
    assert_eq!(log.fmt_ts(0), "   0.0s");
    assert_eq!(log.fmt_ts(1_234_500_000_000), "1234.5s");
    assert_eq!(log.fmt_ts(123_456_700_000_000), "123456.7s");
}

#[test]
fn a_node_has_one_row_where_nothing_above_it_is_folded() {
    let mut f = Fixture::new();
    let mut at = f.tree.root().id();
    for _ in 0..300 {
        at = f.tree.get_mut(at).unwrap().append(node(Primitive::Box, &[])).id();
    }
    f.tree.root_mut().append(node(Primitive::Text, &[]));
    // A node that hangs nowhere has no row.
    f.tree.orphan(node(Primitive::Text, &[]));
    let dom = Dom::from_tree(&f.tree).unwrap();
    let rows = elements_rows(&dom, &HashSet::new(), &f.truncated);
    assert_eq!(dom.len(), 303);
    assert_eq!(rows.len(), 302);
    for (i, row) in rows[..301].iter().enumerate() {
        assert_eq!((row.node, row.indent as usize), (Some(i), i.min(255)));
    }
    assert_eq!((rows[301].node, rows[301].indent), (Some(301), 1));
    // Folding a node hides what is below it, and not the node.
    let folded: HashSet<usize> = [0, 7].into_iter().collect();
    assert_eq!(elements_rows(&dom, &folded, &f.truncated).len(), 1);
    let folded: HashSet<usize> = [7, 40].into_iter().collect();
    let nodes: Vec<Option<usize>> =
        elements_rows(&dom, &folded, &f.truncated).iter().map(|r| r.node).collect();
    let want: Vec<Option<usize>> = (0..8).chain([301]).map(Some).collect();
    assert_eq!(nodes, want);
}

#[test]
fn the_order_in_which_things_are_listed_shows_nowhere() {
    let mut f = Fixture::new();
    let names: Vec<Symbol> =
        ["gamma", "alpha", "beta", "sum"].iter().map(|n| f.interner.intern(n)).collect();
    f.variables = names
        .iter()
        .enumerate()
        .map(|(i, s)| (*s, Value::Other(i.to_string())))
        .collect();
    f.recent_mutations = vec![(names[0], 5), (names[1], 50), (names[3], 70)];
    f.computed_bindings =
        vec![ComputedBinding { name: names[3], expr: variable(names[0]), depends_on: vec![] }];
    f.logic_fns =
        names.iter().map(|s| (*s, MizuFunction { params: vec![(*s, "int".to_string())] })).collect();
    f.url_registry = names
        .iter()
        .map(|s| {
            let raw_target = format!("mizu://{}", s.id);
            (*s, Endpoint { kind: EndpointKind::Api, raw_target })
        })
        .collect();
    let show = |f: &Fixture| {
        f.with(|src| {
            let now = 10 + MUTATION_FLASH;
            let logic = logic_rows(src, None, now);
            let tones: Vec<Tone> =
                logic.iter().filter(|r| !r.segs.is_empty()).map(|r| r.segs[0].tone).collect();
            (lines(&logic), tones, lines(&network_rows(src)))
        })
    };
    let (logic, tones, network) = show(&f);
    let at = |t: &str| logic.iter().position(|l| l.contains(t)).unwrap();
    assert!(at("alpha = 1") < at("beta  = 2") && at("beta  = 2") < at("gamma = 0"), "{logic:?}");
    assert_eq!(tones[at("alpha = 1")], Tone::Accent);
    assert_eq!(tones[at("gamma = 0")], Tone::Key);
    for _ in 0..2 {
        f.variables.rotate_left(1);
        f.recent_mutations.reverse();
        f.logic_fns.swap(0, 3);
        f.url_registry.reverse();
        assert_eq!(show(&f), (logic.clone(), tones.clone(), network.clone()));
    }
}
