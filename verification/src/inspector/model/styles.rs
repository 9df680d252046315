//! The Style tab: box metrics and the style cascade of the selected element.

use vstd::prelude::*;

use crate::dom::ConditionalClass;
use crate::inspector::model::elements::{label_segs, node_label_segs};
use crate::inspector::model::format::{format_owned, owned_ok, owned_text};
use crate::inspector::model::sources::{BoxMetrics, Evaluated, InspectorSources};
use crate::inspector::model::types::{
    lemma_row_views_push, lemma_seg_views_push, row_views, seg_views, Row, RowView, Seg, SegView,
    Tone,
};
use crate::logic::{FrozenInterner, Value};
use crate::style::{MizuBackground, MizuColor, MizuDimension, StyleRules};
use crate::text::{
    byte_len, byte_length, hex_byte, join2, join3, lowercase, pad_right, padded_right, push_hex,
    signed_decimal, signed_decimal_of, strip_leading, to_lower, without_leading,
};

verus! {

/// A colour as a hash and hexadecimal digits; opacity only where it is not
/// full.
pub open spec fn color_text(c: MizuColor) -> Seq<char> {
    "#"@ + hex_byte(c.r) + hex_byte(c.g) + hex_byte(c.b) + if c.a == 255 {
        Seq::empty()
    } else {
        hex_byte(c.a)
    }
}

/// Prints a colour.
pub fn fmt_color(c: &MizuColor) -> (s: String)
    ensures
        s@ == color_text(*c),
{
    let mut s = "#".to_owned();
    push_hex(&mut s, c.r);
    push_hex(&mut s, c.g);
    push_hex(&mut s, c.b);
    if c.a != 255 {
        push_hex(&mut s, c.a);
    }
    proof {
        assert(s@ =~= color_text(*c));
    }
    s
}

/// A length with its unit.
pub open spec fn dimension_text(d: MizuDimension) -> Seq<char> {
    match d {
        MizuDimension::Pixels(v) => v@,
        MizuDimension::Percent(v) => v@ + "%"@,
        MizuDimension::ViewportWidth(v) => v@ + "vw"@,
        MizuDimension::ViewportHeight(v) => v@ + "vh"@,
        MizuDimension::ViewportMin(v) => v@ + "vmin"@,
        MizuDimension::ViewportMax(v) => v@ + "vmax"@,
    }
}

/// Prints a length.
pub fn fmt_dimension(d: &MizuDimension) -> (s: String)
    ensures
        s@ == dimension_text(*d),
{
    match d {
        MizuDimension::Pixels(v) => v.clone(),
        MizuDimension::Percent(v) => join2(v.as_str(), "%"),
        MizuDimension::ViewportWidth(v) => join2(v.as_str(), "vw"),
        MizuDimension::ViewportHeight(v) => join2(v.as_str(), "vh"),
        MizuDimension::ViewportMin(v) => join2(v.as_str(), "vmin"),
        MizuDimension::ViewportMax(v) => join2(v.as_str(), "vmax"),
    }
}

/// One declaration of a rule.
#[derive(Debug)]
pub struct Decl {
    /// The property.
    pub name: String,
    /// Its value.
    pub value: String,
    /// The colour that the value names.
    pub swatch: Option<MizuColor>,
}

/// What a [`Decl`] says.
#[verifier::ext_equal]
pub struct DeclView {
    pub name: Seq<char>,
    pub value: Seq<char>,
    pub swatch: Option<MizuColor>,
}

impl View for Decl {
    type V = DeclView;

    open spec fn view(&self) -> DeclView {
        DeclView { name: self.name@, value: self.value@, swatch: self.swatch }
    }
}

/// The declarations seen as plain values.
pub open spec fn decl_views(d: Seq<Decl>) -> Seq<DeclView> {
    d.map_values(|d: Decl| d@)
}

/// Adding a declaration adds its view.
pub broadcast proof fn lemma_decl_views_push(ds: Seq<Decl>, d: Decl)
    ensures
        #[trigger] decl_views(ds.push(d)) == decl_views(ds).push(d@),
{
    assert(decl_views(ds.push(d)) =~= decl_views(ds).push(d@));
}

impl Decl {
    /// `name: value`.
    pub fn new(name: &str, value: &str) -> (d: Decl)
        ensures
            d@ == (DeclView { name: name@, value: value@, swatch: None }),
    {
        Decl { name: name.to_owned(), value: value.to_owned(), swatch: None }
    }

    /// `name: colour`, with the colour shown.
    fn colored(name: &str, c: &MizuColor) -> (d: Decl)
        ensures
            d@ == (DeclView { name: name@, value: color_text(*c), swatch: Some(*c) }),
    {
        Decl { name: name.to_owned(), value: fmt_color(c), swatch: Some(*c) }
    }
}

/// The declaration of a property that may be set.
pub open spec fn opt_decl(name: Seq<char>, value: Option<Seq<char>>) -> Seq<DeclView> {
    match value {
        Some(v) => seq![DeclView { name, value: v, swatch: None }],
        None => Seq::empty(),
    }
}

/// The declaration of a colour that may be set.
pub open spec fn opt_color(name: Seq<char>, c: Option<MizuColor>) -> Seq<DeclView> {
    match c {
        Some(c) => seq![DeclView { name, value: color_text(c), swatch: Some(c) }],
        None => Seq::empty(),
    }
}

/// A length that may be set, printed.
pub open spec fn opt_dimension(d: Option<MizuDimension>) -> Option<Seq<char>> {
    match d {
        Some(v) => Some(dimension_text(v)),
        None => None,
    }
}

/// A keyword that may be set, in lower case.
pub open spec fn opt_keyword(k: Option<String>) -> Option<Seq<char>> {
    match k {
        Some(v) => Some(lowercase(v@)),
        None => None,
    }
}

/// A text that may be set.
pub open spec fn opt_string(k: Option<String>) -> Option<Seq<char>> {
    match k {
        Some(v) => Some(v@),
        None => None,
    }
}

/// The declaration of a background.
pub open spec fn background_decl(b: Option<MizuBackground>) -> Seq<DeclView> {
    match b {
        Some(MizuBackground::Solid(c)) => opt_color("background"@, Some(c)),
        Some(MizuBackground::LinearGradient { angle, start, end }) => opt_decl(
            "background"@,
            Some(
                "linear-gradient("@ + angle@ + "deg, "@ + color_text(start) + ", "@ + color_text(end)
                    + ")"@,
            ),
        ),
        None => Seq::empty(),
    }
}

/// The declarations that a rule sets, in a fixed order.
pub open spec fn rule_decls(r: StyleRules) -> Seq<DeclView> {
    opt_decl("width"@, opt_dimension(r.width)) + opt_decl("height"@, opt_dimension(r.height))
        + opt_decl("padding"@, opt_dimension(r.padding)) + opt_decl(
        "margin"@,
        opt_dimension(r.margin),
    ) + opt_decl("gap"@, opt_dimension(r.gap)) + opt_decl(
        "flex-direction"@,
        opt_keyword(r.flex_direction),
    ) + opt_decl("justify"@, opt_keyword(r.justify)) + opt_decl("align"@, opt_keyword(r.align))
        + background_decl(r.background) + opt_decl(
        "background-image"@,
        opt_string(r.background_image),
    ) + opt_color("color"@, r.color) + opt_decl("font-size"@, opt_string(r.font_size)) + opt_decl(
        "border-radius"@,
        opt_string(r.border_radius),
    ) + opt_decl("border-width"@, opt_string(r.border_width)) + opt_color(
        "border-color"@,
        r.border_color,
    ) + opt_decl(
        "z-index"@,
        if r.z_index != 0 {
            Some(signed_decimal(r.z_index as int))
        } else {
            None
        },
    )
}

/// Adds the declaration of a length that may be set.
fn push_dimension(out: &mut Vec<Decl>, name: &str, d: &Option<MizuDimension>)
    ensures
        decl_views(final(out)@) == decl_views(old(out)@) + opt_decl(name@, opt_dimension(*d)),
{
    broadcast use lemma_decl_views_push;

    if let Some(v) = d {
        let text = fmt_dimension(v);
        out.push(Decl::new(name, text.as_str()));
    }
    proof {
        assert(decl_views(out@) =~= decl_views(old(out)@) + opt_decl(name@, opt_dimension(*d)));
    }
}

/// Adds the declaration of a keyword that may be set.
fn push_keyword(out: &mut Vec<Decl>, name: &str, k: &Option<String>)
    ensures
        decl_views(final(out)@) == decl_views(old(out)@) + opt_decl(name@, opt_keyword(*k)),
{
    broadcast use lemma_decl_views_push;

    if let Some(v) = k {
        let text = to_lower(v.as_str());
        out.push(Decl::new(name, text.as_str()));
    }
    proof {
        assert(decl_views(out@) =~= decl_views(old(out)@) + opt_decl(name@, opt_keyword(*k)));
    }
}

/// Adds the declaration of a text that may be set.
fn push_string(out: &mut Vec<Decl>, name: &str, k: &Option<String>)
    ensures
        decl_views(final(out)@) == decl_views(old(out)@) + opt_decl(name@, opt_string(*k)),
{
    broadcast use lemma_decl_views_push;

    if let Some(v) = k {
        out.push(Decl::new(name, v.as_str()));
    }
    proof {
        assert(decl_views(out@) =~= decl_views(old(out)@) + opt_decl(name@, opt_string(*k)));
    }
}

/// Adds the declaration of a colour that may be set.
fn push_color(out: &mut Vec<Decl>, name: &str, c: &Option<MizuColor>)
    ensures
        decl_views(final(out)@) == decl_views(old(out)@) + opt_color(name@, *c),
{
    broadcast use lemma_decl_views_push;

    if let Some(v) = c {
        out.push(Decl::colored(name, v));
    }
    proof {
        assert(decl_views(out@) =~= decl_views(old(out)@) + opt_color(name@, *c));
    }
}

/// The declarations that a rule sets.
pub fn style_decls(rules: &StyleRules) -> (out: Vec<Decl>)
    ensures
        decl_views(out@) == rule_decls(*rules),
{
    broadcast use lemma_decl_views_push;

    let mut out: Vec<Decl> = Vec::new();
    proof {
        assert(decl_views(out@) =~= Seq::<DeclView>::empty());
        assert(Seq::<DeclView>::empty() + opt_decl("width"@, opt_dimension(rules.width)) =~= opt_decl(
            "width"@,
            opt_dimension(rules.width),
        ));
    }
    push_dimension(&mut out, "width", &rules.width);
    push_dimension(&mut out, "height", &rules.height);
    push_dimension(&mut out, "padding", &rules.padding);
    push_dimension(&mut out, "margin", &rules.margin);
    push_dimension(&mut out, "gap", &rules.gap);
    push_keyword(&mut out, "flex-direction", &rules.flex_direction);
    push_keyword(&mut out, "justify", &rules.justify);
    push_keyword(&mut out, "align", &rules.align);
    let ghost before = decl_views(out@);
    match &rules.background {
        Some(MizuBackground::Solid(c)) => {
            out.push(Decl::colored("background", c));
        },
        Some(MizuBackground::LinearGradient { angle, start, end }) => {
            let mut text = join3("linear-gradient(", angle.as_str(), "deg, ");
            text.append(fmt_color(start).as_str());
            text.append(", ");
            text.append(fmt_color(end).as_str());
            text.append(")");
            out.push(Decl::new("background", text.as_str()));
        },
        None => {},
    }
    proof {
        assert(decl_views(out@) =~= before + background_decl(rules.background));
    }
    push_string(&mut out, "background-image", &rules.background_image);
    push_color(&mut out, "color", &rules.color);
    push_string(&mut out, "font-size", &rules.font_size);
    push_string(&mut out, "border-radius", &rules.border_radius);
    push_string(&mut out, "border-width", &rules.border_width);
    push_color(&mut out, "border-color", &rules.border_color);
    if rules.z_index != 0 {
        let text = signed_decimal_of(rules.z_index);
        out.push(Decl::new("z-index", text.as_str()));
    }
    proof {
        assert(decl_views(out@) =~= rule_decls(*rules));
    }
    out
}

/// Length in bytes of the longest name of the first `n` declarations.
pub open spec fn name_width(ds: Seq<DeclView>, n: nat) -> nat
    decreases n,
{
    if n == 0 || n > ds.len() {
        0
    } else {
        let w = name_width(ds, (n - 1) as nat);
        let l = byte_len(ds[n - 1].name);
        if w >= l {
            w
        } else {
            l
        }
    }
}

/// The row of one declaration, its name filled up to `width`.
pub open spec fn decl_row(d: DeclView, width: nat) -> RowView {
    let value = SegView::mono(d.value, Tone::Value).elide();
    RowView::item(
        1,
        seq![
            SegView::mono(padded_right(d.name, width), Tone::Key),
            match d.swatch {
                Some(c) => value.chip(c),
                None => value,
            },
        ],
    ).maybe_inspect(d.name, d.value)
}

/// The rows of declarations, their names filled up to one width.
pub open spec fn decl_rows(ds: Seq<DeclView>) -> Seq<RowView> {
    Seq::new(ds.len(), |i: int| decl_row(ds[i], name_width(ds, ds.len())))
}

/// Adds a row for each declaration, with the values in one column.
pub fn push_decl_rows(rows: &mut Vec<Row>, decls: &[Decl])
    ensures
        row_views(final(rows)@) == row_views(old(rows)@) + decl_rows(decl_views(decls@)),
{
    broadcast use {lemma_row_views_push, lemma_seg_views_push};

    let ghost ds = decl_views(decls@);
    let mut width: usize = 0;
    let mut i: usize = 0;
    while i < decls.len()
        invariant
            i <= decls@.len(),
            ds == decl_views(decls@),
            width == name_width(ds, i as nat),
        decreases decls@.len() - i,
    {
        let l = byte_length(decls[i].name.as_str());
        proof {
            assert(ds[i as int].name == decls@[i as int].name@);
        }
        if l > width {
            width = l;
        }
        i += 1;
    }
    let mut j: usize = 0;
    proof {
        assert(decl_rows(ds).take(0) =~= Seq::<RowView>::empty());
        assert(row_views(old(rows)@) + Seq::<RowView>::empty() =~= row_views(old(rows)@));
    }
    while j < decls.len()
        invariant
            j <= decls@.len(),
            ds == decl_views(decls@),
            width == name_width(ds, ds.len()),
            row_views(rows@) == row_views(old(rows)@) + decl_rows(ds).take(j as int),
        decreases decls@.len() - j,
    {
        let d = &decls[j];
        proof {
            assert(ds[j as int] == d@);
        }
        let plain = Seg::mono(d.value.as_str(), Tone::Value).elide();
        let value = match &d.swatch {
            Some(c) => plain.swatch(c),
            None => plain,
        };
        let mut segs: Vec<Seg> = Vec::new();
        segs.push(Seg::mono(pad_right(d.name.as_str(), width).as_str(), Tone::Key));
        segs.push(value);
        let ghost sv = seg_views(segs@);
        let ghost before = row_views(rows@);
        let row = Row::item(1, segs).maybe_inspect(d.name.as_str(), d.value.as_str());
        proof {
            assert(sv =~= decl_row(ds[j as int], width as nat).segs);
            assert(row@ == decl_row(ds[j as int], width as nat));
        }
        rows.push(row);
        proof {
            assert(row_views(rows@) == before.push(row@));
            assert(decl_rows(ds).take(j + 1) =~= decl_rows(ds).take(j as int).push(
                decl_row(ds[j as int], width as nat),
            ));
            assert(row_views(rows@) =~= row_views(old(rows)@) + decl_rows(ds).take(j + 1));
        }
        j += 1;
    }
    proof {
        assert(decl_rows(ds).take(ds.len() as int) =~= decl_rows(ds));
    }
}

/// The rows of a node's box.
pub open spec fn box_rows(b: BoxMetrics) -> Seq<RowView> {
    seq![RowView::header("Box"@)] + decl_rows(
        seq![
            DeclView { name: "size"@, value: b.width@ + " × "@ + b.height@, swatch: None },
            DeclView { name: "offset"@, value: b.x@ + ", "@ + b.y@, swatch: None },
        ],
    )
}

/// The rows of a style rule.
pub open spec fn rule_rows(title: Seq<char>, r: StyleRules) -> Seq<RowView> {
    seq![RowView::header_n(title, rule_decls(r).len())] + decl_rows(rule_decls(r))
}

/// The expression of a conditional class.
pub open spec fn class_expr(c: ConditionalClass) -> crate::logic::OwnedExpr {
    match c {
        ConditionalClass::Toggle { class_name, condition } => condition,
        ConditionalClass::Ternary { expr } => expr,
    }
}

/// The rows of a conditional class that evaluated to `e`.
pub open spec fn class_rows(c: ConditionalClass, e: Evaluated, names: FrozenInterner) -> Seq<
    RowView,
> {
    let text = owned_text(class_expr(c), names);
    match c {
        ConditionalClass::Toggle { class_name, condition } => {
            let (status, tone) = match e {
                Evaluated::Value(Value::Bool(true)) => ("on"@, Tone::Good),
                Evaluated::Value(_) => ("off"@, Tone::Muted),
                Evaluated::Failed => ("err"@, Tone::Bad),
            };
            seq![
                RowView::item(
                    1,
                    seq![
                        SegView::mono(padded_right(status, 3), tone),
                        SegView::mono("."@ + class_name@, Tone::Value),
                    ],
                ),
                RowView::detail(
                    2,
                    seq![
                        SegView::mono("if"@, Tone::Key),
                        SegView::mono(text, Tone::Muted).elide(),
                    ],
                ).maybe_inspect("Condition"@, text),
            ]
        },
        ConditionalClass::Ternary { expr } => {
            let (label, tone) = match e {
                Evaluated::Value(Value::String(s)) => ("."@ + s@, Tone::Good),
                Evaluated::Value(_) => ("<non-string result>"@, Tone::Bad),
                Evaluated::Failed => ("<error>"@, Tone::Bad),
            };
            seq![
                RowView::item(
                    1,
                    seq![
                        SegView::mono("?  "@, Tone::Muted),
                        SegView::mono(label, tone),
                        SegView::ui("ternary"@, Tone::Muted).trail(),
                    ],
                ),
                RowView::detail(
                    2,
                    seq![
                        SegView::mono("="@, Tone::Key),
                        SegView::mono(text, Tone::Muted).elide(),
                    ],
                ).maybe_inspect("Expression"@, text),
            ]
        },
    }
}

/// The rows of the first `n` conditional classes.
pub open spec fn classes_rows(
    cs: Seq<ConditionalClass>,
    es: Seq<Evaluated>,
    names: FrozenInterner,
    n: nat,
) -> Seq<RowView>
    decreases n,
{
    if n == 0 {
        Seq::empty()
    } else {
        classes_rows(cs, es, names, (n - 1) as nat) + class_rows(cs[n - 1], es[n - 1], names)
    }
}

impl<'a> InspectorSources<'a> {
    /// How many children of a node were left out.
    pub open spec fn left_out(&self, i: usize) -> Option<usize> {
        if self.truncated@.contains_key(i) {
            Some(self.truncated@[i])
        } else {
            None
        }
    }

    /// Whether the node that is selected can be shown: its conditional classes
    /// are finite expressions, and each has been evaluated.
    pub open spec fn style_ready(&self, selected: Option<usize>) -> bool {
        (selected matches Some(i) && i < self.dom.links().len()) ==> {
            let cs = self.dom.links()[selected->0 as int].value.conditional_classes@;
            &&& self.evaluated@.len() == cs.len()
            &&& forall|k: int| 0 <= k < cs.len() ==> owned_ok(class_expr(#[trigger] cs[k]))
        }
    }

    /// The rows of a node in the Style tab.
    pub open spec fn node_style_rows(&self, i: usize) -> Seq<RowView> {
        let node = self.dom.links()[i as int].value;
        let class = match node.attr("class"@) {
            Some(c) => Some(without_leading(c, '.')),
            None => None,
        };
        seq![
            RowView::header("Selected"@),
            RowView::item(1, label_segs(node, self.left_out(i))),
        ] + (if self.boxes@.contains_key(i) {
            box_rows(self.boxes@[i])
        } else {
            Seq::empty()
        }) + (if self.style_rules@.contains_key(node.primitive.tag()) {
            rule_rows(
                "Rules · "@ + node.primitive.tag(),
                self.style_rules@[node.primitive.tag()],
            )
        } else {
            Seq::empty()
        }) + (match class {
            Some(c) => if self.style_rules@.contains_key(c) {
                rule_rows("Rules · ."@ + c, self.style_rules@[c])
            } else {
                Seq::empty()
            },
            None => Seq::empty(),
        }) + (if node.conditional_classes@.len() > 0 {
            seq![RowView::header_n("Conditional classes"@, node.conditional_classes@.len())]
                + classes_rows(
                node.conditional_classes@,
                self.evaluated@,
                *self.interner,
                node.conditional_classes@.len(),
            )
        } else {
            Seq::empty()
        })
    }

    /// The rows of the Style tab.
    pub open spec fn style_tab(&self, selected: Option<usize>) -> Seq<RowView> {
        match selected {
            None => seq![
                RowView::empty(0, "No element selected. Pick one in Elements, or use the picker."@),
            ],
            Some(i) => if i < self.dom.links().len() {
                self.node_style_rows(i)
            } else {
                seq![RowView::empty(0, "Selection is stale — the document was replaced."@)]
            },
        }
    }
}

/// Adds the rows of a style rule.
fn push_rule(rows: &mut Vec<Row>, title: &str, rules: &StyleRules)
    ensures
        row_views(final(rows)@) == row_views(old(rows)@) + rule_rows(title@, *rules),
{
    broadcast use lemma_row_views_push;

    let decls = style_decls(rules);
    proof {
        assert(decls@.len() == decl_views(decls@).len());
    }
    rows.push(Row::header_n(title, decls.len()));
    push_decl_rows(rows, decls.as_slice());
    proof {
        assert(row_views(rows@) =~= row_views(old(rows)@) + rule_rows(title@, *rules));
    }
}

/// Adds the rows of a conditional class.
fn push_class(rows: &mut Vec<Row>, c: &ConditionalClass, e: &Evaluated, interner: &FrozenInterner)
    requires
        owned_ok(class_expr(*c)),
    ensures
        row_views(final(rows)@) == row_views(old(rows)@) + class_rows(*c, *e, *interner),
{
    broadcast use {lemma_row_views_push, lemma_seg_views_push};

    let mut head: Vec<Seg> = Vec::new();
    let mut line: Vec<Seg> = Vec::new();
    match c {
        ConditionalClass::Toggle { class_name, condition } => {
            let (status, tone) = match e {
                Evaluated::Value(Value::Bool(true)) => ("on", Tone::Good),
                Evaluated::Value(_) => ("off", Tone::Muted),
                Evaluated::Failed => ("err", Tone::Bad),
            };
            head.push(Seg::mono(pad_right(status, 3).as_str(), tone));
            head.push(Seg::mono(join2(".", class_name.as_str()).as_str(), Tone::Value));
            let text = format_owned(condition, interner);
            line.push(Seg::mono("if", Tone::Key));
            line.push(Seg::mono(text.as_str(), Tone::Muted).elide());
            let ghost hv = seg_views(head@);
            let ghost lv = seg_views(line@);
            rows.push(Row::item(1, head));
            rows.push(Row::detail(2, line).maybe_inspect("Condition", text.as_str()));
            proof {
                let want = class_rows(*c, *e, *interner);
                assert(hv =~= want[0].segs);
                assert(lv =~= want[1].segs);
                assert(row_views(rows@) =~= row_views(old(rows)@) + want);
            }
        },
        ConditionalClass::Ternary { expr } => {
            let (label, tone) = match e {
                Evaluated::Value(Value::String(s)) => (join2(".", s.as_str()), Tone::Good),
                Evaluated::Value(_) => ("<non-string result>".to_owned(), Tone::Bad),
                Evaluated::Failed => ("<error>".to_owned(), Tone::Bad),
            };
            head.push(Seg::mono("?  ", Tone::Muted));
            head.push(Seg::mono(label.as_str(), tone));
            head.push(Seg::ui("ternary", Tone::Muted).trail());
            let text = format_owned(expr, interner);
            line.push(Seg::mono("=", Tone::Key));
            line.push(Seg::mono(text.as_str(), Tone::Muted).elide());
            let ghost hv = seg_views(head@);
            let ghost lv = seg_views(line@);
            rows.push(Row::item(1, head));
            rows.push(Row::detail(2, line).maybe_inspect("Expression", text.as_str()));
            proof {
                let want = class_rows(*c, *e, *interner);
                assert(hv =~= want[0].segs);
                assert(lv =~= want[1].segs);
                assert(row_views(rows@) =~= row_views(old(rows)@) + want);
            }
        },
    }
}

/// Adds the rows of a node's box.
fn push_box(rows: &mut Vec<Row>, b: &BoxMetrics)
    ensures
        row_views(final(rows)@) == row_views(old(rows)@) + box_rows(*b),
{
    broadcast use {lemma_row_views_push, lemma_decl_views_push};

    rows.push(Row::header("Box"));
    let mut decls: Vec<Decl> = Vec::new();
    decls.push(Decl::new("size", join3(b.width.as_str(), " × ", b.height.as_str()).as_str()));
    decls.push(Decl::new("offset", join3(b.x.as_str(), ", ", b.y.as_str()).as_str()));
    push_decl_rows(rows, decls.as_slice());
    proof {
        assert(decl_views(decls@) =~= seq![
            DeclView { name: "size"@, value: b.width@ + " × "@ + b.height@, swatch: None },
            DeclView { name: "offset"@, value: b.x@ + ", "@ + b.y@, swatch: None },
        ]);
        assert(row_views(rows@) =~= row_views(old(rows)@) + box_rows(*b));
    }
}

/// Adds the rows of a node's conditional classes.
fn push_classes(
    rows: &mut Vec<Row>,
    classes: &[ConditionalClass],
    evaluated: &[Evaluated],
    interner: &FrozenInterner,
)
    requires
        classes@.len() == evaluated@.len(),
        forall|j: int| 0 <= j < classes@.len() ==> owned_ok(class_expr(#[trigger] classes@[j])),
    ensures
        row_views(final(rows)@) == row_views(old(rows)@) + (seq![
            RowView::header_n("Conditional classes"@, classes@.len()),
        ] + classes_rows(classes@, evaluated@, *interner, classes@.len())),
{
    broadcast use lemma_row_views_push;

    let n = classes.len();
    rows.push(Row::header_n("Conditional classes", n));
    let ghost before = row_views(rows@);
    let mut k: usize = 0;
    proof {
        assert(before + Seq::<RowView>::empty() =~= before);
    }
    while k < n
        invariant
            k <= n == classes@.len() == evaluated@.len(),
            forall|j: int| 0 <= j < n ==> owned_ok(class_expr(#[trigger] classes@[j])),
            row_views(rows@) == before + classes_rows(classes@, evaluated@, *interner, k as nat),
        decreases n - k,
    {
        push_class(rows, &classes[k], &evaluated[k], interner);
        k += 1;
        proof {
            assert(row_views(rows@) =~= before + classes_rows(
                classes@,
                evaluated@,
                *interner,
                k as nat,
            ));
        }
    }
    proof {
        assert(row_views(rows@) =~= row_views(old(rows)@) + (seq![
            RowView::header_n("Conditional classes"@, n as nat),
        ] + classes_rows(classes@, evaluated@, *interner, n as nat)));
    }
}

/// The rows of the Style tab.
pub fn style_rows(src: &InspectorSources<'_>, selected: Option<usize>) -> (rows: Vec<Row>)
    requires
        src.style_ready(selected),
    ensures
        row_views(rows@) == src.style_tab(selected),
{
    broadcast use {lemma_row_views_push, vstd::std_specs::hash::group_hash_axioms};

    let mut rows: Vec<Row> = Vec::new();
    let i = match selected {
        Some(i) => i,
        None => {
            rows.push(
                Row::empty(0, "No element selected. Pick one in Elements, or use the picker."),
            );
            proof {
                assert(row_views(rows@) =~= src.style_tab(selected));
            }
            return rows;
        },
    };
    if i >= src.dom.len() {
        rows.push(Row::empty(0, "Selection is stale — the document was replaced."));
        proof {
            assert(row_views(rows@) =~= src.style_tab(selected));
        }
        return rows;
    }
    let node = src.dom.value(i);
    let left_out = match src.truncated.get(&i) {
        Some(n) => Some(*n),
        None => None,
    };
    rows.push(Row::header("Selected"));
    rows.push(Row::item(1, node_label_segs(node, left_out)));
    let ghost first = row_views(rows@);
    proof {
        assert(first =~= seq![
            RowView::header("Selected"@),
            RowView::item(1, label_segs(*node, src.left_out(i))),
        ]);
    }
    let ghost mut want = first;
    if let Some(b) = src.boxes.get(&i) {
        push_box(&mut rows, b);
        proof {
            want = want + box_rows(*b);
            assert(row_views(rows@) =~= want);
        }
    } else {
        proof {
            assert(want + Seq::<RowView>::empty() =~= want);
        }
    }
    let tag = node.primitive.as_str();
    if let Some(rules) = src.style_rules.get(tag) {
        push_rule(&mut rows, join2("Rules · ", tag).as_str(), rules);
        proof {
            want = want + rule_rows("Rules · "@ + tag@, *rules);
        }
    } else {
        proof {
            assert(want + Seq::<RowView>::empty() =~= want);
        }
    }
    if let Some(class) = node.get("class") {
        let name = strip_leading(class, '.');
        if let Some(rules) = src.style_rules.get(name) {
            push_rule(&mut rows, join2("Rules · .", name).as_str(), rules);
            proof {
                want = want + rule_rows("Rules · ."@ + name@, *rules);
            }
        } else {
            proof {
                assert(want + Seq::<RowView>::empty() =~= want);
            }
        }
    } else {
        proof {
            assert(want + Seq::<RowView>::empty() =~= want);
        }
    }
    let n = node.conditional_classes.len();
    if n > 0 {
        push_classes(
            &mut rows,
            node.conditional_classes.as_slice(),
            src.evaluated,
            src.interner,
        );
    } else {
        proof {
            assert(want + Seq::<RowView>::empty() =~= want);
        }
    }
    rows
}

/// The names of a block of declarations are filled up to one width, so their
/// values start in one column.
pub proof fn law_declarations_line_up(ds: Seq<DeclView>, i: int, j: int)
    requires
        0 <= i < ds.len(),
        0 <= j < ds.len(),
        forall|k: int|
            0 <= k < ds.len() ==> (#[trigger] ds[k]).name.len() == byte_len(ds[k].name),
    ensures
        decl_rows(ds)[i].segs[0].text.len() == decl_rows(ds)[j].segs[0].text.len(),
        ds[i].name.is_prefix_of(decl_rows(ds)[i].segs[0].text),
{
    lemma_name_width(ds, ds.len(), i);
    lemma_name_width(ds, ds.len(), j);
}

proof fn lemma_name_width(ds: Seq<DeclView>, n: nat, i: int)
    requires
        0 <= i < n <= ds.len(),
    ensures
        byte_len(ds[i].name) <= name_width(ds, n),
    decreases n,
{
    if i < n - 1 {
        lemma_name_width(ds, (n - 1) as nat, i);
    }
}

} // verus!
