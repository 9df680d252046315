//! What holds of the rows of the Style tab.

use vstd::prelude::*;

use crate::inspector::model::elements::label_segs;
use crate::inspector::model::format::owned_text;
use crate::inspector::model::row_laws::{data, plain_row};
use crate::inspector::model::sources::{BoxMetrics, Evaluated, InspectorSources};
use crate::inspector::model::styles::{
    box_rows, class_rows, classes_rows, color_text, decl_row, decl_rows, dimension_text, name_width,
    rule_decls, rule_rows, DeclView,
};
use crate::inspector::model::types::{Flex, RowKind, RowView, Tone};
use crate::dom::ConditionalClass;
use crate::logic::{FrozenInterner, Value};
use crate::style::{MizuBackground, MizuColor, MizuDimension, StyleRules};
use crate::text::{
    byte_len, decimal, hex_byte, lowercase, padded_right, signed_decimal, without_leading,
};

verus! {

/// A colour is written as a hash sign and its channels in hexadecimal, with the
/// opacity only where it is not full.
pub proof fn law_colours_are_written_in_hex(c: MizuColor)
    ensures
        c.a == 255 ==> color_text(c) == seq!['#'] + hex_byte(c.r) + hex_byte(c.g) + hex_byte(c.b),
        c.a < 255 ==> color_text(c) == seq!['#'] + hex_byte(c.r) + hex_byte(c.g) + hex_byte(c.b)
            + hex_byte(c.a),
{
    reveal_strlit("#");
    assert("#"@ =~= seq!['#']);
    assert(seq!['#'] + hex_byte(c.r) + hex_byte(c.g) + hex_byte(c.b) + Seq::<char>::empty()
        =~= seq!['#'] + hex_byte(c.r) + hex_byte(c.g) + hex_byte(c.b));
}

/// The unit of a length, as it is written.
pub open spec fn unit(d: MizuDimension) -> Seq<char> {
    match d {
        MizuDimension::Pixels(_) => seq![],
        MizuDimension::Percent(_) => seq!['%'],
        MizuDimension::ViewportWidth(_) => seq!['v', 'w'],
        MizuDimension::ViewportHeight(_) => seq!['v', 'h'],
        MizuDimension::ViewportMin(_) => seq!['v', 'm', 'i', 'n'],
        MizuDimension::ViewportMax(_) => seq!['v', 'm', 'a', 'x'],
    }
}

/// The number of a length, as it is written.
pub open spec fn amount(d: MizuDimension) -> Seq<char> {
    match d {
        MizuDimension::Pixels(v) => v@,
        MizuDimension::Percent(v) => v@,
        MizuDimension::ViewportWidth(v) => v@,
        MizuDimension::ViewportHeight(v) => v@,
        MizuDimension::ViewportMin(v) => v@,
        MizuDimension::ViewportMax(v) => v@,
    }
}

/// A length is written as its number and its unit; pixels have none.
pub proof fn law_lengths_are_written_with_their_unit(d: MizuDimension)
    ensures
        dimension_text(d) == amount(d) + unit(d),
{
    reveal_strlit("%");
    reveal_strlit("vw");
    reveal_strlit("vh");
    reveal_strlit("vmin");
    reveal_strlit("vmax");
    assert("%"@ =~= seq!['%']);
    assert("vw"@ =~= seq!['v', 'w']);
    assert("vh"@ =~= seq!['v', 'h']);
    assert("vmin"@ =~= seq!['v', 'm', 'i', 'n']);
    assert("vmax"@ =~= seq!['v', 'm', 'a', 'x']);
    assert(amount(d) + seq![] =~= amount(d));
}

/// The declaration of a length that is set.
pub open spec fn length_decl(name: Seq<char>, d: Option<MizuDimension>) -> Seq<DeclView> {
    match d {
        Some(d) => seq![DeclView { name, value: amount(d) + unit(d), swatch: None }],
        None => seq![],
    }
}

/// The declaration of a text that is set, in small letters where it is a
/// keyword.
pub open spec fn text_decl(name: Seq<char>, s: Option<String>, keyword: bool) -> Seq<DeclView> {
    match s {
        Some(s) => seq![
            DeclView {
                name,
                value: if keyword {
                    lowercase(s@)
                } else {
                    s@
                },
                swatch: None,
            },
        ],
        None => seq![],
    }
}

/// The declaration of a colour that is set, which is also shown as a chip.
pub open spec fn colour_decl(name: Seq<char>, c: Option<MizuColor>) -> Seq<DeclView> {
    match c {
        Some(c) => seq![DeclView { name, value: color_text(c), swatch: Some(c) }],
        None => seq![],
    }
}

/// The declaration of a background: a colour, or a gradient from one colour to
/// another at an angle.
pub open spec fn fill_decl(b: Option<MizuBackground>) -> Seq<DeclView> {
    match b {
        Some(MizuBackground::Solid(c)) => colour_decl("background"@, Some(c)),
        Some(MizuBackground::LinearGradient { angle, start, end }) => seq![
            DeclView {
                name: "background"@,
                value: "linear-gradient("@ + angle@ + "deg, "@ + color_text(start) + seq![',', ' ']
                    + color_text(end) + seq![')'],
                swatch: None,
            },
        ],
        None => seq![],
    }
}

/// A rule shows every property that it sets, each under its own name and with
/// its own value, and none that it leaves alone; a place in the stack counts as
/// set where it is not the middle one.
pub proof fn law_rules_show_what_they_set(r: StyleRules)
    ensures
        rule_decls(r) == length_decl("width"@, r.width) + length_decl("height"@, r.height)
            + length_decl("padding"@, r.padding) + length_decl("margin"@, r.margin) + length_decl(
            "gap"@,
            r.gap,
        ) + text_decl("flex-direction"@, r.flex_direction, true) + text_decl(
            "justify"@,
            r.justify,
            true,
        ) + text_decl("align"@, r.align, true) + fill_decl(r.background) + text_decl(
            "background-image"@,
            r.background_image,
            false,
        ) + colour_decl("color"@, r.color) + text_decl("font-size"@, r.font_size, false)
            + text_decl("border-radius"@, r.border_radius, false) + text_decl(
            "border-width"@,
            r.border_width,
            false,
        ) + colour_decl("border-color"@, r.border_color) + (if r.z_index == 0 {
            seq![]
        } else {
            seq![
                DeclView {
                    name: "z-index"@,
                    value: signed_decimal(r.z_index as int),
                    swatch: None,
                },
            ]
        }),
{
    lemma_length("width"@, r.width);
    lemma_length("height"@, r.height);
    lemma_length("padding"@, r.padding);
    lemma_length("margin"@, r.margin);
    lemma_length("gap"@, r.gap);
    reveal_strlit(", ");
    reveal_strlit(")");
    assert(", "@ =~= seq![',', ' ']);
    assert(")"@ =~= seq![')']);
}

proof fn lemma_length(name: Seq<char>, d: Option<MizuDimension>)
    ensures
        crate::inspector::model::styles::opt_decl(
            name,
            crate::inspector::model::styles::opt_dimension(d),
        ) == length_decl(name, d),
{
    if d is Some {
        law_lengths_are_written_with_their_unit(d->0);
    }
}

/// A declaration's row shows its name and its value, with a chip where the value
/// is a colour, and the whole value when it is clicked if it is long.
pub proof fn law_declarations_show_their_value(d: DeclView, width: nat)
    ensures
        ({
            let r = decl_row(d, width);
            &&& plain_row(r, RowKind::Item, 1)
            &&& r.segs.len() == 2
            &&& data(r.segs[0], padded_right(d.name, width), Tone::Key, Flex::Fixed)
            &&& r.segs[1].text == d.value && r.segs[1].tone == Tone::Value && r.segs[1].flex
                == Flex::Elide
            &&& d.swatch is None ==> r.segs[1].swatch is None
            &&& d.swatch matches Some(c) ==> r.segs[1].swatch == Some((c.r, c.g, c.b, c.a))
            &&& d.value.len() > 28 ==> r.inspect == Some((d.name, d.value))
            &&& d.value.len() <= 28 ==> r.inspect is None
        }),
{
}

proof fn lemma_name_width(ds: Seq<DeclView>, n: nat)
    requires
        n <= ds.len(),
    ensures
        forall|i: int| 0 <= i < n ==> byte_len((#[trigger] ds[i]).name) <= name_width(ds, n),
        n > 0 ==> exists|i: int|
            0 <= i < n && byte_len((#[trigger] ds[i]).name) == name_width(ds, n),
    decreases n,
{
    if n > 0 {
        lemma_name_width(ds, (n - 1) as nat);
        let w = name_width(ds, (n - 1) as nat);
        if w >= byte_len(ds[n - 1].name) {
            if n > 1 {
                let i = choose|i: int| 0 <= i < n - 1 && byte_len((#[trigger] ds[i]).name) == w;
                assert(byte_len(ds[i].name) == name_width(ds, n));
            } else {
                assert(byte_len(ds[0].name) == name_width(ds, n));
            }
        } else {
            assert(byte_len(ds[n - 1].name) == name_width(ds, n));
        }
    }
}

/// Declarations have one row each in their order, in a column as wide as the
/// longest name.
pub proof fn law_declarations_keep_their_order(ds: Seq<DeclView>) -> (width: nat)
    ensures
        decl_rows(ds).len() == ds.len(),
        forall|i: int| 0 <= i < ds.len() ==> #[trigger] decl_rows(ds)[i] == decl_row(ds[i], width),
        forall|i: int| 0 <= i < ds.len() ==> byte_len((#[trigger] ds[i]).name) <= width,
        ds.len() > 0 ==> exists|i: int|
            0 <= i < ds.len() && byte_len((#[trigger] ds[i]).name) == width,
{
    lemma_name_width(ds, ds.len());
    name_width(ds, ds.len())
}

/// The box of an element is shown as its size and its offset.
pub proof fn law_boxes_show_size_and_offset(b: BoxMetrics)
    ensures
        ({
            let r = box_rows(b);
            &&& r.len() == 3
            &&& plain_row(r[0], RowKind::Header, 0) && r[0].segs[0].text == "Box"@
            &&& r[1].segs[0].text.take(4) == seq!['s', 'i', 'z', 'e']
            &&& r[1].segs[1].text == b.width@ + seq![' ', '×', ' '] + b.height@
            &&& r[2].segs[0].text == seq!['o', 'f', 'f', 's', 'e', 't']
            &&& r[2].segs[1].text == b.x@ + seq![',', ' '] + b.y@
        }),
{
    reveal_strlit("size");
    reveal_strlit("offset");
    reveal_strlit(" × ");
    reveal_strlit(", ");
    assert("size"@ =~= seq!['s', 'i', 'z', 'e']);
    assert("offset"@ =~= seq!['o', 'f', 'f', 's', 'e', 't']);
    assert(" × "@ =~= seq![' ', '×', ' ']);
    assert(", "@ =~= seq![',', ' ']);
    let ds = seq![
        DeclView { name: "size"@, value: b.width@ + " × "@ + b.height@, swatch: None },
        DeclView { name: "offset"@, value: b.x@ + ", "@ + b.y@, swatch: None },
    ];
    let r = box_rows(b);
    assert(r[1] == decl_rows(ds)[0]);
    assert(r[2] == decl_rows(ds)[1]);
    let size = "size"@;
    let offset = "offset"@;
    reveal_with_fuel(byte_len, 8);
    assert(byte_len(size) == 4) by {
        assert(size.drop_last() =~= seq!['s', 'i', 'z']);
        assert(seq!['s', 'i', 'z'].drop_last() =~= seq!['s', 'i']);
        assert(seq!['s', 'i'].drop_last() =~= seq!['s']);
        assert(seq!['s'].drop_last() =~= Seq::<char>::empty());
    }
    assert(byte_len(offset) == 6) by {
        assert(offset.drop_last() =~= seq!['o', 'f', 'f', 's', 'e']);
        assert(seq!['o', 'f', 'f', 's', 'e'].drop_last() =~= seq!['o', 'f', 'f', 's']);
        assert(seq!['o', 'f', 'f', 's'].drop_last() =~= seq!['o', 'f', 'f']);
        assert(seq!['o', 'f', 'f'].drop_last() =~= seq!['o', 'f']);
        assert(seq!['o', 'f'].drop_last() =~= seq!['o']);
        assert(seq!['o'].drop_last() =~= Seq::<char>::empty());
    }
    assert(name_width(ds, 0) == 0);
    assert(name_width(ds, 1) == 4);
    assert(name_width(ds, 2) == 6);
    assert(r[1].segs[0].text == padded_right(size, 6));
    assert(r[1].segs[0].text.take(4) =~= size);
}

/// A rule is shown under its title with the number of what it sets.
pub proof fn law_rules_are_counted(title: Seq<char>, r: StyleRules)
    ensures
        ({
            let rows = rule_rows(title, r);
            &&& rows.len() == 1 + rule_decls(r).len()
            &&& plain_row(rows[0], RowKind::Header, 0)
            &&& rows[0].segs[0].text == title
            &&& rows[0].segs[1].text == decimal(rule_decls(r).len())
            &&& rows.skip(1) == decl_rows(rule_decls(r))
        }),
{
    assert(rule_rows(title, r).skip(1) =~= decl_rows(rule_decls(r)));
}

/// Whether the second row of a conditional class shows its expression, whole
/// when it is clicked if it is long.
pub open spec fn shows_expression(
    r: RowView,
    sign: Seq<char>,
    title: Seq<char>,
    text: Seq<char>,
) -> bool {
    &&& plain_row(r, RowKind::Detail, 2)
    &&& r.segs.len() == 2
    &&& data(r.segs[0], sign, Tone::Key, Flex::Fixed)
    &&& data(r.segs[1], text, Tone::Muted, Flex::Elide)
    &&& text.len() > 28 ==> r.inspect == Some((title, text))
    &&& text.len() <= 28 ==> r.inspect is None
}

/// A class that is switched on and off says which it is: on where its condition
/// is true, off where it is anything else, and an error where it has no value.
/// A class that is chosen says which it is, or that what chose it gave none.
pub proof fn law_conditional_classes_say_what_they_are(
    c: ConditionalClass,
    e: Evaluated,
    names: FrozenInterner,
)
    ensures
        match c {
            ConditionalClass::Toggle { class_name, condition } => {
                let r = class_rows(c, e, names);
                let (word, tone) = match e {
                    Evaluated::Value(Value::Bool(true)) => (seq!['o', 'n'], Tone::Good),
                    Evaluated::Value(_) => (seq!['o', 'f', 'f'], Tone::Muted),
                    Evaluated::Failed => (seq!['e', 'r', 'r'], Tone::Bad),
                };
                &&& r.len() == 2
                &&& plain_row(r[0], RowKind::Item, 1) && r[0].segs.len() == 2
                &&& data(r[0].segs[0], padded_right(word, 3), tone, Flex::Fixed)
                &&& data(r[0].segs[1], seq!['.'] + class_name@, Tone::Value, Flex::Fixed)
                &&& shows_expression(
                    r[1],
                    seq!['i', 'f'],
                    "Condition"@,
                    owned_text(condition, names),
                )
            },
            ConditionalClass::Ternary { expr } => {
                let r = class_rows(c, e, names);
                let (word, tone) = match e {
                    Evaluated::Value(Value::String(s)) => (seq!['.'] + s@, Tone::Good),
                    Evaluated::Value(_) => ("<non-string result>"@, Tone::Bad),
                    Evaluated::Failed => ("<error>"@, Tone::Bad),
                };
                &&& r.len() == 2
                &&& plain_row(r[0], RowKind::Item, 1) && r[0].segs.len() == 3
                &&& data(r[0].segs[1], word, tone, Flex::Fixed)
                &&& r[0].segs[2].text == "ternary"@ && r[0].segs[2].flex == Flex::Trailing
                &&& shows_expression(r[1], seq!['='], "Expression"@, owned_text(expr, names))
            },
        },
{
    reveal_strlit("on");
    reveal_strlit("off");
    reveal_strlit("err");
    reveal_strlit(".");
    reveal_strlit("if");
    reveal_strlit("=");
    assert("on"@ =~= seq!['o', 'n']);
    assert("off"@ =~= seq!['o', 'f', 'f']);
    assert("err"@ =~= seq!['e', 'r', 'r']);
    assert("."@ =~= seq!['.']);
    assert("if"@ =~= seq!['i', 'f']);
    assert("="@ =~= seq!['=']);
}

proof fn lemma_classes(
    cs: Seq<ConditionalClass>,
    es: Seq<Evaluated>,
    names: FrozenInterner,
    n: nat,
    k: int,
)
    requires
        0 <= k < n <= cs.len(),
    ensures
        classes_rows(cs, es, names, n).len() == 2 * n,
        classes_rows(cs, es, names, n).subrange(2 * k, 2 * k + 2) == class_rows(
            cs[k],
            es[k],
            names,
        ),
    decreases n,
{
    let all = classes_rows(cs, es, names, n);
    let init = classes_rows(cs, es, names, (n - 1) as nat);
    if n > 1 {
        lemma_classes(cs, es, names, (n - 1) as nat, if k < n - 1 {
            k
        } else {
            0
        });
    }
    assert(class_rows(cs[n - 1], es[n - 1], names).len() == 2);
    if k < n - 1 {
        assert(all.subrange(2 * k, 2 * k + 2) =~= init.subrange(2 * k, 2 * k + 2));
    } else {
        assert(all.subrange(2 * k, 2 * k + 2) =~= class_rows(cs[k], es[k], names));
    }
}

proof fn lemma_five_parts(
    p1: Seq<RowView>,
    p2: Seq<RowView>,
    p3: Seq<RowView>,
    p4: Seq<RowView>,
    p5: Seq<RowView>,
)
    ensures
        ({
            let rows = p1 + p2 + p3 + p4 + p5;
            let n = p1.len() as int;
            let a = n + p2.len();
            let b = a + p3.len();
            let c = b + p4.len();
            &&& rows.len() == c + p5.len()
            &&& rows.take(n) == p1
            &&& rows.subrange(n, a) == p2
            &&& rows.subrange(a, b) == p3
            &&& rows.subrange(b, c) == p4
            &&& rows.skip(c) == p5
        }),
{
    let rows = p1 + p2 + p3 + p4 + p5;
    let n = p1.len() as int;
    let a = n + p2.len();
    let b = a + p3.len();
    let c = b + p4.len();
    assert(rows.take(n) =~= p1);
    assert(rows.subrange(n, a) =~= p2);
    assert(rows.subrange(a, b) =~= p3);
    assert(rows.subrange(b, c) =~= p4);
    assert(rows.skip(c) =~= p5);
}

/// The class of an element without leading dots.
pub open spec fn class_of(src: InspectorSources<'_>, i: usize) -> Option<Seq<char>> {
    match src.dom.links()[i as int].value.attr("class"@) {
        Some(c) => Some(without_leading(c, '.')),
        None => None,
    }
}

/// The rows of the selected element up to its rules: its label, and its box
/// where it was laid out.
pub open spec fn head_len(src: InspectorSources<'_>, i: usize) -> int {
    if src.boxes@.contains_key(i) {
        5
    } else {
        2
    }
}

/// The selected element is shown with its label and its box, with the rule of
/// its tag and that of its class where the style sheet has them, and with every
/// conditional class in its order and with its own value.
#[verifier::rlimit(60)]
pub proof fn law_the_selected_element_is_described(src: InspectorSources<'_>, i: usize, k: int)
    requires
        i < src.dom.links().len(),
    ensures
        ({
            let node = src.dom.links()[i as int].value;
            let rows = src.style_tab(Some(i));
            let a = head_len(src, i);
            let tag = node.primitive.tag();
            let by_tag = src.style_rules@.contains_key(tag);
            let class = class_of(src, i);
            let by_class = class is Some && src.style_rules@.contains_key(class->0);
            let b = a + (if by_tag {
                1 + rule_decls(src.style_rules@[tag]).len()
            } else {
                0
            });
            let c = b + (if by_class {
                1 + rule_decls(src.style_rules@[class->0]).len()
            } else {
                0
            });
            let cs = node.conditional_classes@;
            &&& rows[0].segs[0].text == "Selected"@ && rows[0].kind == RowKind::Header
            &&& rows[1].segs == label_segs(
                node,
                if src.truncated@.contains_key(i) {
                    Some(src.truncated@[i])
                } else {
                    None
                },
            )
            &&& src.boxes@.contains_key(i) ==> rows.subrange(2, 5) == box_rows(src.boxes@[i])
            &&& by_tag ==> rows.subrange(a, b) == rule_rows(
                "Rules · "@ + tag,
                src.style_rules@[tag],
            )
            &&& by_class ==> rows.subrange(b, c) == rule_rows(
                "Rules · ."@ + class->0,
                src.style_rules@[class->0],
            )
            &&& cs.len() == 0 ==> rows.len() == c
            &&& cs.len() > 0 ==> rows.len() == c + 1 + 2 * cs.len() && rows[c].segs[0].text
                == "Conditional classes"@ && rows[c].segs[1].text == decimal(cs.len())
            &&& 0 <= k < cs.len() ==> rows.subrange(c + 1 + 2 * k, c + 3 + 2 * k) == class_rows(
                cs[k],
                src.evaluated@[k],
                *src.interner,
            )
        }),
{
    let node = src.dom.links()[i as int].value;
    let rows = src.style_tab(Some(i));
    let tag = node.primitive.tag();
    let class = class_of(src, i);
    let cs = node.conditional_classes@;
    let p1 = seq![
        RowView::header("Selected"@),
        RowView::item(1, label_segs(node, src.left_out(i))),
    ];
    let p2 = if src.boxes@.contains_key(i) {
        box_rows(src.boxes@[i])
    } else {
        Seq::empty()
    };
    let p3 = if src.style_rules@.contains_key(tag) {
        rule_rows("Rules · "@ + tag, src.style_rules@[tag])
    } else {
        Seq::empty()
    };
    let by_class = class is Some && src.style_rules@.contains_key(class->0);
    let p4 = if by_class {
        rule_rows("Rules · ."@ + class->0, src.style_rules@[class->0])
    } else {
        Seq::empty()
    };
    let list = classes_rows(cs, src.evaluated@, *src.interner, cs.len());
    let p5 = if cs.len() > 0 {
        seq![RowView::header_n("Conditional classes"@, cs.len())] + list
    } else {
        Seq::empty()
    };
    assert(rows == p1 + p2 + p3 + p4 + p5);
    lemma_five_parts(p1, p2, p3, p4, p5);
    let a = (p1.len() + p2.len()) as int;
    let b = a + p3.len();
    let c = b + p4.len();
    assert(a == head_len(src, i));
    assert(rows[0] == rows.take(2)[0] && rows[1] == rows.take(2)[1]);
    if cs.len() > 0 {
        assert(rows[c] == rows.skip(c)[0]);
        lemma_classes(cs, src.evaluated@, *src.interner, cs.len(), if 0 <= k < cs.len() {
            k
        } else {
            0
        });
        if 0 <= k < cs.len() {
            lemma_deep_part(rows, list, c, k);
        }
    }
}

proof fn lemma_deep_part(rows: Seq<RowView>, list: Seq<RowView>, c: int, k: int)
    requires
        0 <= c,
        0 <= k,
        2 * k + 2 <= list.len(),
        rows.len() == c + 1 + list.len(),
        rows.skip(c).len() > 0,
        rows.skip(c) == seq![rows.skip(c)[0]] + list,
    ensures
        rows.subrange(c + 1 + 2 * k, c + 3 + 2 * k) == list.subrange(2 * k, 2 * k + 2),
{
    let tail = rows.skip(c);
    assert forall|j: int| 0 <= j < 2 implies #[trigger] rows[c + 1 + 2 * k + j] == list[2 * k + j] by {
        assert(tail[1 + 2 * k + j] == rows[c + 1 + 2 * k + j]);
    }
    assert(rows.subrange(c + 1 + 2 * k, c + 3 + 2 * k) =~= list.subrange(2 * k, 2 * k + 2)) by {
        assert(rows[c + 1 + 2 * k + 0] == list[2 * k + 0]);
        assert(rows[c + 1 + 2 * k + 1] == list[2 * k + 1]);
    }
}

/// Without a selected element, or with one that the document no longer has, the
/// tab holds one note that says so.
pub proof fn law_without_a_selection_there_is_a_note(src: InspectorSources<'_>, i: usize)
    requires
        i >= src.dom.links().len(),
    ensures
        src.style_tab(None).len() == 1 && plain_row(src.style_tab(None)[0], RowKind::Empty, 0)
            && src.style_tab(None)[0].segs[0].text
            == "No element selected. Pick one in Elements, or use the picker."@,
        src.style_tab(Some(i)).len() == 1 && plain_row(
            src.style_tab(Some(i))[0],
            RowKind::Empty,
            0,
        ) && src.style_tab(Some(i))[0].segs[0].text
            == "Selection is stale — the document was replaced."@,
{
}

} // verus!
