//! What a row of the inspector is made of.
//!
//! A row is a list of typed segments, not a finished string: the paint pass
//! decides against the real width which segment gives way, and how.

use vstd::prelude::*;

use crate::px::PX;
use crate::style::MizuColor;
use crate::text::{decimal, decimal_of, joined};

verus! {

/// Height of a primary row.
pub const ROW_HEIGHT: i64 = 21 * PX;

/// Height of a row that continues the one above it.
pub const DETAIL_ROW_HEIGHT: i64 = 19 * PX;

/// Height of a section header.
pub const HEADER_ROW_HEIGHT: i64 = 30 * PX;

/// Longest text that needs no way to show it in full.
pub const INSPECTABLE_MIN_CHARS: usize = 28;

/// Semantic colour of a segment.
#[derive(Debug, Clone, Copy, PartialEq, Eq, Structural)]
pub enum Tone {
    /// Names, labels, punctuation.
    Key,
    /// Values, targets, expressions.
    Value,
    /// Supporting detail.
    Muted,
    /// Live or selected.
    Accent,
    /// A good outcome.
    Good,
    /// A bad outcome.
    Bad,
}

/// Type face of a segment.
#[derive(Debug, Clone, Copy, PartialEq, Eq, Hash, Structural)]
pub enum Face {
    /// UI sans, for labels and prose.
    Ui,
    /// UI sans, semibold, for headers.
    UiStrong,
    /// Monospace, for data.
    Mono,
}

/// What a segment does where the row is too narrow.
#[derive(Debug, Clone, Copy, PartialEq, Eq, Structural)]
pub enum Flex {
    /// Keeps its width.
    Fixed,
    /// Shares the room left over and loses its end.
    Elide,
    /// Shares the room left over and loses its middle.
    ElideMiddle,
    /// Stands at the row's right edge, or not at all.
    Trailing,
}

/// One run of text in a row.
#[derive(Debug, Clone)]
pub struct Seg {
    /// The full text.
    pub text: String,
    /// Its colour.
    pub tone: Tone,
    /// Its type face.
    pub face: Face,
    /// What it does in a narrow row.
    pub flex: Flex,
    /// Colour chip shown before the text.
    pub swatch: Option<(u8, u8, u8, u8)>,
}

/// What a [`Seg`] is.
#[verifier::ext_equal]
pub struct SegView {
    pub text: Seq<char>,
    pub tone: Tone,
    pub face: Face,
    pub flex: Flex,
    pub swatch: Option<(u8, u8, u8, u8)>,
}

impl View for Seg {
    type V = SegView;

    open spec fn view(&self) -> SegView {
        SegView {
            text: self.text@,
            tone: self.tone,
            face: self.face,
            flex: self.flex,
            swatch: self.swatch,
        }
    }
}

impl SegView {
    /// Data, at its natural width.
    pub open spec fn mono(text: Seq<char>, tone: Tone) -> SegView {
        SegView { text, tone, face: Face::Mono, flex: Flex::Fixed, swatch: None }
    }

    /// A label, at its natural width.
    pub open spec fn ui(text: Seq<char>, tone: Tone) -> SegView {
        SegView { face: Face::Ui, ..SegView::mono(text, tone) }
    }

    /// A header, at its natural width.
    pub open spec fn strong(text: Seq<char>, tone: Tone) -> SegView {
        SegView { face: Face::UiStrong, ..SegView::mono(text, tone) }
    }

    pub open spec fn elide(self) -> SegView {
        SegView { flex: Flex::Elide, ..self }
    }

    pub open spec fn middle(self) -> SegView {
        SegView { flex: Flex::ElideMiddle, ..self }
    }

    pub open spec fn trail(self) -> SegView {
        SegView { flex: Flex::Trailing, ..self }
    }

    pub open spec fn chip(self, c: MizuColor) -> SegView {
        SegView { swatch: Some((c.r, c.g, c.b, c.a)), ..self }
    }
}

impl Seg {
    /// A segment of data.
    pub fn mono(text: &str, tone: Tone) -> (s: Seg)
        ensures
            s@ == SegView::mono(text@, tone),
    {
        Seg { text: text.to_owned(), tone, face: Face::Mono, flex: Flex::Fixed, swatch: None }
    }

    /// A label.
    pub fn ui(text: &str, tone: Tone) -> (s: Seg)
        ensures
            s@ == SegView::ui(text@, tone),
    {
        Seg { text: text.to_owned(), tone, face: Face::Ui, flex: Flex::Fixed, swatch: None }
    }

    /// A section header.
    pub fn strong(text: &str, tone: Tone) -> (s: Seg)
        ensures
            s@ == SegView::strong(text@, tone),
    {
        Seg { text: text.to_owned(), tone, face: Face::UiStrong, flex: Flex::Fixed, swatch: None }
    }

    /// Lets the segment shrink from its end.
    pub fn elide(self) -> (s: Seg)
        ensures
            s@ == self@.elide(),
    {
        Seg { flex: Flex::Elide, ..self }
    }

    /// Lets the segment shrink in its middle.
    pub fn middle(self) -> (s: Seg)
        ensures
            s@ == self@.middle(),
    {
        Seg { flex: Flex::ElideMiddle, ..self }
    }

    /// Puts the segment at the row's right edge.
    pub fn trail(self) -> (s: Seg)
        ensures
            s@ == self@.trail(),
    {
        Seg { flex: Flex::Trailing, ..self }
    }

    /// Shows a colour chip before the text.
    pub fn swatch(self, c: &MizuColor) -> (s: Seg)
        ensures
            s@ == self@.chip(*c),
    {
        Seg { swatch: Some((c.r, c.g, c.b, c.a)), ..self }
    }
}

/// What a row is for.
#[derive(Debug, Clone, Copy, PartialEq, Eq, Structural)]
pub enum RowKind {
    /// A section header.
    Header,
    /// A primary entry.
    Item,
    /// A line that belongs to the entry above.
    Detail,
    /// A note that there is nothing.
    Empty,
}

/// The full text behind a row that may be shown shortened.
#[derive(Debug, Clone)]
pub struct InspectValue {
    /// Short label of the text.
    pub title: String,
    /// The complete text.
    pub text: String,
}

/// One row of the inspector.
#[derive(Debug, Clone)]
pub struct Row {
    /// What the row is for.
    pub kind: RowKind,
    /// Indentation level.
    pub indent: u8,
    /// Its content in reading order.
    pub segs: Vec<Seg>,
    /// The document node it stands for, by its index.
    pub node: Option<usize>,
    /// Whether it has children to show or hide.
    pub expandable: bool,
    /// Whether they are shown.
    pub expanded: bool,
    /// Its full value, where that may be shown shortened.
    pub inspect: Option<InspectValue>,
}

/// What a [`Row`] is.
#[verifier::ext_equal]
pub struct RowView {
    pub kind: RowKind,
    pub indent: u8,
    pub segs: Seq<SegView>,
    pub node: Option<usize>,
    pub expandable: bool,
    pub expanded: bool,
    pub inspect: Option<(Seq<char>, Seq<char>)>,
}

/// The segments seen as plain values.
pub open spec fn seg_views(segs: Seq<Seg>) -> Seq<SegView> {
    segs.map_values(|s: Seg| s@)
}

/// The rows seen as plain values.
pub open spec fn row_views(rows: Seq<Row>) -> Seq<RowView> {
    rows.map_values(|r: Row| r@)
}

impl View for Row {
    type V = RowView;

    open spec fn view(&self) -> RowView {
        RowView {
            kind: self.kind,
            indent: self.indent,
            segs: seg_views(self.segs@),
            node: self.node,
            expandable: self.expandable,
            expanded: self.expanded,
            inspect: match self.inspect {
                Some(v) => Some((v.title@, v.text@)),
                None => None,
            },
        }
    }
}

/// Height of a row of the given kind.
pub open spec fn kind_height(kind: RowKind) -> int {
    match kind {
        RowKind::Header => HEADER_ROW_HEIGHT as int,
        RowKind::Detail => DETAIL_ROW_HEIGHT as int,
        RowKind::Item | RowKind::Empty => ROW_HEIGHT as int,
    }
}

impl RowView {
    /// A row of `kind` that stands for no node.
    pub open spec fn plain(kind: RowKind, indent: u8, segs: Seq<SegView>) -> RowView {
        RowView { kind, indent, segs, node: None, expandable: false, expanded: false, inspect: None }
    }

    pub open spec fn header(title: Seq<char>) -> RowView {
        RowView::plain(RowKind::Header, 0, seq![SegView::strong(title, Tone::Accent)])
    }

    pub open spec fn header_n(title: Seq<char>, n: nat) -> RowView {
        RowView::plain(
            RowKind::Header,
            0,
            seq![
                SegView::strong(title, Tone::Accent),
                SegView::mono(decimal(n), Tone::Muted).trail(),
            ],
        )
    }

    pub open spec fn item(indent: u8, segs: Seq<SegView>) -> RowView {
        RowView::plain(RowKind::Item, indent, segs)
    }

    pub open spec fn detail(indent: u8, segs: Seq<SegView>) -> RowView {
        RowView::plain(RowKind::Detail, indent, segs)
    }

    pub open spec fn empty(indent: u8, text: Seq<char>) -> RowView {
        RowView::plain(RowKind::Empty, indent, seq![SegView::ui(text, Tone::Muted)])
    }

    /// The row with its full value attached, where that is long.
    pub open spec fn maybe_inspect(self, title: Seq<char>, text: Seq<char>) -> RowView {
        if text.len() > INSPECTABLE_MIN_CHARS {
            RowView { inspect: Some((title, text)), ..self }
        } else {
            self
        }
    }

    /// The row's text with a space between segments.
    pub open spec fn plain_text(self) -> Seq<char> {
        joined(self.segs.map_values(|s: SegView| s.text), " "@)
    }
}

/// Adding a segment adds its view.
pub broadcast proof fn lemma_seg_views_push(segs: Seq<Seg>, s: Seg)
    ensures
        #[trigger] seg_views(segs.push(s)) == seg_views(segs).push(s@),
{
    assert(seg_views(segs.push(s)) =~= seg_views(segs).push(s@));
}

/// Adding a row adds its view.
pub broadcast proof fn lemma_row_views_push(rows: Seq<Row>, r: Row)
    ensures
        #[trigger] row_views(rows.push(r)) == row_views(rows).push(r@),
{
    assert(row_views(rows.push(r)) =~= row_views(rows).push(r@));
}

impl Row {
    /// Height of the row.
    pub fn height(&self) -> (h: i64)
        ensures
            h == kind_height(self@.kind),
            0 < h <= HEADER_ROW_HEIGHT,
    {
        match self.kind {
            RowKind::Header => HEADER_ROW_HEIGHT,
            RowKind::Detail => DETAIL_ROW_HEIGHT,
            RowKind::Item | RowKind::Empty => ROW_HEIGHT,
        }
    }

    /// Whether a click on the row can change the selection.
    pub fn selectable(&self) -> (r: bool)
        ensures
            r == (self@.node is Some),
    {
        self.node.is_some()
    }

    /// The row's text with a space between segments.
    pub fn plain_text(&self) -> (t: String)
        ensures
            t@ == self@.plain_text(),
    {
        join_segs(&self.segs)
    }

    /// Attaches the full value `text` where it is long.
    pub fn maybe_inspect(self, title: &str, text: &str) -> (r: Row)
        ensures
            r@ == self@.maybe_inspect(title@, text@),
    {
        if text.unicode_len() > INSPECTABLE_MIN_CHARS {
            Row {
                inspect: Some(InspectValue { title: title.to_owned(), text: text.to_owned() }),
                ..self
            }
        } else {
            self
        }
    }

    /// A row of `kind` that stands for no node.
    fn plain(kind: RowKind, indent: u8, segs: Vec<Seg>) -> (r: Row)
        ensures
            r@ == RowView::plain(kind, indent, seg_views(segs@)),
    {
        Row { kind, indent, segs, node: None, expandable: false, expanded: false, inspect: None }
    }

    /// A section header.
    pub fn header(title: &str) -> (r: Row)
        ensures
            r@ == RowView::header(title@),
    {
        let mut segs: Vec<Seg> = Vec::new();
        segs.push(Seg::strong(title, Tone::Accent));
        let r = Row::plain(RowKind::Header, 0, segs);
        proof {
            assert(r@.segs =~= RowView::header(title@).segs);
        }
        r
    }

    /// A section header with a count at its right edge.
    pub fn header_n(title: &str, n: usize) -> (r: Row)
        ensures
            r@ == RowView::header_n(title@, n as nat),
    {
        let mut segs: Vec<Seg> = Vec::new();
        segs.push(Seg::strong(title, Tone::Accent));
        let count = decimal_of(n as u64);
        segs.push(Seg::mono(count.as_str(), Tone::Muted).trail());
        let r = Row::plain(RowKind::Header, 0, segs);
        proof {
            assert(r@.segs =~= RowView::header_n(title@, n as nat).segs);
        }
        r
    }

    /// A primary row.
    pub fn item(indent: u8, segs: Vec<Seg>) -> (r: Row)
        ensures
            r@ == RowView::item(indent, seg_views(segs@)),
    {
        Row::plain(RowKind::Item, indent, segs)
    }

    /// A row that continues the one above it.
    pub fn detail(indent: u8, segs: Vec<Seg>) -> (r: Row)
        ensures
            r@ == RowView::detail(indent, seg_views(segs@)),
    {
        Row::plain(RowKind::Detail, indent, segs)
    }

    /// A note that there is nothing to show.
    pub fn empty(indent: u8, text: &str) -> (r: Row)
        ensures
            r@ == RowView::empty(indent, text@),
    {
        let mut segs: Vec<Seg> = Vec::new();
        segs.push(Seg::ui(text, Tone::Muted));
        let r = Row::plain(RowKind::Empty, indent, segs);
        proof {
            assert(r@.segs =~= RowView::empty(indent, text@).segs);
        }
        r
    }
}

/// The texts of the segments with a space between each two.
pub fn join_segs(segs: &Vec<Seg>) -> (t: String)
    ensures
        t@ == joined(seg_views(segs@).map_values(|s: SegView| s.text), " "@),
{
    let ghost texts = seg_views(segs@).map_values(|s: SegView| s.text);
    let mut t = String::new();
    let mut i: usize = 0;
    while i < segs.len()
        invariant
            i <= segs@.len(),
            texts == seg_views(segs@).map_values(|s: SegView| s.text),
            t@ == joined(texts.take(i as int), " "@),
        decreases segs@.len() - i,
    {
        proof {
            assert(texts.take(i + 1).drop_last() =~= texts.take(i as int));
            if i == 0 {
                assert(texts.take(0) =~= Seq::<Seq<char>>::empty());
                assert(t@ + segs@[0].text@ =~= segs@[0].text@);
            }
        }
        if i > 0 {
            t.append(" ");
        }
        t.append(segs[i].text.as_str());
        i += 1;
    }
    proof {
        assert(texts.take(texts.len() as int) =~= texts);
    }
    t
}

} // verus!
