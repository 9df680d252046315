//! What holds of rows, of sections, and of lists that are sorted by name.

use vstd::prelude::*;

use crate::inspector::model::logic_tab::{named_entries, rows_for, section, sorted_ids, widest};
use crate::inspector::model::types::{kind_height, Face, Flex, RowKind, RowView, SegView, Tone};
use crate::logic::{FrozenInterner, Symbol};
use crate::order::{before, in_order, law_sorting_orders_the_names, name_order};
use crate::px::PX;
use crate::style::MizuColor;
use crate::text::{byte_len, decimal, joined};

verus! {

/// Whether a segment has this text in this tone, set in the type face of data.
pub open spec fn data(s: SegView, text: Seq<char>, tone: Tone, flex: Flex) -> bool {
    s.text == text && s.tone == tone && s.face == Face::Mono && s.flex == flex && s.swatch is None
}

/// Whether a row is of this kind at this level, and neither opens nor stands for
/// a node.
pub open spec fn plain_row(r: RowView, kind: RowKind, indent: u8) -> bool {
    r.kind == kind && r.indent == indent && r.node is None && !r.expandable && !r.expanded
}

/// A short text is not shown again when it is clicked, a longer one is, whole
/// and under its title; nothing else of the row changes.
pub proof fn law_long_values_can_be_inspected(r: RowView, title: Seq<char>, text: Seq<char>)
    ensures
        text.len() > 28 ==> r.maybe_inspect(title, text).inspect == Some((title, text)),
        text.len() <= 28 ==> r.maybe_inspect(title, text).inspect == r.inspect,
        r.maybe_inspect(title, text).segs == r.segs,
        r.maybe_inspect(title, text).kind == r.kind,
        r.maybe_inspect(title, text).indent == r.indent,
        r.maybe_inspect(title, text).node == r.node,
        r.maybe_inspect(title, text).expandable == r.expandable,
        r.maybe_inspect(title, text).expanded == r.expanded,
{
}

/// What a segment does in a narrow row, and its chip, change nothing of its
/// text.
pub proof fn law_segments_keep_their_text(s: SegView, text: Seq<char>, tone: Tone, c: MizuColor)
    ensures
        data(SegView::mono(text, tone), text, tone, Flex::Fixed),
        SegView::ui(text, tone).face == Face::Ui && SegView::ui(text, tone).text == text
            && SegView::ui(text, tone).tone == tone,
        SegView::strong(text, tone).face == Face::UiStrong && SegView::strong(text, tone).text
            == text && SegView::strong(text, tone).tone == tone,
        s.elide().flex == Flex::Elide && s.elide().text == s.text && s.elide().tone == s.tone,
        s.middle().flex == Flex::ElideMiddle && s.middle().text == s.text && s.middle().tone
            == s.tone,
        s.trail().flex == Flex::Trailing && s.trail().text == s.text && s.trail().tone == s.tone,
        s.chip(c).swatch == Some((c.r, c.g, c.b, c.a)) && s.chip(c).text == s.text,
{
}

/// Headers are taller than entries, and entries taller than their details.
pub proof fn law_row_heights()
    ensures
        kind_height(RowKind::Header) == 30 * PX,
        kind_height(RowKind::Item) == 21 * PX,
        kind_height(RowKind::Empty) == 21 * PX,
        kind_height(RowKind::Detail) == 19 * PX,
{
}

/// What is copied of a row is the text of its segments with one space between
/// each two.
pub proof fn law_rows_are_copied_in_reading_order(r: RowView)
    ensures
        r.segs.len() == 0 ==> r.plain_text() == Seq::<char>::empty(),
        r.segs.len() == 1 ==> r.plain_text() == r.segs[0].text,
        r.segs.len() > 1 ==> r.plain_text() == (RowView {
            segs: r.segs.drop_last(),
            ..r
        }).plain_text() + seq![' '] + r.segs.last().text,
{
    reveal_strlit(" ");
    assert(" "@ =~= seq![' ']);
    let texts = r.segs.map_values(|s: SegView| s.text);
    if r.segs.len() > 1 {
        let init = (RowView { segs: r.segs.drop_last(), ..r });
        assert(init.segs.map_values(|s: SegView| s.text) =~= texts.drop_last());
        assert(joined(texts, " "@) == joined(texts.drop_last(), " "@) + " "@ + texts.last());
    }
}

/// A section has its title and how much is in it, and where that is nothing a
/// note that says so.
pub proof fn law_sections_are_counted(title: Seq<char>, n: nat, note: Seq<char>)
    ensures
        ({
            let rows = section(title, n, note);
            &&& rows.len() == if n == 0 {
                2nat
            } else {
                1
            }
            &&& plain_row(rows[0], RowKind::Header, 0)
            &&& rows[0].segs.len() == 2
            &&& rows[0].segs[0].text == title && rows[0].segs[0].tone == Tone::Accent
                && rows[0].segs[0].face == Face::UiStrong
            &&& data(rows[0].segs[1], decimal(n), Tone::Muted, Flex::Trailing)
            &&& n == 0 ==> plain_row(rows[1], RowKind::Empty, 1) && rows[1].segs.len() == 1
                && rows[1].segs[0].text == note
        }),
{
}

/// One text stands before another where it is a proper beginning of it, or has
/// the smaller character at the first place where they differ.
pub proof fn law_texts_are_ordered_by_their_first_difference(a: Seq<char>, b: Seq<char>, k: int)
    requires
        0 <= k <= a.len(),
        k <= b.len(),
        a.take(k) == b.take(k),
        k == a.len() || k == b.len() || a[k] != b[k],
    ensures
        before(a, b) == (if k == b.len() {
            false
        } else if k == a.len() {
            true
        } else {
            a[k] < b[k]
        }),
    decreases k,
{
    if k > 0 {
        assert(a.take(k)[0] == a[0] && b.take(k)[0] == b[0]);
        let x = a.drop_first();
        let y = b.drop_first();
        assert forall|i: int| 0 <= i < k - 1 implies #[trigger] x[i] == y[i] by {
            assert(a.take(k)[i + 1] == a[i + 1] && b.take(k)[i + 1] == b[i + 1]);
            assert(x[i] == a[i + 1] && y[i] == b[i + 1]);
        }
        assert(x.take(k - 1) =~= y.take(k - 1));
        law_texts_are_ordered_by_their_first_difference(x, y, k - 1);
    }
}

/// The width of a column is that of the longest text in it.
pub proof fn law_columns_fit_their_longest_text(texts: Seq<Seq<char>>, n: nat)
    requires
        n <= texts.len(),
    ensures
        forall|i: int| 0 <= i < n ==> byte_len(#[trigger] texts[i]) <= widest(texts, n),
        n > 0 ==> exists|i: int| 0 <= i < n && byte_len(#[trigger] texts[i]) == widest(texts, n),
        n == 0 ==> widest(texts, n) == 0,
    decreases n,
{
    if n > 0 {
        law_columns_fit_their_longest_text(texts, (n - 1) as nat);
        let w = widest(texts, (n - 1) as nat);
        if w >= byte_len(texts[n - 1]) {
            if n > 1 {
                let i = choose|i: int| 0 <= i < n - 1 && byte_len(#[trigger] texts[i]) == w;
                assert(byte_len(texts[i]) == widest(texts, n));
            } else {
                assert(byte_len(texts[0]) == widest(texts, n));
            }
        } else {
            assert(byte_len(texts[n - 1]) == widest(texts, n));
        }
    }
}

/// Those entries are shown that are wanted and have a name, each once and in
/// the order they came in.
pub proof fn law_named_entries_are_shown<T>(
    s: Seq<(Symbol, T)>,
    names: FrozenInterner,
    keep: spec_fn(Symbol) -> bool,
    n: nat,
)
    requires
        n <= s.len(),
    ensures
        forall|i: int|
            named_entries(s, names, keep, n).contains(i) <==> 0 <= i < n && keep(
                (#[trigger] s[i]).0,
            ) && names.named(s[i].0) is Some,
        forall|a: int, b: int|
            0 <= a < b < named_entries(s, names, keep, n).len() ==> #[trigger] named_entries(
                s,
                names,
                keep,
                n,
            )[a] < #[trigger] named_entries(s, names, keep, n)[b],
        forall|a: int|
            0 <= a < named_entries(s, names, keep, n).len() ==> 0 <= #[trigger] named_entries(
                s,
                names,
                keep,
                n,
            )[a] < n,
    decreases n,
{
    if n > 0 {
        law_named_entries_are_shown(s, names, keep, (n - 1) as nat);
        let init = named_entries(s, names, keep, (n - 1) as nat);
        let all = named_entries(s, names, keep, n);
        assert forall|i: int|
            all.contains(i) <==> 0 <= i < n && keep((#[trigger] s[i]).0) && names.named(s[i].0)
                is Some by {
            if all.contains(i) {
                let m = choose|m: int| 0 <= m < all.len() && all[m] == i;
                if m < init.len() {
                    assert(init[m] == i);
                    assert(init.contains(i));
                }
            }
            if 0 <= i < n && keep(s[i].0) && names.named(s[i].0) is Some {
                if i < n - 1 {
                    assert(init.contains(i));
                    let m = choose|m: int| 0 <= m < init.len() && init[m] == i;
                    assert(all[m] == i);
                } else {
                    assert(all[init.len() as int] == i);
                }
            }
        }
    }
}

/// Sorting by name keeps every entry, and no entry stands behind one whose name
/// comes later.
pub proof fn law_sorting_keeps_every_entry(ids: Seq<int>, names: Seq<Seq<char>>)
    requires
        ids.len() == names.len(),
    ensures
        sorted_ids(ids, names).len() == ids.len(),
        forall|k: int|
            0 <= k < ids.len() ==> sorted_ids(ids, names).contains(#[trigger] ids[k]),
        forall|k: int|
            0 <= k < ids.len() ==> ids.contains(#[trigger] sorted_ids(ids, names)[k]),
        forall|k: int|
            0 <= k < ids.len() ==> 0 <= #[trigger] name_order(names)[k] < ids.len()
                && sorted_ids(ids, names)[k] == ids[name_order(names)[k]],
        forall|a: int, b: int|
            0 <= a <= b < ids.len() ==> !before(
                names[#[trigger] name_order(names)[b]],
                names[#[trigger] name_order(names)[a]],
            ),
{
    let n = names.len();
    let o = name_order(names);
    law_sorting_orders_the_names(names, n);
    assert(in_order(o, names));
    let all = Seq::new(n, |i: int| i);
    assert forall|k: int| 0 <= k < ids.len() implies sorted_ids(ids, names).contains(
        #[trigger] ids[k],
    ) by {
        assert(all[k] == k);
        assert(all.contains(k));
        broadcast use vstd::seq_lib::group_to_multiset_ensures;

        assert(all.to_multiset().count(k) > 0);
        assert(o.contains(k));
        let m = choose|m: int| 0 <= m < o.len() && o[m] == k;
        assert(sorted_ids(ids, names)[m] == ids[k]);
    }
    assert forall|k: int| 0 <= k < ids.len() implies ids.contains(
        #[trigger] sorted_ids(ids, names)[k],
    ) by {
        assert(sorted_ids(ids, names)[k] == ids[o[k]]);
    }
}

/// Where each entry has one row, the rows stand in the order of the entries.
pub proof fn lemma_single_rows(ids: Seq<int>, row: spec_fn(int) -> Seq<RowView>, n: nat)
    requires
        n <= ids.len(),
        forall|k: int| 0 <= k < n ==> row(#[trigger] ids[k]).len() == 1,
    ensures
        rows_for(ids, row, n).len() == n,
        forall|k: int| 0 <= k < n ==> #[trigger] rows_for(ids, row, n)[k] == row(ids[k])[0],
    decreases n,
{
    if n > 0 {
        lemma_single_rows(ids, row, (n - 1) as nat);
        let init = rows_for(ids, row, (n - 1) as nat);
        assert(row(ids[n - 1]).len() == 1);
        assert forall|k: int| 0 <= k < n implies #[trigger] rows_for(ids, row, n)[k] == row(
            ids[k],
        )[0] by {
            if k < n - 1 {
                assert(rows_for(ids, row, n)[k] == init[k]);
            }
        }
    }
}

/// Where each entry has two rows, they stand side by side in the order of the
/// entries.
pub proof fn lemma_double_rows(ids: Seq<int>, row: spec_fn(int) -> Seq<RowView>, n: nat)
    requires
        n <= ids.len(),
        forall|k: int| 0 <= k < n ==> row(#[trigger] ids[k]).len() == 2,
    ensures
        rows_for(ids, row, n).len() == 2 * n,
        forall|k: int|
            0 <= k < n ==> rows_for(ids, row, n)[2 * k] == row(#[trigger] ids[k])[0] && rows_for(
                ids,
                row,
                n,
            )[2 * k + 1] == row(ids[k])[1],
    decreases n,
{
    if n > 0 {
        lemma_double_rows(ids, row, (n - 1) as nat);
        let init = rows_for(ids, row, (n - 1) as nat);
        let all = rows_for(ids, row, n);
        assert(row(ids[n - 1]).len() == 2);
        assert forall|k: int| 0 <= k < n implies all[2 * k] == row(#[trigger] ids[k])[0] && all[2
            * k + 1] == row(ids[k])[1] by {
            if k < n - 1 {
                assert(all[2 * k] == init[2 * k]);
                assert(all[2 * k + 1] == init[2 * k + 1]);
            }
        }
    }
}

/// A header shows its title in a strong accent, and its number, where it has
/// one, at the right edge; a note is set as plain text, paler.
pub proof fn law_rows_of_each_kind(title: Seq<char>, n: nat, indent: u8, segs: Seq<SegView>)
    ensures
        ({
            let h = RowView::header(title);
            &&& plain_row(h, RowKind::Header, 0) && h.inspect is None && h.segs.len() == 1
            &&& h.segs[0].text == title && h.segs[0].tone == Tone::Accent && h.segs[0].face
                == Face::UiStrong && h.segs[0].flex == Flex::Fixed && h.segs[0].swatch is None
        }),
        ({
            let h = RowView::header_n(title, n);
            &&& plain_row(h, RowKind::Header, 0) && h.inspect is None && h.segs.len() == 2
            &&& h.segs[0] == RowView::header(title).segs[0]
            &&& data(h.segs[1], decimal(n), Tone::Muted, Flex::Trailing)
        }),
        ({
            let e = RowView::empty(indent, title);
            &&& plain_row(e, RowKind::Empty, indent) && e.inspect is None && e.segs.len() == 1
            &&& e.segs[0].text == title && e.segs[0].tone == Tone::Muted && e.segs[0].face
                == Face::Ui && e.segs[0].flex == Flex::Fixed
        }),
        plain_row(RowView::item(indent, segs), RowKind::Item, indent),
        plain_row(RowView::detail(indent, segs), RowKind::Detail, indent),
        RowView::item(indent, segs).segs == segs && RowView::item(indent, segs).inspect is None,
        RowView::detail(indent, segs).segs == segs && RowView::detail(indent, segs).inspect is None,
{
}

} // verus!
