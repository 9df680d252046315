//! What a click in the panel does, and where its parts lie. Lengths are in
//! 64ths of a pixel.

use vstd::prelude::*;

use crate::dom::{depth, is_document, lemma_parent_depth, within, Link};
use crate::inspector::model::types::{RowKind, RowView};
use crate::inspector::panel::{
    content_height, lineage, on_row, panel_zone, top_of, DrawerView, InspectorTab, PanelHit,
    PanelView, PANEL_WIDTH, PICKER_BTN_WIDTH, TAB_COUNT,
};

verus! {

/// The tabs in their order.
pub open spec fn tab_number(t: InspectorTab) -> int {
    match t {
        InspectorTab::Elements => 0,
        InspectorTab::Style => 1,
        InspectorTab::Logic => 2,
        InspectorTab::Events => 3,
        InspectorTab::Network => 4,
    }
}

/// The tabs have their names.
pub proof fn law_tabs_have_their_names(t: InspectorTab)
    ensures
        t.position() == tab_number(t),
        t.name() == (match t {
            InspectorTab::Elements => seq!['E', 'l', 'e', 'm', 'e', 'n', 't', 's'],
            InspectorTab::Style => seq!['S', 't', 'y', 'l', 'e'],
            InspectorTab::Logic => seq!['L', 'o', 'g', 'i', 'c'],
            InspectorTab::Events => seq!['E', 'v', 'e', 'n', 't', 's'],
            InspectorTab::Network => seq!['N', 'e', 't', 'w', 'o', 'r', 'k'],
        }),
{
    reveal_strlit("Elements");
    reveal_strlit("Style");
    reveal_strlit("Logic");
    reveal_strlit("Events");
    reveal_strlit("Network");
    assert("Elements"@ =~= seq!['E', 'l', 'e', 'm', 'e', 'n', 't', 's']);
    assert("Style"@ =~= seq!['S', 't', 'y', 'l', 'e']);
    assert("Logic"@ =~= seq!['L', 'o', 'g', 'i', 'c']);
    assert("Events"@ =~= seq!['E', 'v', 'e', 'n', 't', 's']);
    assert("Network"@ =~= seq!['N', 'e', 't', 'w', 'o', 'r', 'k']);
}

/// The bar at the top, 30 pixels high, holds five tabs of equal width, and the
/// picker in its last 38 pixels of 420.
pub proof fn law_the_tab_bar_is_hit(
    rows: Seq<RowView>,
    scroll: int,
    height: int,
    drawer: bool,
    x: int,
    y: int,
    t: InspectorTab,
)
    requires
        y < 30 * 64,
    ensures
        x >= 382 * 64 ==> panel_zone(rows, scroll, height, drawer, x, y) == PanelHit::Picker,
        0 <= x < 382 * 64 && tab_number(t) * (382 * 64) <= 5 * x < (tab_number(t) + 1) * (382 * 64)
            ==> panel_zone(rows, scroll, height, drawer, x, y) == PanelHit::Tab(t),
        x < 0 ==> panel_zone(rows, scroll, height, drawer, x, y) == PanelHit::Tab(
            InspectorTab::Elements,
        ),
{
    let n = tab_number(t);
    if 0 <= x < 382 * 64 && n * 24448 <= 5 * x < (n + 1) * 24448 {
        assert((x * 5) / 24448 == n);
        assert(PANEL_WIDTH - PICKER_BTN_WIDTH == 24448);
        assert(x * TAB_COUNT == x * 5);
    }
}

/// The drawer takes the last 176 pixels of the panel: a header of 28 pixels
/// with a button of 28 pixels that closes it at the right, beside it one of 56
/// pixels that copies, and below the text.
pub proof fn law_the_drawer_is_hit(
    rows: Seq<RowView>,
    scroll: int,
    height: int,
    x: int,
    y: int,
)
    requires
        y >= 30 * 64,
        y >= height - 176 * 64,
    ensures
        ({
            let z = panel_zone(rows, scroll, height, true, x, y);
            let in_header = y < height - 148 * 64;
            &&& !in_header ==> z == PanelHit::DrawerBody
            &&& in_header && x >= 392 * 64 ==> z == PanelHit::DrawerClose
            &&& in_header && 336 * 64 <= x < 392 * 64 ==> z == PanelHit::DrawerCopy
            &&& in_header && x < 336 * 64 ==> z == PanelHit::DrawerBody
        }),
{
}

/// How high a row is.
pub open spec fn height_of(kind: RowKind) -> int {
    match kind {
        RowKind::Header => 30 * 64int,
        RowKind::Detail => 19 * 64int,
        RowKind::Item | RowKind::Empty => 21 * 64int,
    }
}

/// Rows stand below each other, each as high as its kind is, with a margin of 4
/// pixels above the first and below the last.
pub proof fn law_rows_stand_below_each_other(rows: Seq<RowView>, i: nat)
    requires
        i < rows.len(),
    ensures
        top_of(rows, 0) == 4 * 64,
        top_of(rows, i + 1) == top_of(rows, i) + height_of(rows[i as int].kind),
        content_height(rows) == top_of(rows, rows.len()) + 4 * 64,
{
}

proof fn lemma_tops_ascend(rows: Seq<RowView>, i: nat, j: nat)
    requires
        i <= j <= rows.len(),
    ensures
        top_of(rows, i) <= top_of(rows, j),
    decreases j - i,
{
    if i < j {
        lemma_tops_ascend(rows, i, (j - 1) as nat);
    }
}

/// A click on a row hits that row; where it has a triangle, and the click is on
/// it, the triangle. The rows start below the bar and are moved up by how far
/// they are scrolled.
pub proof fn law_rows_are_hit_where_they_stand(
    rows: Seq<RowView>,
    scroll: int,
    height: int,
    drawer: bool,
    x: int,
    y: int,
    i: int,
)
    requires
        y >= 30 * 64,
        drawer ==> y < height - 176 * 64,
        0 <= i < rows.len(),
        rows.len() <= usize::MAX,
        top_of(rows, i as nat) <= y - 31 * 64 + scroll < top_of(rows, i as nat) + height_of(
            rows[i].kind,
        ),
    ensures
        ({
            let z = panel_zone(rows, scroll, height, drawer, x, y);
            let left = (11 + 13 * rows[i].indent) * 64;
            if rows[i].expandable && left <= x < left + 13 * 64 {
                z == PanelHit::Twisty(i as usize)
            } else {
                z == PanelHit::Row(i as usize)
            }
        }),
{
    let at = y - 31 * 64 + scroll;
    assert(top_of(rows, (i + 1) as nat) == top_of(rows, i as nat) + height_of(rows[i].kind));
    assert(on_row(rows, i, at));
    assert forall|j: int| on_row(rows, j, at) implies j == i by {
        if j < i {
            lemma_tops_ascend(rows, (j + 1) as nat, i as nat);
        } else if i < j {
            lemma_tops_ascend(rows, (i + 1) as nat, j as nat);
        }
    }
}

/// A click above the first row or below the last hits nothing.
pub proof fn law_nothing_is_hit_beside_the_rows(
    rows: Seq<RowView>,
    scroll: int,
    height: int,
    x: int,
    y: int,
)
    requires
        y >= 30 * 64,
        y - 31 * 64 + scroll < 4 * 64 || y - 31 * 64 + scroll >= content_height(rows) || rows.len()
            == 0,
    ensures
        panel_zone(rows, scroll, height, false, x, y) == PanelHit::Background,
{
    let at = y - 31 * 64 + scroll;
    assert forall|j: int| !on_row(rows, j, at) by {
        if 0 <= j < rows.len() {
            lemma_tops_ascend(rows, 0, j as nat);
            if j + 1 < rows.len() {
                lemma_tops_ascend(rows, (j + 1) as nat, rows.len());
            }
        }
    }
}

/// A click on a tab shows it and changes nothing else; on the one that is shown
/// it changes nothing at all.
pub proof fn law_tabs_are_switched(v: PanelView, rows: Seq<RowView>, t: InspectorTab)
    ensures
        ({
            let (w, o) = v.hit(rows, PanelHit::Tab(t));
            &&& w.tab == t
            &&& o.copy is None
            &&& o.changed <==> v.tab != t
            &&& w.selected == v.selected && w.collapsed == v.collapsed && w.scroll == v.scroll
            &&& w.drawer == v.drawer && w.picker == v.picker && w.open == v.open
        }),
{
}

/// A click on the picker turns it on, and off again; off, it points at nothing.
pub proof fn law_the_picker_is_switched(v: PanelView, rows: Seq<RowView>)
    ensures
        ({
            let (w, o) = v.hit(rows, PanelHit::Picker);
            &&& w.picker == !v.picker
            &&& w.picker ==> w.picker_hover == v.picker_hover
            &&& !w.picker ==> w.picker_hover is None
            &&& o.changed && o.copy is None
            &&& w.tab == v.tab && w.selected == v.selected && w.collapsed == v.collapsed
            &&& w.drawer == v.drawer && w.scroll == v.scroll
        }),
{
}

/// A click on a triangle hides or shows the children of its node, and of no
/// other.
pub proof fn law_triangles_hide_and_show(
    v: PanelView,
    rows: Seq<RowView>,
    i: usize,
    node: usize,
    other: usize,
)
    requires
        i < rows.len(),
        rows[i as int].node == Some(node),
        other != node,
    ensures
        ({
            let (w, o) = v.hit(rows, PanelHit::Twisty(i));
            &&& w.collapsed.contains(node) == !v.collapsed.contains(node)
            &&& w.collapsed.contains(other) == v.collapsed.contains(other)
            &&& w.selected == v.selected && w.tab == v.tab && w.drawer == v.drawer
            &&& o.changed && o.copy is None
        }),
{
}

/// A click on a row selects its node and shows its value whole in the drawer, or
/// closes the drawer where it shows that value already; where a row has neither,
/// nothing changes.
pub proof fn law_rows_are_selected_and_read(v: PanelView, rows: Seq<RowView>, i: usize)
    requires
        i < rows.len(),
    ensures
        ({
            let row = rows[i as int];
            let (w, o) = v.hit(rows, PanelHit::Row(i));
            &&& o.copy is None
            &&& w.collapsed == v.collapsed && w.tab == v.tab && w.scroll == v.scroll && w.picker
                == v.picker
            &&& row.node is Some ==> w.selected == row.node
            &&& row.node is None ==> w.selected == v.selected
            &&& row.inspect is None ==> w.drawer == v.drawer
            &&& row.inspect matches Some((title, text)) ==> {
                if v.drawer is Some && (v.drawer->0).title == title && (v.drawer->0).text == text {
                    w.drawer is None
                } else {
                    w.drawer matches Some(d) && d.title == title && d.text == text && d.scroll == 0
                        && d.max_scroll == 0 && !d.copied
                }
            }
            &&& o.changed <==> row.inspect is Some || (row.node is Some && row.node != v.selected)
        }),
{
}

/// The drawer's buttons: one closes it, the other gives its whole text and keeps
/// it open, marked as copied. A click elsewhere in it does nothing.
pub proof fn law_the_drawer_is_closed_and_copied(v: PanelView, rows: Seq<RowView>)
    ensures
        v.hit(rows, PanelHit::DrawerClose).0.drawer is None,
        v.hit(rows, PanelHit::DrawerClose).1.changed,
        v.hit(rows, PanelHit::DrawerClose).1.copy is None,
        v.hit(rows, PanelHit::DrawerClose).0.selected == v.selected,
        v.drawer matches Some(d) ==> {
            let (w, o) = v.hit(rows, PanelHit::DrawerCopy);
            o.copy == Some(d.text) && o.changed && w.drawer == Some(
                DrawerView { copied: true, ..d },
            )
        },
        v.drawer is None ==> v.hit(rows, PanelHit::DrawerCopy).1.copy is None,
        v.hit(rows, PanelHit::DrawerBody).0 == v && !v.hit(rows, PanelHit::DrawerBody).1.changed,
        v.hit(rows, PanelHit::Background).0 == v && !v.hit(rows, PanelHit::Background).1.changed,
        v.hit(rows, PanelHit::DrawerBody).1.copy is None && v.hit(
            rows,
            PanelHit::Background,
        ).1.copy is None,
{
}

/// A click does what a click on the part under it does, where the drawer covers
/// the rows while it is open.
pub proof fn law_a_click_does_what_its_part_does(
    v: PanelView,
    rows: Seq<RowView>,
    height: int,
    x: int,
    y: int,
)
    ensures
        v.clicked(rows, height, x, y) == v.hit(
            rows,
            panel_zone(rows, v.scroll[tab_number(v.tab)] as int, height, v.drawer is Some, x, y),
        ),
{
}

/// Scrolling moves the shown tab by the given amount, but not past its ends, and
/// no other tab.
pub proof fn law_only_the_shown_tab_is_scrolled(v: PanelView, delta: int, t: InspectorTab)
    requires
        v.scroll.len() == 5,
    ensures
        ({
            let w = v.scrolled_by(delta);
            let most = if v.max_scroll > 0 {
                v.max_scroll as int
            } else {
                0
            };
            let to = v.scroll[tab_number(v.tab)] + delta;
            &&& w.scroll.len() == 5
            &&& t != v.tab ==> w.scroll[tab_number(t)] == v.scroll[tab_number(t)]
            &&& to < 0 ==> w.scroll[tab_number(v.tab)] == 0
            &&& to > most ==> w.scroll[tab_number(v.tab)] == most
            &&& 0 <= to <= most ==> w.scroll[tab_number(v.tab)] == to
            &&& w.selected == v.selected && w.collapsed == v.collapsed && w.drawer == v.drawer
        }),
{
}

/// The panel starts closed, at the first tab, with nothing selected, hidden or
/// scrolled; opening it changes nothing else, and closing it puts away the
/// picker, the pointer and the drawer.
pub proof fn law_the_panel_opens_and_closes(v: PanelView, t: InspectorTab)
    ensures
        ({
            let s = PanelView::initial();
            &&& !s.open && s.tab == InspectorTab::Elements && s.selected is None && !s.picker
            &&& s.collapsed == Set::<usize>::empty() && s.drawer is None && s.hover is None
            &&& s.scroll.len() == 5 && s.scroll[tab_number(t)] == 0 && s.max_scroll == 0
        }),
        !v.open ==> v.toggled() == (PanelView { open: true, ..v }),
        v.open ==> v.toggled() == (PanelView {
            open: false,
            hover: None,
            drawer: None,
            picker: false,
            picker_hover: None,
            ..v
        }),
        v.reset().scroll.len() == 5 && v.reset().scroll[tab_number(t)] == 0,
        v.reset().drawer is None && v.reset().hover is None && !v.reset().picker,
        v.reset().flow_metrics == v.flow_metrics,
{
}

proof fn lemma_above(links: Seq<Link>, i: usize, a: usize)
    requires
        is_document(links),
        i < links.len(),
    ensures
        lineage(links, i).contains(a) <==> within(links, i, a),
    decreases depth(links, i as int),
{
    lemma_parent_depth(links, i as int);
    if links[i as int].parent is Some {
        lemma_above(links, links[i as int].parent->0, a);
    }
}

/// Picking a node selects it in the tree, opens the nodes above it and hides or
/// shows nothing else.
pub proof fn law_picking_opens_only_what_is_above(
    v: PanelView,
    links: Seq<Link>,
    node: usize,
    other: usize,
)
    requires
        is_document(links),
    ensures
        ({
            let w = v.selecting(links, node);
            &&& w.selected == Some(node) && w.tab == InspectorTab::Elements
            &&& node >= links.len() ==> w.collapsed == v.collapsed
            &&& node < links.len() && within(links, node, other) ==> !w.collapsed.contains(other)
            &&& node < links.len() && !within(links, node, other) ==> (w.collapsed.contains(other)
                <==> v.collapsed.contains(other))
            &&& w.open == v.open && w.picker == v.picker && w.drawer == v.drawer && w.scroll
                == v.scroll
        }),
{
    if node < links.len() {
        lemma_above(links, node, other);
    }
}

/// Going to a row scrolls the shown tab so that the row stands in the upper
/// third of what is seen, or as far down as it is where it is higher up.
pub proof fn law_going_to_a_row_shows_it(v: PanelView, row_top: int, viewport: int)
    requires
        v.scroll.len() == 5,
        0 <= viewport,
        row_top <= i64::MAX,
    ensures
        ({
            let w = v.revealing(row_top, viewport);
            let to = w.scroll[tab_number(v.tab)] as int;
            &&& 100 * row_top <= 33 * viewport ==> to == 0
            &&& 100 * row_top > 33 * viewport ==> 33 * viewport - 100 < 100 * (row_top - to) <= 33
                * viewport
            &&& w.tab == v.tab && w.selected == v.selected && w.collapsed == v.collapsed
                && w.scroll.len() == 5
        }),
{
}

/// Turning the picker off forgets what it pointed at; turning it on does not,
/// and neither changes anything else.
pub proof fn law_the_picker_forgets_when_it_is_off(v: PanelView)
    ensures
        v.picking(true) == (PanelView { picker: true, ..v }),
        v.picking(false) == (PanelView { picker: false, picker_hover: None, ..v }),
{
}

/// Nothing is hit beside its own place: a tab or the picker only in the bar, a
/// button of the drawer only in its header while it is open, and a row only
/// between the bar and the drawer.
pub proof fn law_parts_are_hit_only_inside(
    rows: Seq<RowView>,
    scroll: int,
    height: int,
    drawer: bool,
    x: int,
    y: int,
)
    ensures
        ({
            let z = panel_zone(rows, scroll, height, drawer, x, y);
            &&& z is Tab || z is Picker <==> y < 30 * 64
            &&& z is Picker ==> x >= 382 * 64
            &&& z is DrawerClose || z is DrawerCopy || z is DrawerBody <==> drawer && y >= 30 * 64
                && y >= height - 176 * 64
            &&& z is DrawerClose ==> y < height - 148 * 64 && x >= 392 * 64
            &&& z is DrawerCopy ==> y < height - 148 * 64 && 336 * 64 <= x < 392 * 64
        }),
{
}

} // verus!
