//! What holds of the panel over several operations.

use vstd::prelude::*;

use crate::inspector::model::types::RowView;
use crate::inspector::panel::{
    content_height, on_row, panel_zone, tab_at, tab_bar_zone, top_of, DrawerView, PanelHit,
    PanelView, CONTENT_VPAD, DRAWER_HEIGHT, PANEL_WIDTH, PICKER_BTN_WIDTH, TAB_BAR_HEIGHT,
    TAB_COUNT,
};

verus! {

/// A second click on a disclosure triangle undoes the first, and neither
/// selects anything.
pub proof fn law_the_triangle_toggles(v: PanelView, rows: Seq<RowView>, i: usize)
    requires
        i < rows.len(),
    ensures
        v.hit(rows, PanelHit::Twisty(i)).0.hit(rows, PanelHit::Twisty(i)).0 == v,
        v.hit(rows, PanelHit::Twisty(i)).0.selected == v.selected,
{
    if let Some(node) = rows[i as int].node {
        if v.collapsed.contains(node) {
            assert(v.collapsed.remove(node).insert(node) =~= v.collapsed);
        } else {
            assert(v.collapsed.insert(node).remove(node) =~= v.collapsed);
        }
    }
}

/// A click on a row hides nothing: the tree stays expanded as it was.
pub proof fn law_selecting_hides_nothing(v: PanelView, rows: Seq<RowView>, i: usize)
    requires
        i < rows.len(),
    ensures
        v.hit(rows, PanelHit::Row(i)).0.collapsed == v.collapsed,
        rows[i as int].node is Some ==> v.hit(rows, PanelHit::Row(i)).0.selected
            == rows[i as int].node,
{
}

/// A click on a long value opens the drawer with the whole of it; another one
/// on the same row closes it again.
pub proof fn law_a_value_opens_and_closes(v: PanelView, rows: Seq<RowView>, i: usize)
    requires
        i < rows.len(),
        rows[i as int].inspect is Some,
        v.drawer is None,
    ensures
        ({
            let (title, text) = rows[i as int].inspect->0;
            let w = v.hit(rows, PanelHit::Row(i)).0;
            w.drawer == Some(DrawerView::opened(title, text)) && w.hit(
                rows,
                PanelHit::Row(i),
            ).0.drawer is None
        }),
{
}

/// The copy button gives back exactly the text that the drawer shows, and the
/// drawer stays open.
pub proof fn law_copy_gives_the_whole_text(v: PanelView, rows: Seq<RowView>, d: DrawerView)
    requires
        v.drawer == Some(d),
    ensures
        v.hit(rows, PanelHit::DrawerCopy).1.copy == Some(d.text),
        v.hit(rows, PanelHit::DrawerCopy).0.drawer is Some,
{
}

/// Closing the panel ends picker mode and closes the drawer; opening it again
/// brings neither back.
pub proof fn law_closing_cancels(v: PanelView)
    requires
        v.open,
    ensures
        !v.toggled().open && !v.toggled().picker && v.toggled().picker_hover is None
            && v.toggled().drawer is None && v.toggled().hover is None,
        v.toggled().toggled().open && !v.toggled().toggled().picker,
        v.toggled().selected == v.selected && v.toggled().collapsed == v.collapsed,
{
}

/// After a navigation nothing is left that names a node of the old document.
pub proof fn law_a_reset_names_no_node(v: PanelView)
    ensures
        v.reset().selected is None && v.reset().picker_hover is None,
        v.reset().collapsed == Set::<usize>::empty(),
        v.reset().open == v.open && v.reset().tab == v.tab,
{
}

/// Scrolling stays within the content.
pub proof fn law_scrolling_stays_in_range(v: PanelView, delta: int)
    requires
        v.scroll.len() == 5,
    ensures
        0 <= v.scrolled_by(delta).scroll_offset(),
        v.max_scroll >= 0 ==> v.scrolled_by(delta).scroll_offset() <= v.max_scroll,
        v.scrolled_by(delta).tab == v.tab,
{
}

/// Every tab is hit on its own slot, and its position is its slot.
pub proof fn law_every_tab_has_its_slot(i: int, x: int)
    requires
        0 <= i < TAB_COUNT,
        0 <= x,
        i * (PANEL_WIDTH - PICKER_BTN_WIDTH) <= x * TAB_COUNT < (i + 1) * (PANEL_WIDTH
            - PICKER_BTN_WIDTH),
    ensures
        tab_bar_zone(x) == PanelHit::Tab(tab_at(i)),
        tab_at(i).position() == i,
{
    let w = PANEL_WIDTH - PICKER_BTN_WIDTH;
    assert(i * w <= 4 * w) by (nonlinear_arith)
        requires
            i <= 4,
            w > 0,
    ;
    assert((i + 1) * w <= 5 * w && (i + 1) * w == i * w + w) by (nonlinear_arith)
        requires
            i <= 4,
            w > 0,
    ;
    assert(i * w == w * i) by (nonlinear_arith);
    vstd::arithmetic::div_mod::lemma_fundamental_div_mod_converse(
        x * TAB_COUNT,
        w,
        i,
        x * TAB_COUNT - w * i,
    );
}

/// The rows lie one below the other without gaps: every height between the
/// first row and the end of the content is on exactly one row.
pub proof fn law_rows_tile_the_content(rows: Seq<RowView>, y: int)
    requires
        rows.len() > 0,
        CONTENT_VPAD <= y < content_height(rows),
    ensures
        exists|i: int| on_row(rows, i, y) && forall|j: int| on_row(rows, j, y) ==> i == j,
{
    let i = find_row(rows, y, rows.len());
    assert(on_row(rows, i, y));
    assert forall|j: int| on_row(rows, j, y) implies i == j by {
        crate::inspector::panel::lemma_one_row(rows, i, j, y);
    }
}

proof fn find_row(rows: Seq<RowView>, y: int, n: nat) -> (i: int)
    requires
        0 < n <= rows.len(),
        CONTENT_VPAD <= y < content_height(rows),
        n < rows.len() ==> y < top_of(rows, n),
    ensures
        on_row(rows, i, y),
    decreases n,
{
    if y >= top_of(rows, (n - 1) as nat) {
        n - 1
    } else {
        if n == 1 {
            assert(top_of(rows, 0) == CONTENT_VPAD);
        }
        find_row(rows, y, (n - 1) as nat)
    }
}

/// A row under the open drawer cannot be clicked.
pub proof fn law_the_drawer_covers_the_rows(
    rows: Seq<RowView>,
    scroll: int,
    panel_height: int,
    x: int,
    y: int,
)
    requires
        y >= TAB_BAR_HEIGHT,
        y >= panel_height - DRAWER_HEIGHT,
    ensures
        ({
            let z = panel_zone(rows, scroll, panel_height, true, x, y);
            z is DrawerClose || z is DrawerCopy || z is DrawerBody
        }),
{
}

} // verus!
