//! The rows of the active tab.

use vstd::prelude::*;

use crate::inspector::model::elements::{elements_rows, TreeState};
use crate::inspector::model::events_tab::{events_rows, lists_all_events};
use crate::inspector::model::logic_tab::logic_rows;
use crate::inspector::model::network_tab::network_rows;
use crate::inspector::model::sources::InspectorSources;
use crate::inspector::model::styles::style_rows;
use crate::inspector::model::types::{row_views, Row, RowView};
use crate::inspector::panel::{InspectorState, InspectorTab, PanelView};

verus! {

impl<'a> InspectorSources<'a> {
    /// Whether what a tab shows can be shown.
    pub open spec fn ready(&self, state: PanelView) -> bool {
        match state.tab {
            InspectorTab::Elements => self.dom.valid(),
            InspectorTab::Style => self.style_ready(state.selected),
            InspectorTab::Logic => self.logic_ready(),
            InspectorTab::Events => self.events_ready(),
            InspectorTab::Network => self.network_ready(),
        }
    }

    /// Whether `rows` is what the active tab shows at time `now`.
    pub open spec fn shows(&self, state: PanelView, rows: Seq<RowView>, now: u64) -> bool {
        match state.tab {
            InspectorTab::Elements => rows == (TreeState {
                links: self.dom.links(),
                collapsed: state.collapsed,
                truncated: self.truncated@,
            }).rows(),
            InspectorTab::Style => rows == self.style_tab(state.selected),
            InspectorTab::Logic => rows == self.logic_tab(state.flow_metrics, now),
            InspectorTab::Events => exists|orders: Seq<Seq<Seq<char>>>|
                lists_all_events(orders, self.dom.links()) && rows == #[trigger] self.events_tab(
                    orders,
                    now,
                ),
            InspectorTab::Network => rows == self.network_tab(),
        }
    }
}

/// The rows of the active tab at time `now`.
pub fn build_rows_at(src: &InspectorSources<'_>, state: &InspectorState, now: u64) -> (rows: Vec<
    Row,
>)
    requires
        src.ready(state@),
    ensures
        src.shows(state@, row_views(rows@), now),
{
    match state.tab {
        InspectorTab::Elements => elements_rows(src.dom, &state.collapsed, src.truncated),
        InspectorTab::Style => style_rows(src, state.selected),
        InspectorTab::Logic => logic_rows(src, state.flow_metrics, now),
        InspectorTab::Events => events_rows(src, now),
        InspectorTab::Network => network_rows(src),
    }
}

/// The rows of the active tab now.
pub fn build_rows(src: &InspectorSources<'_>, state: &InspectorState) -> (rows: Vec<Row>)
    requires
        src.ready(state@),
    ensures
        exists|now: u64| #[trigger] src.shows(state@, row_views(rows@), now),
{
    let now = src.log.clock();
    build_rows_at(src, state, now)
}

/// Each tab shows its own rows: the tree with what is hidden in it, the style of
/// the selected element, the state, what reacts, and the network.
pub proof fn law_each_tab_shows_its_own_rows(
    src: InspectorSources<'_>,
    v: PanelView,
    rows: Seq<RowView>,
    now: u64,
)
    requires
        src.shows(v, rows, now),
    ensures
        v.tab == InspectorTab::Elements ==> rows == (TreeState {
            links: src.dom.links(),
            collapsed: v.collapsed,
            truncated: src.truncated@,
        }).subtree_rows(0, 0),
        v.tab == InspectorTab::Style ==> rows == src.style_tab(v.selected),
        v.tab == InspectorTab::Logic ==> rows == src.logic_tab(v.flow_metrics, now),
        v.tab == InspectorTab::Events ==> exists|orders: Seq<Seq<Seq<char>>>|
            lists_all_events(orders, src.dom.links()) && rows == #[trigger] src.events_tab(
                orders,
                now,
            ),
        v.tab == InspectorTab::Network ==> rows == src.network_tab(),
{
}

} // verus!
