//! What is said of the view of a value is said of the value: no view leaves
//! anything out or mixes anything up.

use vstd::prelude::*;

use crate::accessibility::AccessNode;
use crate::chrome::keys::{ActionView, ChromeKeyAction, Key, KeyView};
use crate::chrome::state::ChromeState;
use crate::history::{DayGroup, HistoryLog, VisitRecord};
use crate::image_codec::{AnimatedImage, Frame, RawFrame, RawImage, Shown, Texture};
use crate::inspector::log::{EventEntry, InspectorLog, NetEntry, NetOutcome, OutcomeView};
use crate::inspector::model::types::{Row, Seg};
use crate::inspector::panel::{ClickOutcome, InspectorState, ValueView};
use crate::scene::{Draw, DrawView, Scene};

verus! {

/// A row's view has the row's own fields and its segments in their order.
pub proof fn law_rows_are_seen_as_they_are(r: Row, s: Seg, i: int)
    ensures
        r@.kind == r.kind && r@.indent == r.indent && r@.node == r.node,
        r@.expandable == r.expandable && r@.expanded == r.expanded,
        r@.segs.len() == r.segs@.len(),
        0 <= i < r.segs@.len() ==> r@.segs[i] == r.segs@[i]@,
        r.inspect is None <==> r@.inspect is None,
        r.inspect matches Some(v) ==> r@.inspect == Some((v.title@, v.text@)),
        s@.text == s.text@ && s@.tone == s.tone && s@.face == s.face && s@.flex == s.flex
            && s@.swatch == s.swatch,
{
}

/// The log's view has its entries in their order, with all that they say.
pub proof fn law_logs_are_seen_as_they_are(
    l: InspectorLog,
    e: EventEntry,
    n: NetEntry,
    o: NetOutcome,
    i: int,
)
    ensures
        l@.events.len() == l.events@.len() && l@.network.len() == l.network@.len(),
        0 <= i < l.events@.len() ==> l@.events[i] == l.events@[i]@,
        0 <= i < l.network@.len() ==> l@.network[i] == l.network@[i]@,
        e@.at == e.at && e@.kind == e.kind && e@.detail == e.detail@,
        n@.at == n.at && n@.verb == n.verb@ && n@.target == n.target@ && n@.outcome == n.outcome@,
        n@.duration_ms == n.duration_ms && n@.bytes == n.bytes,
        n.correlation is None <==> n@.correlation is None,
        n.correlation matches Some(c) ==> n@.correlation == Some(c@),
        o@ == (match o {
            NetOutcome::Pending => OutcomeView::Pending,
            NetOutcome::Completed => OutcomeView::Completed,
            NetOutcome::Redirect => OutcomeView::Redirect,
            NetOutcome::Failed(s) => OutcomeView::Failed(s@),
            NetOutcome::Blocked(s) => OutcomeView::Blocked(s@),
        }),
{
}

/// The URL bar's view has its text, its places and its suggestions.
pub proof fn law_bars_are_seen_as_they_are(c: ChromeState, v: VisitRecord, i: int)
    ensures
        c@.committed_url == c.committed_url@ && c@.url == c.url@ && c@.cursor == c.cursor,
        c@.focused == c.focused && c@.loading == c.loading,
        c.selection is None <==> c@.selection is None,
        c.selection matches Some((a, b)) ==> c@.selection == Some((a as int, b as int)),
        c.selected_suggestion is None <==> c@.selected_suggestion is None,
        c.selected_suggestion matches Some(k) ==> c@.selected_suggestion == Some(k as int),
        c.hovered_suggestion is None <==> c@.hovered_suggestion is None,
        c.hovered_suggestion matches Some(k) ==> c@.hovered_suggestion == Some(k as int),
        c.inline_completion is None <==> c@.inline_completion is None,
        c.inline_completion matches Some(t) ==> c@.inline_completion == Some(t@),
        c@.suggestions.len() == c.suggestions@.len(),
        0 <= i < c.suggestions@.len() ==> c@.suggestions[i] == c.suggestions@[i]@,
        v@.url == v.url@ && v@.title == v.title@,
{
}

/// Keys, and what they ask for, are seen as they are.
pub proof fn law_keys_are_seen_as_they_are(k: Key, a: ChromeKeyAction)
    ensures
        k@ == (match k {
            Key::Named(n) => KeyView::Named(n),
            Key::Character(s) => KeyView::Character(s@),
            Key::Unidentified => KeyView::Unidentified,
        }),
        a@ == (match a {
            ChromeKeyAction::Navigate(u) => ActionView::Navigate(u@),
            ChromeKeyAction::Reload => ActionView::Reload,
            ChromeKeyAction::Back => ActionView::Back,
            ChromeKeyAction::Copy => ActionView::Copy,
            ChromeKeyAction::Cut => ActionView::Cut,
            ChromeKeyAction::Paste => ActionView::Paste,
            ChromeKeyAction::Handled => ActionView::Handled,
            ChromeKeyAction::Ignored => ActionView::Ignored,
        }),
{
}

/// A history's view has its days in their order, each with its visits in theirs.
pub proof fn law_histories_are_seen_as_they_are(h: HistoryLog, d: DayGroup, i: int)
    ensures
        h@.len() == h.days@.len(),
        0 <= i < h.days@.len() ==> h@[i] == h.days@[i]@,
        d@.label == d.label@,
        d@.records.len() == d.records@.len(),
        0 <= i < d.records@.len() ==> d@.records[i] == d.records@[i]@,
{
}

/// Images are seen as they are.
pub proof fn law_images_are_seen_as_they_are(
    a: AnimatedImage,
    t: Texture,
    f: Frame,
    raw: RawImage,
    part: RawFrame,
    i: int,
)
    ensures
        t@.width == t.width && t@.height == t.height && t@.pixels == t.pixels@,
        raw@.width == raw.width && raw@.height == raw.height && raw@.pixels == raw.pixels@,
        f@.texture == f.texture@ && f@.duration_ms == f.duration_ms,
        part@.image == part.image@ && part@.numer == part.numer && part@.denom == part.denom,
        match a {
            AnimatedImage::Static(t) => a@ == Shown::Static(t@),
            AnimatedImage::Animated { frames, total_duration_ms } => a@ matches Shown::Animated(
                s,
                total,
            ) && total == total_duration_ms && s.len() == frames@.len() && (0 <= i
                < frames@.len() ==> s[i] == frames@[i]@),
        },
{
}

/// The panel's state is seen as it is.
pub proof fn law_panels_are_seen_as_they_are(p: InspectorState, v: ValueView, o: ClickOutcome)
    ensures
        p@.open == p.open && p@.tab == p.tab && p@.selected == p.selected && p@.collapsed
            == p.collapsed@,
        p@.picker == p.picker && p@.picker_hover == p.picker_hover && p@.hover == p.hover,
        p@.scroll == p.scroll@ && p@.max_scroll == p.max_scroll && p@.flow_metrics
            == p.flow_metrics,
        p.value_view is None <==> p@.drawer is None,
        p.value_view matches Some(d) ==> p@.drawer == Some(d@),
        v@.title == v.title@ && v@.text == v.text@ && v@.scroll == v.scroll && v@.max_scroll
            == v.max_scroll,
        v@.copied <==> v.copied_at is Some,
        o@.changed == o.changed,
        o.copy is None <==> o@.copy is None,
        o.copy matches Some(t) ==> o@.copy == Some(t@),
{
}

/// What is drawn is seen as it is, in the order in which it is drawn.
pub proof fn law_scenes_are_seen_as_they_are(s: Scene, d: Draw, i: int)
    ensures
        s@.len() == s.items@.len(),
        0 <= i < s.items@.len() ==> s@[i] == s.items@[i]@,
        d@ == (match d {
            Draw::Fill { rect, color } => DrawView::Fill { rect, color },
            Draw::FillRound { rect, radius, color } => DrawView::FillRound { rect, radius, color },
            Draw::Outline { rect, width, color } => DrawView::Outline { rect, width, color },
            Draw::OutlineRound { rect, radius, width, color } => DrawView::OutlineRound {
                rect,
                radius,
                width,
                color,
            },
            Draw::Dot { cx, cy, radius, color } => DrawView::Dot { cx, cy, radius, color },
            Draw::Text { text, style, x, y, color, percent } => DrawView::Text {
                text: text@,
                style,
                x,
                y,
                color,
                percent,
            },
            Draw::Wrapped { text, style, x, y, max_width, color } => DrawView::Wrapped {
                text: text@,
                style,
                x,
                y,
                max_width,
                color,
            },
            Draw::Icon { icon, x, y, size, color } => DrawView::Icon { icon, x, y, size, color },
            Draw::Mark { mark, cx, cy, color } => DrawView::Mark { mark, cx, cy, color },
            Draw::PushClip { rect } => DrawView::PushClip { rect },
            Draw::PopClip => DrawView::PopClip,
        }),
{
}

/// An entry of the accessibility tree is seen as it is.
pub proof fn law_entries_are_seen_as_they_are(n: AccessNode)
    ensures
        n@.role == n.role && n@.level == n.level && n@.actions == n.actions@ && n@.children
            == n.children@,
        n.name is None <==> n@.name is None,
        n.name matches Some(s) ==> n@.name == Some(s@),
{
}

} // verus!
