//! The Events tab: timers, declared reactions, and the event log.

use vstd::prelude::*;

use crate::clock::{print_seconds, seconds_text};
use crate::dom::{event, event_map, event_names, Dom, EventBlock, Link, MizuNode};
use crate::inspector::log::{kind_tag, timestamp_text, EventEntry, EventView, InspectorLog};
use crate::inspector::model::format::{action_ok, action_text, format_action};
use crate::inspector::model::logic_tab::{push_section, section};
use crate::inspector::model::sources::{earliest_first, InspectorSources, RootTimer, TimerInterval};
use crate::inspector::model::types::{
    lemma_row_views_push, lemma_seg_views_push, row_views, seg_views, Row, RowView, Seg, SegView,
    Tone,
};
use crate::logic::{Action, FrozenInterner};
use crate::text::{
    decimal, decimal_of, join2, join3, pad_right, padded_right, text_views, trim, trimmed,
};

verus! {

/// A number of milliseconds; whole seconds as such.
pub open spec fn millis_text(ms: nat) -> Seq<char> {
    if ms >= 1000 && ms % 1000 == 0 {
        decimal(ms / 1000) + "s"@
    } else {
        decimal(ms) + "ms"@
    }
}

/// Prints a number of milliseconds.
pub fn fmt_millis(ms: u64) -> (s: String)
    ensures
        s@ == millis_text(ms as nat),
{
    if ms >= 1000 && ms % 1000 == 0 {
        join2(decimal_of(ms / 1000).as_str(), "s")
    } else {
        join2(decimal_of(ms).as_str(), "ms")
    }
}

/// How long a timer has to wait.
pub open spec fn countdown(deadline: Option<u64>, now: u64) -> SegView {
    (match deadline {
        Some(d) => if d > now {
            SegView::mono("next in "@ + seconds_text((d - now) as u64) + "s"@, Tone::Muted)
        } else {
            SegView::mono("due"@, Tone::Accent)
        },
        None => SegView::mono("idle"@, Tone::Muted),
    }).trail()
}

/// How long a timer has to wait.
pub fn countdown_seg(deadline: Option<u64>, now: u64) -> (s: Seg)
    ensures
        s@ == countdown(deadline, now),
{
    match deadline {
        Some(d) => if d > now {
            let secs = print_seconds(d - now);
            Seg::mono(join3("next in ", secs.as_str(), "s").as_str(), Tone::Muted).trail()
        } else {
            Seg::mono("due", Tone::Accent).trail()
        },
        None => Seg::mono("idle", Tone::Muted).trail(),
    }
}

/// When timer `idx` is due first, among the first `n` entries of the queue.
pub open spec fn due_at(queue: Seq<(u64, Vec<usize>)>, idx: usize, n: nat) -> Option<u64>
    decreases n,
{
    if n == 0 {
        None
    } else {
        match due_at(queue, idx, (n - 1) as nat) {
            Some(d) => Some(d),
            None => if queue[n - 1].1@.contains(idx) {
                Some(queue[n - 1].0)
            } else {
                None
            },
        }
    }
}

/// Whether `v` holds `x`.
fn holds(v: &Vec<usize>, x: usize) -> (r: bool)
    ensures
        r == v@.contains(x),
{
    let mut i: usize = 0;
    while i < v.len()
        invariant
            i <= v@.len(),
            forall|j: int| 0 <= j < i ==> v@[j] != x,
        decreases v@.len() - i,
    {
        if v[i] == x {
            return true;
        }
        i += 1;
    }
    false
}

/// When timer `idx` is due first.
fn deadline_of(queue: &Vec<(u64, Vec<usize>)>, idx: usize) -> (r: Option<u64>)
    ensures
        r == due_at(queue@, idx, queue@.len()),
{
    let mut found: Option<u64> = None;
    let mut i: usize = 0;
    while i < queue.len()
        invariant
            i <= queue@.len(),
            found == due_at(queue@, idx, i as nat),
        decreases queue@.len() - i,
    {
        if found.is_none() && holds(&queue[i].1, idx) {
            found = Some(queue[i].0);
        }
        i += 1;
    }
    found
}

/// How often a timer fires.
pub open spec fn interval_text(i: TimerInterval) -> Seq<char> {
    match i {
        TimerInterval::Millis(ms) => millis_text(ms as nat),
        TimerInterval::Variable(name) => "{"@ + name@ + "}"@,
    }
}

/// The row of an action.
pub open spec fn action_row(text: Seq<char>) -> RowView {
    RowView::detail(
        2,
        seq![
            SegView::mono("→"@, Tone::Muted),
            SegView::mono(text, Tone::Muted).elide(),
        ],
    ).maybe_inspect("Action"@, text)
}

/// The row of an action.
fn make_action_row(text: &str) -> (r: Row)
    ensures
        r@ == action_row(text@),
{
    broadcast use lemma_seg_views_push;

    let mut segs: Vec<Seg> = Vec::new();
    segs.push(Seg::mono("→", Tone::Muted));
    segs.push(Seg::mono(text, Tone::Muted).elide());
    let ghost sv = seg_views(segs@);
    proof {
        assert(sv =~= action_row(text@).segs);
    }
    Row::detail(2, segs).maybe_inspect("Action", text)
}

/// The action of an event's reaction.
pub open spec fn block_action(b: EventBlock) -> Action {
    match b {
        EventBlock::Click { action } => action,
        EventBlock::Submit { action } => action,
    }
}

/// The rows of a reaction.
pub open spec fn reaction_rows(node: MizuNode, name: Seq<char>, names: FrozenInterner) -> Seq<
    RowView,
> {
    seq![
        RowView::item(
            1,
            seq![
                SegView::mono(node.primitive.tag(), Tone::Accent),
                SegView::mono("on:"@ + name, Tone::Key),
            ],
        ),
        action_row(action_text(block_action(event_map(node.events)[name]), names)),
    ]
}

/// The rows of a node's first `n` reactions, in the order that `order` lists
/// their events.
pub open spec fn node_reactions(
    node: MizuNode,
    order: Seq<Seq<char>>,
    names: FrozenInterner,
    n: nat,
) -> Seq<RowView>
    decreases n,
{
    if n == 0 {
        Seq::empty()
    } else {
        node_reactions(node, order, names, (n - 1) as nat) + reaction_rows(
            node,
            order[n - 1],
            names,
        )
    }
}

/// The rows of the reactions of the first `n` nodes.
pub open spec fn reactions(
    links: Seq<Link>,
    orders: Seq<Seq<Seq<char>>>,
    names: FrozenInterner,
    n: nat,
) -> Seq<RowView>
    decreases n,
{
    if n == 0 {
        Seq::empty()
    } else {
        reactions(links, orders, names, (n - 1) as nat) + node_reactions(
            links[n - 1].value,
            orders[n - 1],
            names,
            orders[n - 1].len(),
        )
    }
}

/// Number of events in the first `n` lists.
pub open spec fn event_count(orders: Seq<Seq<Seq<char>>>, n: nat) -> nat
    decreases n,
{
    if n == 0 {
        0
    } else {
        event_count(orders, (n - 1) as nat) + orders[n - 1].len()
    }
}

/// Whether `order` lists every event of a node once.
pub open spec fn lists_events(order: Seq<Seq<char>>, node: MizuNode) -> bool {
    order.no_duplicates() && order.to_set() == event_map(node.events).dom()
}

/// Whether `orders` lists the events of every node once.
pub open spec fn lists_all_events(orders: Seq<Seq<Seq<char>>>, links: Seq<Link>) -> bool {
    orders.len() == links.len() && forall|i: int|
        0 <= i < links.len() ==> lists_events(#[trigger] orders[i], links[i].value)
}

/// The lists as sequences of characters.
pub open spec fn list_views(orders: Seq<Vec<String>>) -> Seq<Seq<Seq<char>>> {
    orders.map_values(|v: Vec<String>| text_views(v@))
}

/// The rows of a timer.
pub open spec fn timer_rows(
    t: RootTimer,
    deadline: Option<u64>,
    now: u64,
    names: FrozenInterner,
) -> Seq<RowView> {
    seq![
        RowView::item(
            1,
            seq![
                SegView::mono("every"@, Tone::Key),
                SegView::mono(interval_text(t.interval), Tone::Value),
                countdown(deadline, now),
            ],
        ),
        action_row(action_text(t.action, names)),
    ]
}

/// The row of a logged event.
pub open spec fn event_row(e: EventView) -> RowView {
    RowView::item(
        1,
        seq![
            SegView::mono(padded_right(kind_tag(e.kind), 6), Tone::Key),
            SegView::mono(e.detail, Tone::Value).elide(),
            SegView::mono(timestamp_text(e.at), Tone::Muted).trail(),
        ],
    ).maybe_inspect(trimmed(kind_tag(e.kind)), e.detail)
}

/// The rows of the logged events, newest first.
pub open spec fn activity(events: Seq<EventView>) -> Seq<RowView> {
    Seq::new(events.len(), |i: int| event_row(events[events.len() - 1 - i]))
}

impl<'a> InspectorSources<'a> {
    /// The rows of the first `n` timers.
    pub open spec fn timers_rows(&self, now: u64, n: nat) -> Seq<RowView>
        decreases n,
    {
        if n == 0 {
            Seq::empty()
        } else {
            self.timers_rows(now, (n - 1) as nat) + timer_rows(
                self.root_timers@[n - 1],
                due_at(
                    self.root_timer_queue@,
                    (n - 1) as usize,
                    self.root_timer_queue@.len(),
                ),
                now,
                *self.interner,
            )
        }
    }

    /// The rows of the Events tab at time `now`, with the events of each node
    /// in the order of `orders`.
    pub open spec fn events_tab(&self, orders: Seq<Seq<Seq<char>>>, now: u64) -> Seq<RowView> {
        let links = self.dom.links();
        section("Timers"@, self.root_timers@.len(), "No timers declared."@) + self.timers_rows(
            now,
            self.root_timers@.len(),
        ) + section(
            "Actions"@,
            event_count(orders, links.len()),
            "No event handlers declared."@,
        ) + reactions(links, orders, *self.interner, links.len()) + section(
            "Activity"@,
            self.log@.events.len(),
            "Nothing has happened yet."@,
        ) + activity(self.log@.events)
    }

    /// Whether pending timers are in order, and the actions of timers and nodes
    /// are finite.
    pub open spec fn events_ready(&self) -> bool {
        &&& earliest_first(self.root_timer_queue@)
        &&& forall|i: int|
            0 <= i < self.root_timers@.len() ==> action_ok((#[trigger] self.root_timers@[i]).action)
        &&& forall|i: int, name: Seq<char>|
            0 <= i < self.dom.links().len() && #[trigger] self.dom.links()[i].value.reacts_to(name)
                ==> action_ok(block_action(event_map(self.dom.links()[i].value.events)[name]))
    }
}

/// Adds the rows of a timer.
fn push_timer(
    rows: &mut Vec<Row>,
    t: &RootTimer,
    deadline: Option<u64>,
    now: u64,
    interner: &FrozenInterner,
)
    requires
        action_ok(t.action),
    ensures
        row_views(final(rows)@) == row_views(old(rows)@) + timer_rows(*t, deadline, now, *interner),
{
    broadcast use {lemma_row_views_push, lemma_seg_views_push};

    let interval = match &t.interval {
        TimerInterval::Millis(ms) => fmt_millis(*ms),
        TimerInterval::Variable(name) => join3("{", name.as_str(), "}"),
    };
    let mut segs: Vec<Seg> = Vec::new();
    segs.push(Seg::mono("every", Tone::Key));
    segs.push(Seg::mono(interval.as_str(), Tone::Value));
    segs.push(countdown_seg(deadline, now));
    let ghost sv = seg_views(segs@);
    rows.push(Row::item(1, segs));
    let text = format_action(&t.action, interner);
    rows.push(make_action_row(text.as_str()));
    proof {
        let want = timer_rows(*t, deadline, now, *interner);
        assert(sv =~= want[0].segs);
        assert(row_views(rows@) =~= row_views(old(rows)@) + want);
    }
}

/// Adds the rows of a node's reactions, in the given order.
fn push_reactions(rows: &mut Vec<Row>, node: &MizuNode, order: &Vec<String>, interner: &FrozenInterner)
    requires
        lists_events(text_views(order@), *node),
        forall|name: Seq<char>| #[trigger]
            node.reacts_to(name) ==> action_ok(block_action(event_map(node.events)[name])),
    ensures
        row_views(final(rows)@) == row_views(old(rows)@) + node_reactions(
            *node,
            text_views(order@),
            *interner,
            order@.len(),
        ),
{
    broadcast use {lemma_row_views_push, lemma_seg_views_push};

    let ghost texts = text_views(order@);
    let mut k: usize = 0;
    proof {
        assert(row_views(rows@) + Seq::<RowView>::empty() =~= row_views(rows@));
    }
    while k < order.len()
        invariant
            k <= order@.len(),
            texts == text_views(order@),
            lists_events(texts, *node),
            forall|name: Seq<char>| #[trigger]
                node.reacts_to(name) ==> action_ok(block_action(event_map(node.events)[name])),
            row_views(rows@) == row_views(old(rows)@) + node_reactions(
                *node,
                texts,
                *interner,
                k as nat,
            ),
        decreases order@.len() - k,
    {
        let name = order[k].as_str();
        proof {
            assert(texts[k as int] == name@);
            assert(texts.to_set().contains(name@));
            assert(node.reacts_to(name@));
        }
        let ghost prev = row_views(rows@);
        if let Some(block) = event(&node.events, name) {
            let action = match block {
                EventBlock::Click { action } => action,
                EventBlock::Submit { action } => action,
            };
            let mut segs: Vec<Seg> = Vec::new();
            segs.push(Seg::mono(node.primitive.as_str(), Tone::Accent));
            segs.push(Seg::mono(join2("on:", name).as_str(), Tone::Key));
            let ghost sv = seg_views(segs@);
            rows.push(Row::item(1, segs));
            let text = format_action(action, interner);
            rows.push(make_action_row(text.as_str()));
            proof {
                let want = reaction_rows(*node, name@, *interner);
                assert(sv =~= want[0].segs);
                assert(row_views(rows@) =~= prev + want);
            }
        }
        k += 1;
        proof {
            assert(row_views(rows@) =~= row_views(old(rows)@) + node_reactions(
                *node,
                texts,
                *interner,
                k as nat,
            ));
        }
    }
}

/// The row of a logged event.
fn make_event_row(log: &InspectorLog, e: &EventEntry) -> (r: Row)
    ensures
        r@ == event_row(e@),
{
    broadcast use lemma_seg_views_push;

    let mut segs: Vec<Seg> = Vec::new();
    segs.push(Seg::mono(pad_right(e.kind.tag(), 6).as_str(), Tone::Key));
    segs.push(Seg::mono(e.detail.as_str(), Tone::Value).elide());
    segs.push(Seg::mono(log.fmt_ts(e.at).as_str(), Tone::Muted).trail());
    let ghost sv = seg_views(segs@);
    proof {
        assert(sv =~= event_row(e@).segs);
    }
    Row::item(1, segs).maybe_inspect(trim(e.kind.tag()), e.detail.as_str())
}

/// The rows of the Events tab at time `now`, with the events of each node in
/// the order of `orders`.
pub fn events_rows_in_order(
    src: &InspectorSources<'_>,
    orders: &Vec<Vec<String>>,
    now: u64,
) -> (rows: Vec<Row>)
    requires
        src.events_ready(),
        lists_all_events(list_views(orders@), src.dom.links()),
    ensures
        row_views(rows@) == src.events_tab(list_views(orders@), now),
{
    broadcast use lemma_row_views_push;

    let ghost links = src.dom.links();
    let ghost lists = list_views(orders@);
    let mut rows: Vec<Row> = Vec::new();
    let n = src.root_timers.len();
    push_section(&mut rows, "Timers", n, "No timers declared.");
    let ghost part1 = row_views(rows@);
    let mut i: usize = 0;
    proof {
        assert(part1 =~= section("Timers"@, n as nat, "No timers declared."@));
        assert(part1 + Seq::<RowView>::empty() =~= part1);
    }
    while i < n
        invariant
            i <= n == src.root_timers@.len(),
            src.events_ready(),
            row_views(rows@) == part1 + src.timers_rows(now, i as nat),
        decreases n - i,
    {
        let deadline = deadline_of(src.root_timer_queue, i);
        push_timer(&mut rows, &src.root_timers[i], deadline, now, src.interner);
        i += 1;
        proof {
            assert(row_views(rows@) =~= part1 + src.timers_rows(now, i as nat));
        }
    }
    let mut body: Vec<Row> = Vec::new();
    let mut k: usize = 0;
    proof {
        assert(row_views(body@) =~= Seq::<RowView>::empty());
    }
    while k < orders.len()
        invariant
            k <= orders@.len() == links.len(),
            links == src.dom.links(),
            lists == list_views(orders@),
            lists_all_events(lists, links),
            src.events_ready(),
            row_views(body@) == reactions(links, lists, *src.interner, k as nat),
        decreases orders@.len() - k,
    {
        proof {
            assert(lists[k as int] == text_views(orders@[k as int]@));
            assert(lists_events(lists[k as int], links[k as int].value));
        }
        push_reactions(&mut body, src.dom.value(k), &orders[k], src.interner);
        k += 1;
    }
    proof {
        lemma_two_rows_each(links, lists, *src.interner, orders@.len());
        assert(body@.len() == row_views(body@).len());
    }
    push_section(&mut rows, "Actions", body.len() / 2, "No event handlers declared.");
    let ghost part2 = row_views(rows@);
    let ghost shown = row_views(body@);
    let ghost head = rows@;
    let ghost rest = body@;
    rows.append(&mut body);
    proof {
        assert(rows@ =~= head + rest);
        assert(row_views(rows@) =~= part2 + shown);
    }
    let m = src.log.events.len();
    let ghost events = src.log@.events;
    push_section(&mut rows, "Activity", m, "Nothing has happened yet.");
    let ghost part3 = row_views(rows@);
    let mut x: usize = 0;
    proof {
        assert(activity(events).take(0) =~= Seq::<RowView>::empty());
        assert(part3 + Seq::<RowView>::empty() =~= part3);
    }
    while x < m
        invariant
            x <= m == src.log.events@.len(),
            events == src.log@.events,
            row_views(rows@) == part3 + activity(events).take(x as int),
        decreases m - x,
    {
        let e = &src.log.events[m - 1 - x];
        proof {
            assert(events[m - 1 - x] == e@);
            assert(activity(events).take(x + 1) =~= activity(events).take(x as int).push(
                event_row(e@),
            ));
        }
        let ghost prev = row_views(rows@);
        let r = make_event_row(src.log, e);
        rows.push(r);
        x += 1;
        proof {
            assert(row_views(rows@) == prev.push(r@));
            assert(row_views(rows@) =~= part3 + activity(events).take(x as int));
        }
    }
    proof {
        assert(activity(events).take(m as int) =~= activity(events));
        assert(row_views(rows@) =~= src.events_tab(lists, now));
    }
    rows
}

proof fn lemma_two_rows_each(
    links: Seq<Link>,
    orders: Seq<Seq<Seq<char>>>,
    names: FrozenInterner,
    n: nat,
)
    ensures
        reactions(links, orders, names, n).len() == 2 * event_count(orders, n),
    decreases n,
{
    if n > 0 {
        lemma_two_rows_each(links, orders, names, (n - 1) as nat);
        lemma_two_rows_per_event(links[n - 1].value, orders[n - 1], names, orders[n - 1].len());
    }
}

proof fn lemma_two_rows_per_event(
    node: MizuNode,
    order: Seq<Seq<char>>,
    names: FrozenInterner,
    n: nat,
)
    ensures
        node_reactions(node, order, names, n).len() == 2 * n,
    decreases n,
{
    if n > 0 {
        lemma_two_rows_per_event(node, order, names, (n - 1) as nat);
    }
}

/// The events of every node, each once, in no particular order.
pub fn list_events(dom: &Dom<'_>) -> (orders: Vec<Vec<String>>)
    ensures
        lists_all_events(list_views(orders@), dom.links()),
{
    let mut orders: Vec<Vec<String>> = Vec::new();
    let n = dom.len();
    let mut i: usize = 0;
    while i < n
        invariant
            i <= n == dom.links().len(),
            orders@.len() == i,
            forall|k: int|
                0 <= k < i ==> lists_events(
                    #[trigger] list_views(orders@)[k],
                    dom.links()[k].value,
                ),
        decreases n - i,
    {
        let ghost prev = list_views(orders@);
        orders.push(event_names(&dom.value(i).events));
        proof {
            assert forall|k: int| 0 <= k < i + 1 implies lists_events(
                #[trigger] list_views(orders@)[k],
                dom.links()[k].value,
            ) by {
                if k < i {
                    assert(list_views(orders@)[k] == prev[k]);
                }
            }
        }
        i += 1;
    }
    orders
}

/// The rows of the Events tab at time `now`.
///
/// A node's reactions come in the order in which its event map is walked,
/// which may be any.
pub fn events_rows(src: &InspectorSources<'_>, now: u64) -> (rows: Vec<Row>)
    requires
        src.events_ready(),
    ensures
        exists|orders: Seq<Seq<Seq<char>>>|
            lists_all_events(orders, src.dom.links()) && row_views(rows@)
                == #[trigger] src.events_tab(orders, now),
{
    let orders = list_events(src.dom);
    events_rows_in_order(src, &orders, now)
}

} // verus!
