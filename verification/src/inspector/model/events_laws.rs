//! What holds of the rows of the Events tab.

use vstd::prelude::*;

use crate::clock::seconds_text;
use crate::dom::{event_map, EventBlock, MizuNode};
use crate::inspector::log::{kind_tag, timestamp_text, EventView};
use crate::inspector::model::events_tab::{
    action_row, activity, countdown, due_at, event_count, event_row, millis_text, node_reactions,
    reaction_rows, reactions, timer_rows,
};
use crate::inspector::model::format::action_text;
use crate::inspector::model::logic_tab::section;
use crate::inspector::model::row_laws::{data, law_sections_are_counted, plain_row};
use crate::inspector::model::sources::{InspectorSources, RootTimer, TimerInterval};
use crate::inspector::model::types::{Flex, RowKind, RowView, Tone};
use crate::logic::{Action, FrozenInterner};
use crate::text::{decimal, padded_right, trimmed};

verus! {

/// A time span is written in whole seconds where it is such, else in
/// milliseconds.
pub proof fn law_spans_are_written_in_their_unit(seconds: nat, ms: nat)
    ensures
        seconds > 0 ==> millis_text(1000 * seconds) == decimal(seconds) + seq!['s'],
        ms < 1000 || ms % 1000 != 0 ==> millis_text(ms) == decimal(ms) + seq!['m', 's'],
{
    reveal_strlit("s");
    reveal_strlit("ms");
    assert("s"@ =~= seq!['s']);
    assert("ms"@ =~= seq!['m', 's']);
    assert((1000 * seconds) / 1000 == seconds && (1000 * seconds) % 1000 == 0);
}

/// A timer that waits says how long still, one that is late that it is due, and
/// one that waits for nothing that it is idle.
pub proof fn law_timers_say_when_they_fire(d: u64, now: u64)
    ensures
        d > now ==> data(
            countdown(Some(d), now),
            "next in "@ + seconds_text((d - now) as u64) + seq!['s'],
            Tone::Muted,
            Flex::Trailing,
        ),
        d <= now ==> data(countdown(Some(d), now), "due"@, Tone::Accent, Flex::Trailing),
        data(countdown(None, now), "idle"@, Tone::Muted, Flex::Trailing),
{
    reveal_strlit("s");
    assert("s"@ =~= seq!['s']);
}

/// Whether a row shows an action: an arrow, and what it does, whole when it is
/// clicked if it is long.
pub open spec fn shows_action(r: RowView, text: Seq<char>) -> bool {
    &&& plain_row(r, RowKind::Detail, 2)
    &&& r.segs.len() == 2
    &&& data(r.segs[0], seq!['→'], Tone::Muted, Flex::Fixed)
    &&& data(r.segs[1], text, Tone::Muted, Flex::Elide)
    &&& text.len() > 28 ==> r.inspect == Some(("Action"@, text))
    &&& text.len() <= 28 ==> r.inspect is None
}

proof fn lemma_action_row(text: Seq<char>)
    ensures
        shows_action(action_row(text), text),
{
    reveal_strlit("→");
    assert("→"@ =~= seq!['→']);
}

/// A timer's rows say how often it fires, when next, and what it does.
pub proof fn law_timers_say_what_they_do(
    t: RootTimer,
    deadline: Option<u64>,
    now: u64,
    names: FrozenInterner,
)
    ensures
        ({
            let r = timer_rows(t, deadline, now, names);
            let often = match t.interval {
                TimerInterval::Millis(ms) => millis_text(ms as nat),
                TimerInterval::Variable(name) => seq!['{'] + name@ + seq!['}'],
            };
            &&& r.len() == 2
            &&& plain_row(r[0], RowKind::Item, 1) && r[0].inspect is None
            &&& r[0].segs.len() == 3
            &&& data(r[0].segs[0], "every"@, Tone::Key, Flex::Fixed)
            &&& data(r[0].segs[1], often, Tone::Value, Flex::Fixed)
            &&& r[0].segs[2] == countdown(deadline, now)
            &&& shows_action(r[1], action_text(t.action, names))
        }),
{
    reveal_strlit("{");
    reveal_strlit("}");
    assert("{"@ =~= seq!['{']);
    assert("}"@ =~= seq!['}']);
    lemma_action_row(action_text(t.action, names));
}

/// A reaction's rows say on which element and to what it reacts, and what it
/// does then.
pub proof fn law_reactions_say_what_they_do(
    node: MizuNode,
    name: Seq<char>,
    names: FrozenInterner,
    action: Action,
)
    requires
        node.reacts_to(name),
        event_map(node.events)[name] == (EventBlock::Click { action }) || event_map(node.events)[name]
            == (EventBlock::Submit { action }),
    ensures
        ({
            let r = reaction_rows(node, name, names);
            &&& r.len() == 2
            &&& plain_row(r[0], RowKind::Item, 1) && r[0].inspect is None
            &&& r[0].segs.len() == 2
            &&& data(r[0].segs[0], node.primitive.tag(), Tone::Accent, Flex::Fixed)
            &&& data(r[0].segs[1], seq!['o', 'n', ':'] + name, Tone::Key, Flex::Fixed)
            &&& shows_action(r[1], action_text(action, names))
        }),
{
    reveal_strlit("on:");
    assert("on:"@ =~= seq!['o', 'n', ':']);
    lemma_action_row(action_text(action, names));
}

/// What happened is shown with its kind, its detail and its time; the detail
/// whole when it is clicked, if it is long.
pub proof fn law_events_say_what_happened(e: EventView)
    ensures
        ({
            let r = event_row(e);
            &&& plain_row(r, RowKind::Item, 1)
            &&& r.segs.len() == 3
            &&& data(r.segs[0], padded_right(kind_tag(e.kind), 6), Tone::Key, Flex::Fixed)
            &&& data(r.segs[1], e.detail, Tone::Value, Flex::Elide)
            &&& data(r.segs[2], timestamp_text(e.at), Tone::Muted, Flex::Trailing)
            &&& e.detail.len() > 28 ==> r.inspect == Some((trimmed(kind_tag(e.kind)), e.detail))
            &&& e.detail.len() <= 28 ==> r.inspect is None
        }),
{
}

/// The newest event stands first: a further one puts its row in front of all
/// others, which stay as they are.
pub proof fn law_the_newest_event_stands_first(events: Seq<EventView>, e: EventView)
    ensures
        activity(Seq::<EventView>::empty()).len() == 0,
        activity(events.push(e)) == seq![event_row(e)] + activity(events),
{
    assert(activity(events.push(e)) =~= seq![event_row(e)] + activity(events));
}

proof fn lemma_timers(src: InspectorSources<'_>, now: u64, n: nat, i: int)
    requires
        0 <= i < n <= src.root_timers@.len(),
    ensures
        src.timers_rows(now, n).len() == 2 * n,
        src.timers_rows(now, n).subrange(2 * i, 2 * i + 2) == timer_rows(
            src.root_timers@[i],
            due_at(src.root_timer_queue@, i as usize, src.root_timer_queue@.len()),
            now,
            *src.interner,
        ),
    decreases n,
{
    let all = src.timers_rows(now, n);
    let init = src.timers_rows(now, (n - 1) as nat);
    if n > 1 {
        lemma_timers(src, now, (n - 1) as nat, if i < n - 1 {
            i
        } else {
            0
        });
    }
    let own = timer_rows(
        src.root_timers@[i],
        due_at(src.root_timer_queue@, i as usize, src.root_timer_queue@.len()),
        now,
        *src.interner,
    );
    if i < n - 1 {
        assert(all.subrange(2 * i, 2 * i + 2) =~= init.subrange(2 * i, 2 * i + 2));
    } else {
        assert(init.len() == 2 * (n - 1));
        assert(all.subrange(2 * i, 2 * i + 2) =~= own);
    }
}

/// Every timer is listed with its own rows and its own next firing, in the order
/// of declaration, under a header that counts them.
pub proof fn law_every_timer_is_listed(
    src: InspectorSources<'_>,
    orders: Seq<Seq<Seq<char>>>,
    now: u64,
    i: int,
)
    requires
        0 <= i < src.root_timers@.len(),
    ensures
        ({
            let rows = src.events_tab(orders, now);
            &&& rows.len() >= 1 + 2 * src.root_timers@.len()
            &&& rows[0].segs[0].text == "Timers"@
            &&& rows[0].segs[1].text == decimal(src.root_timers@.len())
            &&& rows.subrange(1 + 2 * i, 3 + 2 * i) == timer_rows(
                src.root_timers@[i],
                due_at(src.root_timer_queue@, i as usize, src.root_timer_queue@.len()),
                now,
                *src.interner,
            )
        }),
{
    let n = src.root_timers@.len();
    let rows = src.events_tab(orders, now);
    lemma_timers(src, now, n, i);
    law_sections_are_counted("Timers"@, n, "No timers declared."@);
    let list = src.timers_rows(now, n);
    assert(rows.subrange(1 + 2 * i, 3 + 2 * i) =~= list.subrange(2 * i, 2 * i + 2));
}

/// The parts of the Events tab: timers, reactions and what happened, each under
/// a header that counts it.
pub proof fn law_the_events_tab_has_three_parts(
    src: InspectorSources<'_>,
    orders: Seq<Seq<Seq<char>>>,
    now: u64,
)
    ensures
        ({
            let rows = src.events_tab(orders, now);
            let links = src.dom.links();
            let n = src.root_timers@.len();
            let handlers = event_count(orders, links.len());
            let b = (if n == 0 {
                2int
            } else {
                1 + src.timers_rows(now, n).len() as int
            });
            let c = b + (if handlers == 0 {
                2int
            } else {
                1int
            }) + reactions(links, orders, *src.interner, links.len()).len();
            &&& b < rows.len() && c < rows.len()
            &&& rows[b].segs[0].text == "Actions"@ && rows[b].segs[1].text == decimal(handlers)
            &&& rows[c].segs[0].text == "Activity"@ && rows[c].segs[1].text == decimal(
                src.log@.events.len(),
            )
            &&& src.log@.events.len() > 0 ==> rows.skip(c + 1) == activity(src.log@.events)
            &&& src.log@.events.len() == 0 ==> rows.len() == c + 2 && rows[c + 1].segs[0].text
                == "Nothing has happened yet."@
            &&& handlers == 0 ==> rows[b + 1].segs[0].text == "No event handlers declared."@
            &&& n == 0 ==> rows[1].segs[0].text == "No timers declared."@
        }),
{
    let rows = src.events_tab(orders, now);
    let links = src.dom.links();
    let n = src.root_timers@.len();
    let handlers = event_count(orders, links.len());
    let s1 = section("Timers"@, n, "No timers declared."@);
    let s2 = section("Actions"@, handlers, "No event handlers declared."@);
    let s3 = section("Activity"@, src.log@.events.len(), "Nothing has happened yet."@);
    law_sections_are_counted("Timers"@, n, "No timers declared."@);
    law_sections_are_counted("Actions"@, handlers, "No event handlers declared."@);
    law_sections_are_counted("Activity"@, src.log@.events.len(), "Nothing has happened yet."@);
    let t = src.timers_rows(now, n);
    let r = reactions(links, orders, *src.interner, links.len());
    let a = activity(src.log@.events);
    assert(rows == s1 + t + s2 + r + s3 + a);
    if n == 0 {
        assert(t.len() == 0);
        assert(rows[1] == s1[1]);
    }
    let b = (s1.len() + t.len()) as int;
    let c = b + s2.len() + r.len();
    assert(rows[b] == s2[0]);
    assert(rows[c] == s3[0]);
    if handlers == 0 {
        assert(rows[b + 1] == s2[1]);
    }
    if src.log@.events.len() > 0 {
        assert(rows.skip(c + 1) =~= a);
    } else {
        assert(a.len() == 0);
        assert(rows[c + 1] == s3[1]);
    }
}

/// Elements are listed in document order, each with its reactions in theirs:
/// two rows for each reaction, and the header counts them all.
pub proof fn law_reactions_are_counted(
    node: MizuNode,
    order: Seq<Seq<char>>,
    name: Seq<char>,
    names: FrozenInterner,
    orders: Seq<Seq<Seq<char>>>,
)
    ensures
        node_reactions(node, order.push(name), names, order.len() + 1) == node_reactions(
            node,
            order,
            names,
            order.len(),
        ) + reaction_rows(node, name, names),
        node_reactions(node, Seq::<Seq<char>>::empty(), names, 0).len() == 0,
        node_reactions(node, order, names, order.len()).len() == 2 * order.len(),
        event_count(orders.push(order), orders.len() + 1) == event_count(orders, orders.len())
            + order.len(),
        event_count(Seq::<Seq<Seq<char>>>::empty(), 0) == 0,
{
    lemma_reactions_prefix(node, order, order.push(name), names, order.len());
    lemma_reactions_len(node, order, names, order.len());
    lemma_count_prefix(orders, orders.push(order), orders.len());
}

proof fn lemma_reactions_len(node: MizuNode, order: Seq<Seq<char>>, names: FrozenInterner, n: nat)
    ensures
        node_reactions(node, order, names, n).len() == 2 * n,
    decreases n,
{
    if n > 0 {
        lemma_reactions_len(node, order, names, (n - 1) as nat);
    }
}

proof fn lemma_reactions_prefix(
    node: MizuNode,
    a: Seq<Seq<char>>,
    b: Seq<Seq<char>>,
    names: FrozenInterner,
    n: nat,
)
    requires
        n <= a.len() <= b.len(),
        forall|i: int| 0 <= i < a.len() ==> #[trigger] a[i] == b[i],
    ensures
        node_reactions(node, a, names, n) == node_reactions(node, b, names, n),
    decreases n,
{
    if n > 0 {
        lemma_reactions_prefix(node, a, b, names, (n - 1) as nat);
        assert(a[n - 1] == b[n - 1]);
    }
}

proof fn lemma_count_prefix(a: Seq<Seq<Seq<char>>>, b: Seq<Seq<Seq<char>>>, n: nat)
    requires
        n <= a.len() <= b.len(),
        forall|i: int| 0 <= i < a.len() ==> #[trigger] a[i] == b[i],
    ensures
        event_count(a, n) == event_count(b, n),
    decreases n,
{
    if n > 0 {
        lemma_count_prefix(a, b, (n - 1) as nat);
        assert(a[n - 1] == b[n - 1]);
    }
}

/// Whether the reactions of element `i` stand at `from`.
pub open spec fn stands_at(
    src: InspectorSources<'_>,
    orders: Seq<Seq<Seq<char>>>,
    i: int,
    from: int,
) -> bool {
    let all = reactions(src.dom.links(), orders, *src.interner, src.dom.links().len());
    0 <= from && from + 2 * orders[i].len() <= all.len() && all.subrange(
        from,
        from + 2 * orders[i].len(),
    ) == node_reactions(src.dom.links()[i].value, orders[i], *src.interner, orders[i].len())
}

proof fn lemma_reactions_of(
    src: InspectorSources<'_>,
    orders: Seq<Seq<Seq<char>>>,
    n: nat,
    i: int,
) -> (from: int)
    requires
        0 <= i < n <= src.dom.links().len(),
    ensures
        ({
            let all = reactions(src.dom.links(), orders, *src.interner, n);
            &&& all.len() == 2 * event_count(orders, n)
            &&& from == 2 * event_count(orders, i as nat)
            &&& from + 2 * orders[i].len() <= all.len()
            &&& all.subrange(from, from + 2 * orders[i].len()) == node_reactions(
                src.dom.links()[i].value,
                orders[i],
                *src.interner,
                orders[i].len(),
            )
        }),
    decreases n,
{
    let links = src.dom.links();
    let all = reactions(links, orders, *src.interner, n);
    let init = reactions(links, orders, *src.interner, (n - 1) as nat);
    lemma_reactions_len(links[n - 1].value, orders[n - 1], *src.interner, orders[n - 1].len());
    let from = 2 * event_count(orders, i as nat) as int;
    if i < n - 1 {
        let f = lemma_reactions_of(src, orders, (n - 1) as nat, i);
        assert(all.subrange(f, f + 2 * orders[i].len()) =~= init.subrange(
            f,
            f + 2 * orders[i].len(),
        ));
    } else {
        if n > 1 {
            let f = lemma_reactions_of(src, orders, (n - 1) as nat, 0);
        }
        assert(init.len() == from);
        assert(all.subrange(from, from + 2 * orders[i].len()) =~= node_reactions(
            links[i].value,
            orders[i],
            *src.interner,
            orders[i].len(),
        ));
    }
    from
}

/// The reactions of every element are listed, those of earlier elements first.
pub proof fn law_every_reaction_is_listed(
    src: InspectorSources<'_>,
    orders: Seq<Seq<Seq<char>>>,
    i: int,
)
    requires
        0 <= i < src.dom.links().len(),
    ensures
        stands_at(src, orders, i, 2 * event_count(orders, i as nat) as int),
{
    let f = lemma_reactions_of(src, orders, src.dom.links().len(), i);
}

} // verus!
