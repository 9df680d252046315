//! What holds of the rows of the Logic, Events and Network tabs.

use vstd::prelude::*;

use crate::inspector::model::events_tab::due_at;
use crate::inspector::model::logic_tab::{
    all_symbols, current_value, entry_names, entry_of, fresh, named_entries, plain_symbols,
    rows_for, sorted_ids, widest,
};
use crate::inspector::model::sources::{earliest_first, each_once, InspectorSources};
use crate::inspector::model::types::RowView;
use crate::logic::{FrozenInterner, Symbol};
use crate::order::{before, law_sorting_orders_the_names, lemma_before_total, name_order};
use crate::text::byte_len;

verus! {

/// A timer's countdown runs to its next firing: no pending entry that holds the
/// timer is due earlier, and a timer without a countdown is in none of them.
pub proof fn law_the_countdown_runs_to_the_next_firing(queue: Seq<(u64, Vec<usize>)>, timer: usize)
    requires
        earliest_first(queue),
    ensures
        match due_at(queue, timer, queue.len()) {
            Some(d) => {
                &&& exists|k: int|
                    0 <= k < queue.len() && (#[trigger] queue[k]).0 == d && queue[k].1@.contains(
                        timer,
                    )
                &&& forall|k: int|
                    0 <= k < queue.len() && (#[trigger] queue[k]).1@.contains(timer) ==> d
                        <= queue[k].0
            },
            None => forall|k: int|
                0 <= k < queue.len() ==> !(#[trigger] queue[k]).1@.contains(timer),
        },
{
    lemma_due_at(queue, timer, queue.len());
}

proof fn lemma_due_at(queue: Seq<(u64, Vec<usize>)>, timer: usize, n: nat)
    requires
        earliest_first(queue),
        n <= queue.len(),
    ensures
        match due_at(queue, timer, n) {
            Some(d) => {
                &&& exists|k: int|
                    0 <= k < n && (#[trigger] queue[k]).0 == d && queue[k].1@.contains(timer)
                &&& forall|k: int|
                    0 <= k < queue.len() && (#[trigger] queue[k]).1@.contains(timer) ==> d
                        <= queue[k].0
            },
            None => forall|k: int| 0 <= k < n ==> !(#[trigger] queue[k]).1@.contains(timer),
        },
    decreases n,
{
    if n > 0 {
        lemma_due_at(queue, timer, (n - 1) as nat);
    }
}

/// Whether `t` lists what `s` lists, in any order.
pub open spec fn rearranged<T>(s: Seq<(Symbol, T)>, t: Seq<(Symbol, T)>) -> bool {
    s.to_multiset() == t.to_multiset()
}

proof fn lemma_rearranged<T>(s: Seq<(Symbol, T)>, t: Seq<(Symbol, T)>)
    requires
        rearranged(s, t),
    ensures
        s.len() == t.len(),
        forall|e: (Symbol, T)| #[trigger] s.contains(e) <==> t.contains(e),
{
    s.to_multiset_ensures();
    t.to_multiset_ensures();
    assert forall|e: (Symbol, T)| #[trigger] s.contains(e) <==> t.contains(e) by {
        assert(s.contains(e) <==> s.to_multiset().count(e) > 0);
        assert(t.contains(e) <==> t.to_multiset().count(e) > 0);
    }
}

/// Where a symbol is found among the entries.
proof fn lemma_entry_of<T>(s: Seq<(Symbol, T)>, sym: Symbol, n: nat)
    requires
        n <= s.len(),
    ensures
        match entry_of(s, sym, n) {
            Some(i) => 0 <= i < n && s[i].0 == sym,
            None => forall|i: int| 0 <= i < n ==> (#[trigger] s[i]).0 != sym,
        },
    decreases n,
{
    if n > 0 {
        lemma_entry_of(s, sym, (n - 1) as nat);
    }
}

/// What is found of a symbol does not depend on the order of the entries.
proof fn lemma_same_entry<T>(s: Seq<(Symbol, T)>, t: Seq<(Symbol, T)>, sym: Symbol)
    requires
        rearranged(s, t),
        each_once(s),
        each_once(t),
    ensures
        match (entry_of(s, sym, s.len()), entry_of(t, sym, t.len())) {
            (Some(i), Some(j)) => s[i] == t[j],
            (None, None) => true,
            _ => false,
        },
{
    lemma_rearranged(s, t);
    lemma_entry_of(s, sym, s.len());
    lemma_entry_of(t, sym, t.len());
    if let Some(i) = entry_of(s, sym, s.len()) {
        assert(s.contains(s[i]));
        let k = t.index_of(s[i]);
        assert(t[k] == s[i]);
    }
    if let Some(j) = entry_of(t, sym, t.len()) {
        assert(t.contains(t[j]));
        assert(s.contains(t[j]));
        let k = s.index_of(t[j]);
        assert(s[k] == t[j]);
    }
}

/// The positions of the entries that are shown.
spec fn shown_ids<T>(
    s: Seq<(Symbol, T)>,
    names: FrozenInterner,
    keep: spec_fn(Symbol) -> bool,
) -> Seq<int> {
    named_entries(s, names, keep, s.len())
}

/// Whether an entry is shown.
spec fn is_shown<T>(e: (Symbol, T), names: FrozenInterner, keep: spec_fn(Symbol) -> bool) -> bool {
    keep(e.0) && names.named(e.0) is Some
}

proof fn lemma_named_entries<T>(
    s: Seq<(Symbol, T)>,
    names: FrozenInterner,
    keep: spec_fn(Symbol) -> bool,
    n: nat,
)
    requires
        n <= s.len(),
    ensures
        ({
            let ids = named_entries(s, names, keep, n);
            &&& forall|k: int|
                0 <= k < ids.len() ==> 0 <= #[trigger] ids[k] < n && is_shown(s[ids[k]], names, keep)
            &&& forall|j: int, k: int| 0 <= j < k < ids.len() ==> #[trigger] ids[j] < #[trigger] ids[k]
            &&& forall|i: int|
                0 <= i < n && is_shown(#[trigger] s[i], names, keep) ==> ids.contains(i)
        }),
    decreases n,
{
    let ids = named_entries(s, names, keep, n);
    if n > 0 {
        let init = named_entries(s, names, keep, (n - 1) as nat);
        lemma_named_entries(s, names, keep, (n - 1) as nat);
        assert forall|i: int| 0 <= i < n && is_shown(#[trigger] s[i], names, keep) implies ids.contains(
            i,
        ) by {
            if i == n - 1 {
                assert(ids[ids.len() - 1] == i);
            } else {
                let k = init.index_of(i);
                assert(ids[k] == i);
            }
        }
    }
}

/// The entries that are shown, in the order in which they are.
spec fn shown_entries<T>(
    s: Seq<(Symbol, T)>,
    names: FrozenInterner,
    keep: spec_fn(Symbol) -> bool,
) -> Seq<(Symbol, T)> {
    let ids = shown_ids(s, names, keep);
    sorted_ids(ids, entry_names(s, names, ids)).map_values(|i: int| s[i])
}

/// Whether the names of the entries ascend.
spec fn names_ascend<T>(s: Seq<(Symbol, T)>, names: FrozenInterner) -> bool {
    forall|j: int, k: int|
        0 <= j < k < s.len() ==> before(
            names.name_of((#[trigger] s[j]).0),
            names.name_of((#[trigger] s[k]).0),
        )
}

/// The entries that are shown stand in the order of their names, and they are
/// all those that are to be shown.
proof fn lemma_shown_entries<T>(
    s: Seq<(Symbol, T)>,
    names: FrozenInterner,
    keep: spec_fn(Symbol) -> bool,
)
    requires
        each_once(s),
        names.valid(),
    ensures
        shown_entries(s, names, keep).len() == shown_ids(s, names, keep).len(),
        names_ascend(shown_entries(s, names, keep), names),
        forall|e: (Symbol, T)| #[trigger]
            shown_entries(s, names, keep).contains(e) <==> s.contains(e) && is_shown(e, names, keep),
{
    let ids = shown_ids(s, names, keep);
    let texts = entry_names(s, names, ids);
    let order = name_order(texts);
    let sorted = sorted_ids(ids, texts);
    let shown = shown_entries(s, names, keep);
    lemma_named_entries(s, names, keep, s.len());
    law_sorting_orders_the_names(texts, texts.len());
    lemma_positions(order);
    assert forall|j: int, k: int| 0 <= j < k < shown.len() implies before(
        names.name_of((#[trigger] shown[j]).0),
        names.name_of((#[trigger] shown[k]).0),
    ) by {
        let x = order[j];
        let y = order[k];
        assert(x != y);
        assert(texts[x] == names.name_of(shown[j].0));
        assert(texts[y] == names.name_of(shown[k].0));
        assert(ids[x] != ids[y]);
        assert(s[ids[x]].0 != s[ids[y]].0);
        assert(names@[s[ids[x]].0.id as int] != names@[s[ids[y]].0.id as int]);
        lemma_before_total(texts[x], texts[y]);
    }
    assert forall|e: (Symbol, T)| #[trigger] shown.contains(e) <==> s.contains(e) && is_shown(
        e,
        names,
        keep,
    ) by {
        if shown.contains(e) {
            let k = shown.index_of(e);
            assert(s[ids[order[k]]] == e);
        }
        if s.contains(e) && is_shown(e, names, keep) {
            let i = s.index_of(e);
            assert(is_shown(s[i], names, keep));
            let m = ids.index_of(i);
            assert(ids.contains(i) && order.contains(m));
            let k = order.index_of(m);
            assert(sorted[k] == ids[order[k]]);
            assert(shown[k] == e);
        }
    }
}

/// A rearrangement of the first numbers holds each of them once.
proof fn lemma_positions(order: Seq<int>)
    requires
        order.to_multiset() == Seq::new(order.len(), |i: int| i).to_multiset(),
    ensures
        order.no_duplicates(),
        forall|i: int| 0 <= i < order.len() ==> order.contains(i),
{
    let first = Seq::new(order.len(), |i: int| i);
    assert(first.no_duplicates());
    first.lemma_multiset_has_no_duplicates();
    order.to_multiset_ensures();
    first.to_multiset_ensures();
    assert forall|i: int| 0 <= i < order.len() implies order.contains(i) by {
        assert(first[i] == i);
        assert(first.to_multiset().count(i) > 0);
        assert(order.to_multiset().count(i) > 0);
    }
    order.lemma_multiset_has_no_duplicates_conv();
}

/// Two lists whose names ascend and that hold the same entries are the same.
proof fn lemma_ascending_unique<T>(
    s: Seq<(Symbol, T)>,
    t: Seq<(Symbol, T)>,
    names: FrozenInterner,
)
    requires
        names_ascend(s, names),
        names_ascend(t, names),
        forall|e: (Symbol, T)| #[trigger] s.contains(e) <==> t.contains(e),
    ensures
        s == t,
    decreases s.len(),
{
    if s.len() == 0 {
        if t.len() > 0 {
            assert(t.contains(t[0]));
            assert(s.contains(t[0]));
        }
        assert(s =~= t);
    } else {
        assert(s.contains(s.last()));
        let p = t.index_of(s.last());
        assert(t.contains(t.last()));
        assert(s.contains(t.last()));
        let q = s.index_of(t.last());
        lemma_before_total(names.name_of(s.last().0), names.name_of(t.last().0));
        lemma_before_total(names.name_of(s.last().0), names.name_of(s.last().0));
        assert(s.last() == t.last()) by {
            if p < t.len() - 1 {
                assert(before(names.name_of(t[p].0), names.name_of(t[t.len() - 1].0)));
                if q < s.len() - 1 {
                    assert(before(names.name_of(s[q].0), names.name_of(s[s.len() - 1].0)));
                }
            }
        }
        let a = s.drop_last();
        let b = t.drop_last();
        assert forall|e: (Symbol, T)| #[trigger] a.contains(e) <==> b.contains(e) by {
            if a.contains(e) {
                let k = a.index_of(e);
                assert(s[k] == e);
                assert(s.contains(e));
                let m = t.index_of(e);
                if m == t.len() - 1 {
                    assert(before(names.name_of(s[k].0), names.name_of(s[s.len() - 1].0)));
                }
                assert(b[m] == e);
            }
            if b.contains(e) {
                let k = b.index_of(e);
                assert(t[k] == e);
                assert(t.contains(e));
                assert(s.contains(e));
                let m = s.index_of(e);
                if m == s.len() - 1 {
                    assert(before(names.name_of(t[k].0), names.name_of(t[t.len() - 1].0)));
                }
                assert(a[m] == e);
            }
        }
        assert(names_ascend(a, names)) by {
            assert forall|j: int, k: int| 0 <= j < k < a.len() implies before(
                names.name_of((#[trigger] a[j]).0),
                names.name_of((#[trigger] a[k]).0),
            ) by {
                assert(a[j] == s[j] && a[k] == s[k]);
            }
        }
        assert(names_ascend(b, names)) by {
            assert forall|j: int, k: int| 0 <= j < k < b.len() implies before(
                names.name_of((#[trigger] b[j]).0),
                names.name_of((#[trigger] b[k]).0),
            ) by {
                assert(b[j] == t[j] && b[k] == t[k]);
            }
        }
        lemma_ascending_unique(a, b, names);
        assert(s =~= a.push(s.last()));
        assert(t =~= b.push(t.last()));
    }
}

/// The entries that are shown do not depend on the order in which all are
/// listed.
proof fn lemma_same_shown<T>(
    s: Seq<(Symbol, T)>,
    t: Seq<(Symbol, T)>,
    names: FrozenInterner,
    keep: spec_fn(Symbol) -> bool,
)
    requires
        rearranged(s, t),
        each_once(s),
        each_once(t),
        names.valid(),
    ensures
        shown_entries(s, names, keep) == shown_entries(t, names, keep),
        shown_ids(s, names, keep).len() == shown_ids(t, names, keep).len(),
{
    lemma_rearranged(s, t);
    lemma_shown_entries(s, names, keep);
    lemma_shown_entries(t, names, keep);
    lemma_ascending_unique(shown_entries(s, names, keep), shown_entries(t, names, keep), names);
}

proof fn lemma_widest(texts: Seq<Seq<char>>, n: nat)
    requires
        n <= texts.len(),
    ensures
        forall|i: int| 0 <= i < n ==> byte_len(#[trigger] texts[i]) <= widest(texts, n),
        widest(texts, n) > 0 ==> exists|i: int|
            0 <= i < n && byte_len(#[trigger] texts[i]) == widest(texts, n),
    decreases n,
{
    if n > 0 {
        lemma_widest(texts, (n - 1) as nat);
    }
}

/// The width of the names does not depend on the order of the entries.
proof fn lemma_same_width<T>(
    s: Seq<(Symbol, T)>,
    t: Seq<(Symbol, T)>,
    names: FrozenInterner,
    keep: spec_fn(Symbol) -> bool,
)
    requires
        rearranged(s, t),
    ensures
        ({
            let a = entry_names(s, names, shown_ids(s, names, keep));
            let b = entry_names(t, names, shown_ids(t, names, keep));
            widest(a, a.len()) == widest(b, b.len())
        }),
{
    lemma_wide_enough(s, t, names, keep);
    lemma_wide_enough(t, s, names, keep);
}

proof fn lemma_wide_enough<T>(
    s: Seq<(Symbol, T)>,
    t: Seq<(Symbol, T)>,
    names: FrozenInterner,
    keep: spec_fn(Symbol) -> bool,
)
    requires
        rearranged(s, t),
    ensures
        ({
            let a = entry_names(s, names, shown_ids(s, names, keep));
            let b = entry_names(t, names, shown_ids(t, names, keep));
            widest(a, a.len()) <= widest(b, b.len())
        }),
{
    let x = shown_ids(s, names, keep);
    let y = shown_ids(t, names, keep);
    let a = entry_names(s, names, x);
    let b = entry_names(t, names, y);
    lemma_rearranged(s, t);
    lemma_named_entries(s, names, keep, s.len());
    lemma_named_entries(t, names, keep, t.len());
    lemma_widest(a, a.len());
    lemma_widest(b, b.len());
    if widest(a, a.len()) > 0 {
        let i = choose|i: int|
            0 <= i < a.len() && byte_len(#[trigger] a[i]) == widest(a, a.len());
        let e = s[x[i]];
        assert(s.contains(e));
        let j = t.index_of(e);
        assert(is_shown(t[j], names, keep));
        let k = y.index_of(j);
        assert(b[k] == a[i]);
    }
}

proof fn lemma_same_rows(
    x: Seq<int>,
    f: spec_fn(int) -> Seq<RowView>,
    y: Seq<int>,
    g: spec_fn(int) -> Seq<RowView>,
    n: nat,
)
    requires
        forall|k: int| 0 <= k < n ==> f(#[trigger] x[k]) == g(y[k]),
    ensures
        rows_for(x, f, n) == rows_for(y, g, n),
    decreases n,
{
    if n > 0 {
        lemma_same_rows(x, f, y, g, (n - 1) as nat);
        assert(f(x[n - 1]) == g(y[n - 1]));
    }
}

/// The Network tab shows the same, in whatever order the addresses are listed.
pub proof fn law_the_network_tab_ignores_the_order(a: InspectorSources<'_>, b: InspectorSources<'_>)
    requires
        a.network_ready(),
        b.network_ready(),
        a.interner.valid(),
        *a.interner == *b.interner,
        rearranged(a.url_registry@, b.url_registry@),
        a.bytes_stored == b.bytes_stored,
        a.quota_bytes == b.quota_bytes,
        a.log@ == b.log@,
    ensures
        a.network_tab() == b.network_tab(),
{
    let s = a.url_registry@;
    let t = b.url_registry@;
    let names = *a.interner;
    let keep = all_symbols();
    lemma_same_shown(s, t, names, keep);
    lemma_same_width(s, t, names, keep);
    let x = shown_ids(s, names, keep);
    let y = shown_ids(t, names, keep);
    let p = sorted_ids(x, entry_names(s, names, x));
    let q = sorted_ids(y, entry_names(t, names, y));
    lemma_shown_entries(s, names, keep);
    lemma_shown_entries(t, names, keep);
    assert forall|k: int| 0 <= k < x.len() implies (a.registry_rows())(#[trigger] p[k]) == (
    b.registry_rows())(q[k]) by {
        assert(shown_entries(s, names, keep)[k] == s[p[k]]);
        assert(shown_entries(t, names, keep)[k] == t[q[k]]);
    }
    lemma_same_rows(p, a.registry_rows(), q, b.registry_rows(), x.len());
}

/// The Logic tab shows the same, in whatever order the variables, their changes
/// and the functions are listed.
pub proof fn law_the_logic_tab_ignores_the_order(
    a: InspectorSources<'_>,
    b: InspectorSources<'_>,
    metrics: Option<(usize, usize, usize)>,
    now: u64,
)
    requires
        a.logic_ready(),
        b.logic_ready(),
        a.interner.valid(),
        *a.interner == *b.interner,
        rearranged(a.variables@, b.variables@),
        rearranged(a.recent_mutations@, b.recent_mutations@),
        rearranged(a.logic_fns@, b.logic_fns@),
        a.computed_bindings@ == b.computed_bindings@,
    ensures
        a.logic_tab(metrics, now) == b.logic_tab(metrics, now),
{
    lemma_same_variables(a, b, now);
    lemma_same_functions(a, b);
    lemma_same_bindings(a, b, now, a.computed_bindings@.len());
}

proof fn lemma_same_variables(a: InspectorSources<'_>, b: InspectorSources<'_>, now: u64)
    requires
        a.logic_ready(),
        b.logic_ready(),
        a.interner.valid(),
        *a.interner == *b.interner,
        rearranged(a.variables@, b.variables@),
        rearranged(a.recent_mutations@, b.recent_mutations@),
        a.computed_bindings@ == b.computed_bindings@,
    ensures
        a.variables_section(now) == b.variables_section(now),
{
    let s = a.variables@;
    let t = b.variables@;
    let names = *a.interner;
    let keep = plain_symbols(a.computed_bindings@);
    lemma_same_shown(s, t, names, keep);
    lemma_same_width(s, t, names, keep);
    let x = shown_ids(s, names, keep);
    let y = shown_ids(t, names, keep);
    let p = sorted_ids(x, entry_names(s, names, x));
    let q = sorted_ids(y, entry_names(t, names, y));
    lemma_shown_entries(s, names, keep);
    lemma_shown_entries(t, names, keep);
    assert forall|k: int| 0 <= k < x.len() implies (a.variable_rows(now))(#[trigger] p[k]) == (
    b.variable_rows(now))(q[k]) by {
        assert(shown_entries(s, names, keep)[k] == s[p[k]]);
        assert(shown_entries(t, names, keep)[k] == t[q[k]]);
        lemma_same_entry(a.recent_mutations@, b.recent_mutations@, s[p[k]].0);
        assert(fresh(a.recent_mutations@, s[p[k]].0, now) == fresh(
            b.recent_mutations@,
            t[q[k]].0,
            now,
        ));
    }
    lemma_same_rows(p, a.variable_rows(now), q, b.variable_rows(now), x.len());
}

proof fn lemma_same_functions(a: InspectorSources<'_>, b: InspectorSources<'_>)
    requires
        a.logic_ready(),
        b.logic_ready(),
        a.interner.valid(),
        *a.interner == *b.interner,
        rearranged(a.logic_fns@, b.logic_fns@),
    ensures
        a.functions_section() == b.functions_section(),
{
    let s = a.logic_fns@;
    let t = b.logic_fns@;
    let names = *a.interner;
    let keep = all_symbols();
    lemma_rearranged(s, t);
    lemma_same_shown(s, t, names, keep);
    let x = shown_ids(s, names, keep);
    let y = shown_ids(t, names, keep);
    let p = sorted_ids(x, entry_names(s, names, x));
    let q = sorted_ids(y, entry_names(t, names, y));
    lemma_shown_entries(s, names, keep);
    lemma_shown_entries(t, names, keep);
    assert forall|k: int| 0 <= k < x.len() implies (a.function_rows())(#[trigger] p[k]) == (
    b.function_rows())(q[k]) by {
        assert(shown_entries(s, names, keep)[k] == s[p[k]]);
        assert(shown_entries(t, names, keep)[k] == t[q[k]]);
    }
    lemma_same_rows(p, a.function_rows(), q, b.function_rows(), x.len());
}

proof fn lemma_same_bindings(a: InspectorSources<'_>, b: InspectorSources<'_>, now: u64, n: nat)
    requires
        a.logic_ready(),
        b.logic_ready(),
        *a.interner == *b.interner,
        rearranged(a.variables@, b.variables@),
        rearranged(a.recent_mutations@, b.recent_mutations@),
        a.computed_bindings@ == b.computed_bindings@,
        n <= a.computed_bindings@.len(),
    ensures
        a.bindings_rows(now, n) == b.bindings_rows(now, n),
    decreases n,
{
    if n > 0 {
        let name = a.computed_bindings@[n - 1].name;
        lemma_same_bindings(a, b, now, (n - 1) as nat);
        lemma_same_entry(a.variables@, b.variables@, name);
        lemma_same_entry(a.recent_mutations@, b.recent_mutations@, name);
        assert(fresh(a.recent_mutations@, name, now) == fresh(b.recent_mutations@, name, now));
        assert(current_value(a.variables@, name) == current_value(b.variables@, name));
    }
}

} // verus!
