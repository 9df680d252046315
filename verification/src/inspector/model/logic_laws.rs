//! What holds of the rows of the Logic tab.

use vstd::prelude::*;

use crate::inspector::model::format::owned_text;
use crate::inspector::model::logic_tab::{
    all_symbols, computed_rows, current_value, entry_names, entry_of, flow_rows, fresh,
    function_row, param_texts, plain_symbols, resolved, rows_for, section, sorted_ids,
    value_segment, variable_row, widest,
};
use crate::inspector::model::network_laws::gives;
use crate::inspector::model::row_laws::{
    data, law_named_entries_are_shown, law_sections_are_counted, law_sorting_keeps_every_entry,
    lemma_single_rows, plain_row,
};
use crate::inspector::model::sources::{each_once, ComputedBinding, InspectorSources, MizuFunction};
use crate::inspector::model::types::{Flex, RowKind, Tone};
use crate::logic::{FrozenInterner, Symbol, Value};
use crate::order::{before, name_order};
use crate::text::{decimal, joined, padded_right};

verus! {

/// How a value looks: texts are quoted, and each kind has its tone.
pub open spec fn value_look(v: Value) -> (Seq<char>, Tone) {
    match v {
        Value::String(s) => (seq!['"'] + s@ + seq!['"'], Tone::Value),
        Value::Bool(true) => (seq!['t', 'r', 'u', 'e'], Tone::Good),
        Value::Bool(false) => (seq!['f', 'a', 'l', 's', 'e'], Tone::Muted),
        Value::Null => (seq!['n', 'u', 'l', 'l'], Tone::Muted),
        Value::Other(s) => (s@, Tone::Value),
    }
}

proof fn lemma_value_look(v: Value)
    ensures
        data(value_segment(v), value_look(v).0, value_look(v).1, Flex::Elide),
{
    reveal_strlit("\"");
    reveal_strlit("true");
    reveal_strlit("false");
    reveal_strlit("null");
    assert("\""@ =~= seq!['"']);
    assert("true"@ =~= seq!['t', 'r', 'u', 'e']);
    assert("false"@ =~= seq!['f', 'a', 'l', 's', 'e']);
    assert("null"@ =~= seq!['n', 'u', 'l', 'l']);
}

/// A variable's row shows its name, accented for a while after it changed, and
/// its value, whole when it is clicked if it is long.
pub proof fn law_variables_show_their_value(name: Seq<char>, v: Value, is_new: bool, width: nat)
    ensures
        ({
            let r = variable_row(name, v, is_new, width);
            let (text, tone) = value_look(v);
            &&& plain_row(r, RowKind::Item, 1)
            &&& r.segs.len() == 3
            &&& data(
                r.segs[0],
                padded_right(name, width),
                if is_new {
                    Tone::Accent
                } else {
                    Tone::Key
                },
                Flex::Fixed,
            )
            &&& data(r.segs[1], seq!['='], Tone::Muted, Flex::Fixed)
            &&& data(r.segs[2], text, tone, Flex::Elide)
            &&& text.len() > 28 ==> r.inspect == Some((name, text))
            &&& text.len() <= 28 ==> r.inspect is None
        }),
{
    lemma_value_look(v);
    reveal_strlit("=");
    assert("="@ =~= seq!['=']);
}

proof fn lemma_entry_of<T>(s: Seq<(Symbol, T)>, sym: Symbol, n: nat, i: int)
    requires
        each_once(s),
        n <= s.len(),
    ensures
        entry_of(s, sym, n) == Some(i) <==> 0 <= i < n && s[i].0 == sym,
        entry_of(s, sym, n) is None <==> forall|k: int| 0 <= k < n ==> (#[trigger] s[k]).0 != sym,
    decreases n,
{
    if n > 0 {
        lemma_entry_of(s, sym, (n - 1) as nat, i);
        let found = entry_of(s, sym, (n - 1) as nat);
        if found is Some {
            lemma_entry_of(s, sym, (n - 1) as nat, found->0);
            assert(s[found->0].0 == sym);
        } else {
            if s[n - 1].0 == sym {
                assert(entry_of(s, sym, n) == Some(n - 1));
            }
        }
    }
}

/// A change is fresh for a second and a half.
pub proof fn law_changes_are_fresh_for_a_while(
    changes: Seq<(Symbol, u64)>,
    sym: Symbol,
    now: u64,
    i: int,
)
    requires
        each_once(changes),
    ensures
        0 <= i < changes.len() && changes[i].0 == sym ==> (fresh(changes, sym, now) <==> now
            - changes[i].1 < 1_500_000_000),
        (forall|k: int| 0 <= k < changes.len() ==> (#[trigger] changes[k]).0 != sym) ==> !fresh(
            changes,
            sym,
            now,
        ),
{
    lemma_entry_of(changes, sym, changes.len(), i);
}

/// A derived value shows what its variable holds, or `null` where it has none.
pub proof fn law_derived_values_show_their_variable(
    vars: Seq<(Symbol, Value)>,
    sym: Symbol,
    i: int,
)
    requires
        each_once(vars),
    ensures
        0 <= i < vars.len() && vars[i].0 == sym ==> data(
            current_value(vars, sym),
            value_look(vars[i].1).0,
            value_look(vars[i].1).1,
            Flex::Elide,
        ),
        (forall|k: int| 0 <= k < vars.len() ==> (#[trigger] vars[k]).0 != sym) ==> data(
            current_value(vars, sym),
            seq!['n', 'u', 'l', 'l'],
            Tone::Muted,
            Flex::Fixed,
        ),
{
    lemma_entry_of(vars, sym, vars.len(), i);
    if 0 <= i < vars.len() {
        lemma_value_look(vars[i].1);
    }
    reveal_strlit("null");
    assert("null"@ =~= seq!['n', 'u', 'l', 'l']);
}

/// The names that a derived value depends on are listed in their order, without
/// those that have none.
pub proof fn law_dependencies_keep_their_order(
    deps: Seq<Symbol>,
    names: FrozenInterner,
    sym: Symbol,
)
    ensures
        resolved(Seq::<Symbol>::empty(), names, 0) == Seq::<Seq<char>>::empty(),
        names.named(sym) is Some ==> resolved(deps.push(sym), names, deps.len() + 1) == resolved(
            deps,
            names,
            deps.len(),
        ).push(names.named(sym)->0),
        names.named(sym) is None ==> resolved(deps.push(sym), names, deps.len() + 1) == resolved(
            deps,
            names,
            deps.len(),
        ),
{
    lemma_resolved(deps, deps.push(sym), names, deps.len());
}

proof fn lemma_resolved(a: Seq<Symbol>, b: Seq<Symbol>, names: FrozenInterner, n: nat)
    requires
        n <= a.len() < b.len(),
        forall|i: int| 0 <= i < a.len() ==> #[trigger] a[i] == b[i],
    ensures
        resolved(a, names, n) == resolved(b, names, n),
    decreases n,
{
    if n > 0 {
        lemma_resolved(a, b, names, (n - 1) as nat);
        assert(a[n - 1] == b[n - 1]);
    }
}

/// The rows of a derived value show its name and value, its expression, and
/// where it depends on something, on what.
pub proof fn law_derived_values_show_their_expression(
    cb: ComputedBinding,
    vars: Seq<(Symbol, Value)>,
    names: FrozenInterner,
    is_new: bool,
)
    ensures
        ({
            let r = computed_rows(cb, vars, names, is_new);
            let deps = resolved(cb.depends_on@, names, cb.depends_on@.len());
            let list = joined(deps, seq![',', ' ']);
            &&& r.len() == if deps.len() > 0 {
                3nat
            } else {
                2
            }
            &&& plain_row(r[0], RowKind::Item, 1) && r[0].inspect is None
            &&& r[0].segs.len() == 3
            &&& data(
                r[0].segs[0],
                names.name_of(cb.name),
                if is_new {
                    Tone::Accent
                } else {
                    Tone::Key
                },
                Flex::Fixed,
            )
            &&& r[0].segs[1].text == seq!['=']
            &&& r[0].segs[2] == current_value(vars, cb.name)
            &&& gives(r[1], "Expression"@, owned_text(cb.expr, names))
            &&& data(r[1].segs[0], owned_text(cb.expr, names), Tone::Muted, Flex::Elide)
            &&& deps.len() > 0 ==> {
                &&& plain_row(r[2], RowKind::Detail, 2)
                &&& r[2].segs.len() == 2
                &&& r[2].segs[0].text == "depends on"@
                &&& data(r[2].segs[1], list, Tone::Muted, Flex::Elide)
                &&& list.len() > 28 ==> r[2].inspect == Some(("Depends on"@, list))
                &&& list.len() <= 28 ==> r[2].inspect is None
            }
        }),
{
    reveal_strlit("=");
    reveal_strlit(", ");
    assert("="@ =~= seq!['=']);
    assert(", "@ =~= seq![',', ' ']);
}

/// A function's row shows its name and, in brackets, its parameters with their
/// types in their order.
pub proof fn law_functions_show_their_signature(
    name: Seq<char>,
    f: MizuFunction,
    names: FrozenInterner,
)
    ensures
        ({
            let r = function_row(name, f, names);
            let list = seq!['('] + joined(param_texts(f, names), seq![',', ' ']) + seq![')'];
            &&& plain_row(r, RowKind::Item, 1)
            &&& r.segs.len() == 2
            &&& data(r.segs[0], name, Tone::Value, Flex::Fixed)
            &&& data(r.segs[1], list, Tone::Muted, Flex::Elide)
            &&& (name + list).len() > 28 ==> r.inspect == Some(("Signature"@, name + list))
            &&& (name + list).len() <= 28 ==> r.inspect is None
            &&& param_texts(f, names).len() == f.params@.len()
            &&& forall|i: int|
                0 <= i < f.params@.len() ==> #[trigger] param_texts(f, names)[i]
                    == names.name_of(f.params@[i].0) + seq![':', ' '] + f.params@[i].1@
        }),
{
    reveal_strlit("(");
    reveal_strlit(")");
    reveal_strlit(", ");
    reveal_strlit(": ");
    assert("("@ =~= seq!['(']);
    assert(")"@ =~= seq![')']);
    assert(", "@ =~= seq![',', ' ']);
    assert(": "@ =~= seq![':', ' ']);
}

/// The flow of information is summed up in one row: whether there are
/// violations, and how many sources and sinks there are.
pub proof fn law_the_flow_is_summed_up(sources: usize, sinks: usize, violations: usize)
    ensures
        ({
            let r = flow_rows(Some((sources, sinks, violations)));
            &&& r.len() == 2
            &&& plain_row(r[0], RowKind::Header, 0) && r[0].segs.len() == 1 && r[0].segs[0].text
                == "Information flow"@
            &&& plain_row(r[1], RowKind::Item, 1)
            &&& r[1].segs.len() == 2
            &&& violations == 0 ==> data(
                r[1].segs[0],
                "no violations"@,
                Tone::Good,
                Flex::Fixed,
            )
            &&& violations > 0 ==> data(
                r[1].segs[0],
                decimal(violations as nat) + " violations"@,
                Tone::Bad,
                Flex::Fixed,
            )
            &&& data(
                r[1].segs[1],
                decimal(sources as nat) + " sources · "@ + decimal(sinks as nat) + " sinks"@,
                Tone::Muted,
                Flex::Trailing,
            )
        }),
        ({
            let r = flow_rows(None);
            &&& r.len() == 2
            &&& r[0].segs[0].text == "Information flow"@
            &&& plain_row(r[1], RowKind::Empty, 1)
            &&& r[1].segs[0].text == "Flow metrics not available."@
        }),
{
}

/// The names of the variables that are shown.
pub open spec fn variable_names(src: InspectorSources<'_>) -> Seq<Seq<char>> {
    entry_names(src.variables@, *src.interner, src.shown_variables())
}

/// The variable that stands at place `k` of the list.
pub open spec fn variable_at(src: InspectorSources<'_>, k: int) -> int {
    sorted_ids(src.shown_variables(), variable_names(src))[k]
}

/// Whether a symbol names a derived value.
pub open spec fn derived(src: InspectorSources<'_>, sym: Symbol) -> bool {
    exists|i: int|
        0 <= i < src.computed_bindings@.len() && (#[trigger] src.computed_bindings@[i]).name == sym
}

/// The list of variables has a header that counts them and then one row for
/// each, in the order of their names. Every variable with a name that is no
/// derived value is among them, and nothing else is.
pub proof fn law_every_variable_is_listed(src: InspectorSources<'_>, now: u64, i: int)
    requires
        0 <= i < src.variables@.len(),
    ensures
        ({
            let rows = src.variables_section(now);
            let n = src.shown_variables().len() as int;
            let sym = src.variables@[i].0;
            let shown = src.interner.named(sym) is Some && !derived(src, sym);
            &&& rows[0].segs[0].text == "Variables"@ && rows[0].segs[1].text == decimal(n as nat)
            &&& n > 0 ==> rows.len() == 1 + n
            &&& shown <==> exists|k: int| 0 <= k < n && #[trigger] variable_at(src, k) == i
            &&& forall|k: int|
                0 <= k < n && #[trigger] variable_at(src, k) == i ==> rows[1 + k] == variable_row(
                    src.interner.named(sym)->0,
                    src.variables@[i].1,
                    fresh(src.recent_mutations@, sym, now),
                    widest(variable_names(src), variable_names(src).len()),
                )
            &&& forall|a: int, b: int|
                0 <= a <= b < n ==> !before(
                    src.interner.name_of(src.variables@[#[trigger] variable_at(src, b)].0),
                    src.interner.name_of(src.variables@[#[trigger] variable_at(src, a)].0),
                )
        }),
{
    let ids = src.shown_variables();
    let names = variable_names(src);
    let sorted = sorted_ids(ids, names);
    let row = src.variable_rows(now);
    let rows = src.variables_section(now);
    let n = ids.len();
    let keep = plain_symbols(src.computed_bindings@);
    let sym = src.variables@[i].0;
    law_named_entries_are_shown(src.variables@, *src.interner, keep, src.variables@.len());
    assert(keep(sym) == !derived(src, sym));
    law_sorting_keeps_every_entry(ids, names);
    law_sections_are_counted("Variables"@, n, "This document declares no state."@);
    assert forall|k: int| 0 <= k < n implies row(#[trigger] sorted[k]).len() == 1 by {}
    lemma_single_rows(sorted, row, n);
    let head = section("Variables"@, n, "This document declares no state."@);
    let list = rows_for(sorted, row, n);
    assert(rows == head + list);
    if src.interner.named(sym) is Some && !derived(src, sym) {
        assert(ids.contains(i));
        let p = choose|p: int| 0 <= p < ids.len() && ids[p] == i;
        assert(sorted.contains(ids[p]));
        let k = choose|k: int| 0 <= k < sorted.len() && sorted[k] == i;
        assert(variable_at(src, k) == i);
    }
    assert forall|k: int| 0 <= k < n && #[trigger] variable_at(src, k) == i implies {
        &&& ids.contains(i)
        &&& rows[1 + k] == variable_row(
            src.interner.named(sym)->0,
            src.variables@[i].1,
            fresh(src.recent_mutations@, sym, now),
            widest(variable_names(src), variable_names(src).len()),
        )
    } by {
        assert(ids.contains(sorted[k]));
        assert(rows[1 + k] == list[k]);
    }
    assert forall|a: int, b: int| 0 <= a <= b < n implies !before(
        src.interner.name_of(src.variables@[#[trigger] variable_at(src, b)].0),
        src.interner.name_of(src.variables@[#[trigger] variable_at(src, a)].0),
    ) by {
        let x = name_order(names)[a];
        let y = name_order(names)[b];
        assert(names[x] == src.interner.name_of(src.variables@[ids[x]].0));
        assert(names[y] == src.interner.name_of(src.variables@[ids[y]].0));
    }
}

/// The names of the functions that are shown.
pub open spec fn function_names(src: InspectorSources<'_>) -> Seq<Seq<char>> {
    entry_names(src.logic_fns@, *src.interner, src.shown_functions())
}

/// The function that stands at place `k` of the list.
pub open spec fn function_at(src: InspectorSources<'_>, k: int) -> int {
    sorted_ids(src.shown_functions(), function_names(src))[k]
}

/// The list of functions has a header that counts them and then one row for
/// each, in the order of their names; every function with a name is among them.
/// Where there are functions at all, a last row says that none calls itself.
pub proof fn law_every_function_is_listed(src: InspectorSources<'_>, i: int)
    requires
        0 <= i < src.logic_fns@.len(),
    ensures
        ({
            let rows = src.functions_section();
            let n = src.shown_functions().len() as int;
            let sym = src.logic_fns@[i].0;
            &&& rows[0].segs[0].text == "Functions"@ && rows[0].segs[1].text == decimal(n as nat)
            &&& n > 0 ==> rows.len() == 2 + n
            &&& src.interner.named(sym) is Some <==> exists|k: int|
                0 <= k < n && #[trigger] function_at(src, k) == i
            &&& forall|k: int|
                0 <= k < n && #[trigger] function_at(src, k) == i ==> rows[1 + k] == function_row(
                    src.interner.named(sym)->0,
                    src.logic_fns@[i].1,
                    *src.interner,
                )
            &&& forall|a: int, b: int|
                0 <= a <= b < n ==> !before(
                    src.interner.name_of(src.logic_fns@[#[trigger] function_at(src, b)].0),
                    src.interner.name_of(src.logic_fns@[#[trigger] function_at(src, a)].0),
                )
            &&& plain_row(rows.last(), RowKind::Detail, 1)
            &&& rows.last().segs[0].text == "call graph verified acyclic"@
            &&& rows.last().segs[0].tone == Tone::Good
        }),
{
    let ids = src.shown_functions();
    let names = function_names(src);
    let sorted = sorted_ids(ids, names);
    let row = src.function_rows();
    let rows = src.functions_section();
    let n = ids.len();
    let keep = all_symbols();
    let sym = src.logic_fns@[i].0;
    law_named_entries_are_shown(src.logic_fns@, *src.interner, keep, src.logic_fns@.len());
    assert(keep(sym));
    law_sorting_keeps_every_entry(ids, names);
    law_sections_are_counted("Functions"@, n, "No functions declared."@);
    assert forall|k: int| 0 <= k < n implies row(#[trigger] sorted[k]).len() == 1 by {}
    lemma_single_rows(sorted, row, n);
    let head = section("Functions"@, n, "No functions declared."@);
    let list = rows_for(sorted, row, n);
    assert(rows.len() == head.len() + list.len() + 1);
    assert forall|k: int| 0 <= k < n implies rows[1 + k] == #[trigger] list[k] by {}
    if src.interner.named(sym) is Some {
        assert(ids.contains(i));
        let p = choose|p: int| 0 <= p < ids.len() && ids[p] == i;
        assert(sorted.contains(ids[p]));
        let k = choose|k: int| 0 <= k < sorted.len() && sorted[k] == i;
        assert(function_at(src, k) == i);
    }
    assert forall|k: int| 0 <= k < n && #[trigger] function_at(src, k) == i implies {
        &&& ids.contains(i)
        &&& rows[1 + k] == function_row(
            src.interner.named(sym)->0,
            src.logic_fns@[i].1,
            *src.interner,
        )
    } by {
        assert(ids.contains(sorted[k]));
        assert(rows[1 + k] == list[k]);
    }
    assert forall|a: int, b: int| 0 <= a <= b < n implies !before(
        src.interner.name_of(src.logic_fns@[#[trigger] function_at(src, b)].0),
        src.interner.name_of(src.logic_fns@[#[trigger] function_at(src, a)].0),
    ) by {
        let x = name_order(names)[a];
        let y = name_order(names)[b];
        assert(names[x] == src.interner.name_of(src.logic_fns@[ids[x]].0));
        assert(names[y] == src.interner.name_of(src.logic_fns@[ids[y]].0));
    }
}

/// The number of rows that the first `n` derived values take.
pub open spec fn derived_rows(src: InspectorSources<'_>, now: u64, n: nat) -> nat
    decreases n,
{
    if n == 0 {
        0
    } else {
        derived_rows(src, now, (n - 1) as nat) + computed_rows(
            src.computed_bindings@[n - 1],
            src.variables@,
            *src.interner,
            fresh(src.recent_mutations@, src.computed_bindings@[n - 1].name, now),
        ).len()
    }
}

proof fn lemma_derived(src: InspectorSources<'_>, now: u64, n: nat, i: int)
    requires
        0 <= i < n <= src.computed_bindings@.len(),
    ensures
        ({
            let cb = src.computed_bindings@[i];
            let own = computed_rows(
                cb,
                src.variables@,
                *src.interner,
                fresh(src.recent_mutations@, cb.name, now),
            );
            let from = derived_rows(src, now, i as nat) as int;
            &&& src.bindings_rows(now, n).len() == derived_rows(src, now, n)
            &&& 0 <= from && from + own.len() <= derived_rows(src, now, n)
            &&& src.bindings_rows(now, n).subrange(from, from + own.len()) == own
        }),
    decreases n,
{
    let all = src.bindings_rows(now, n);
    let init = src.bindings_rows(now, (n - 1) as nat);
    let cb = src.computed_bindings@[i];
    let own = computed_rows(
        cb,
        src.variables@,
        *src.interner,
        fresh(src.recent_mutations@, cb.name, now),
    );
    let from = derived_rows(src, now, i as nat) as int;
    lemma_derived_len(src, now, (n - 1) as nat);
    if i < n - 1 {
        lemma_derived(src, now, (n - 1) as nat, i);
        assert(all.subrange(from, from + own.len()) =~= init.subrange(from, from + own.len()));
    } else {
        assert(all.subrange(from, from + own.len()) =~= own);
    }
}

proof fn lemma_derived_len(src: InspectorSources<'_>, now: u64, n: nat)
    requires
        n <= src.computed_bindings@.len(),
    ensures
        src.bindings_rows(now, n).len() == derived_rows(src, now, n),
    decreases n,
{
    if n > 0 {
        lemma_derived_len(src, now, (n - 1) as nat);
    }
}

/// Every derived value is listed with its own rows, in the order of declaration,
/// under a header that counts them.
pub proof fn law_every_derived_value_is_listed(src: InspectorSources<'_>, now: u64, i: int)
    requires
        0 <= i < src.computed_bindings@.len(),
    ensures
        ({
            let rows = src.computed_section(now);
            let cb = src.computed_bindings@[i];
            let own = computed_rows(
                cb,
                src.variables@,
                *src.interner,
                fresh(src.recent_mutations@, cb.name, now),
            );
            let from = 1 + derived_rows(src, now, i as nat) as int;
            &&& rows[0].segs[0].text == "Computed"@
            &&& rows[0].segs[1].text == decimal(src.computed_bindings@.len())
            &&& from + own.len() <= rows.len()
            &&& rows.subrange(from, from + own.len()) == own
        }),
{
    let n = src.computed_bindings@.len();
    lemma_derived(src, now, n, i);
    law_sections_are_counted("Computed"@, n, "No derived values."@);
    let rows = src.computed_section(now);
    let list = src.bindings_rows(now, n);
    let from = derived_rows(src, now, i as nat) as int;
    let cb = src.computed_bindings@[i];
    let own = computed_rows(
        cb,
        src.variables@,
        *src.interner,
        fresh(src.recent_mutations@, cb.name, now),
    );
    assert(rows.subrange(1 + from, 1 + from + own.len()) =~= list.subrange(
        from,
        from + own.len(),
    ));
}

/// The tab shows the flow of information, the variables, the derived values and
/// the functions, in this order and nothing else.
pub proof fn law_the_logic_tab_has_four_parts(
    src: InspectorSources<'_>,
    metrics: Option<(usize, usize, usize)>,
    now: u64,
)
    ensures
        ({
            let rows = src.logic_tab(metrics, now);
            let a = flow_rows(metrics).len() as int;
            let b = a + src.variables_section(now).len();
            let c = b + src.computed_section(now).len();
            &&& rows.len() == c + src.functions_section().len()
            &&& rows.take(a) == flow_rows(metrics)
            &&& rows.subrange(a, b) == src.variables_section(now)
            &&& rows.subrange(b, c) == src.computed_section(now)
            &&& rows.skip(c) == src.functions_section()
        }),
{
    let rows = src.logic_tab(metrics, now);
    let a = flow_rows(metrics).len() as int;
    let b = a + src.variables_section(now).len();
    let c = b + src.computed_section(now).len();
    assert(rows.take(a) =~= flow_rows(metrics));
    assert(rows.subrange(a, b) =~= src.variables_section(now));
    assert(rows.subrange(b, c) =~= src.computed_section(now));
    assert(rows.skip(c) =~= src.functions_section());
}

/// Where there is nothing to list, a section holds its header and a note that
/// says so.
pub proof fn law_empty_sections_say_so(src: InspectorSources<'_>, now: u64)
    ensures
        src.shown_variables().len() == 0 ==> src.variables_section(now).len() == 2
            && src.variables_section(now)[0].segs[0].text == "Variables"@ && src.variables_section(
            now,
        )[1].segs[0].text == "This document declares no state."@,
        src.computed_bindings@.len() == 0 ==> src.computed_section(now).len() == 2
            && src.computed_section(now)[0].segs[0].text == "Computed"@ && src.computed_section(
            now,
        )[1].segs[0].text == "No derived values."@,
        src.logic_fns@.len() == 0 ==> src.functions_section().len() == 2
            && src.functions_section()[0].segs[0].text == "Functions"@
            && src.functions_section()[1].segs[0].text == "No functions declared."@,
        src.shown_endpoints().len() == 0 ==> src.endpoints_section().len() == 2
            && src.endpoints_section()[0].segs[0].text == "Endpoints"@
            && src.endpoints_section()[1].segs[0].text
            == "This document declares no network access."@,
{
    law_sections_are_counted("Variables"@, 0, "This document declares no state."@);
    law_sections_are_counted("Computed"@, 0, "No derived values."@);
    law_sections_are_counted("Functions"@, 0, "No functions declared."@);
    law_sections_are_counted("Endpoints"@, 0, "This document declares no network access."@);
}

} // verus!
