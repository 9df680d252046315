//! The Logic tab: live variables, derived values and functions.

use vstd::prelude::*;

use crate::inspector::model::format::{format_owned, owned_ok, owned_text};
use crate::inspector::model::sources::{each_once, ComputedBinding, InspectorSources, MizuFunction};
use crate::inspector::model::types::{
    lemma_row_views_push, lemma_seg_views_push, row_views, seg_views, Row, RowView, Seg, SegView,
    Tone,
};
use crate::logic::{FrozenInterner, Symbol, Value};
use crate::order::{ints, name_order, sort_names};
use crate::text::{
    byte_len, byte_length, decimal, decimal_of, join2, join3, join_strings, joined, pad_right,
    padded_right, text_views,
};

verus! {

/// How long a variable that changed stays highlighted, in nanoseconds.
pub const MUTATION_FLASH: u64 = 1_500_000_000;

/// A value as a segment; its tone tells its type.
pub open spec fn value_segment(v: Value) -> SegView {
    (match v {
        Value::String(s) => SegView::mono("\""@ + s@ + "\""@, Tone::Value),
        Value::Bool(true) => SegView::mono("true"@, Tone::Good),
        Value::Bool(false) => SegView::mono("false"@, Tone::Muted),
        Value::Null => SegView::mono("null"@, Tone::Muted),
        Value::Other(s) => SegView::mono(s@, Tone::Value),
    }).elide()
}

/// A value as a segment.
pub fn value_seg(v: &Value) -> (s: Seg)
    ensures
        s@ == value_segment(*v),
{
    match v {
        Value::String(s) => Seg::mono(join3("\"", s.as_str(), "\"").as_str(), Tone::Value).elide(),
        Value::Bool(b) => if *b {
            Seg::mono("true", Tone::Good).elide()
        } else {
            Seg::mono("false", Tone::Muted).elide()
        },
        Value::Null => Seg::mono("null", Tone::Muted).elide(),
        Value::Other(s) => Seg::mono(s.as_str(), Tone::Value).elide(),
    }
}

/// Position of `sym` among the first `n` pairs.
pub open spec fn entry_of<T>(s: Seq<(Symbol, T)>, sym: Symbol, n: nat) -> Option<int>
    decreases n,
{
    if n == 0 {
        None
    } else {
        match entry_of(s, sym, (n - 1) as nat) {
            Some(i) => Some(i),
            None => if s[n - 1].0 == sym {
                Some(n - 1)
            } else {
                None
            },
        }
    }
}

/// Position of `sym` among the pairs.
fn find_symbol<T>(v: &Vec<(Symbol, T)>, sym: Symbol) -> (r: Option<usize>)
    ensures
        match r {
            Some(i) => entry_of(v@, sym, v@.len()) == Some(i as int) && i < v@.len(),
            None => entry_of(v@, sym, v@.len()) is None,
        },
{
    let mut i: usize = 0;
    let mut found: Option<usize> = None;
    while i < v.len()
        invariant
            i <= v@.len(),
            match found {
                Some(j) => entry_of(v@, sym, i as nat) == Some(j as int) && j < v@.len(),
                None => entry_of(v@, sym, i as nat) is None,
            },
        decreases v@.len() - i,
    {
        if found.is_none() && v[i].0 == sym {
            found = Some(i);
        }
        i += 1;
    }
    found
}

/// Whether `sym` changed so recently that it is highlighted.
pub open spec fn fresh(changes: Seq<(Symbol, u64)>, sym: Symbol, now: u64) -> bool {
    match entry_of(changes, sym, changes.len()) {
        Some(i) => now < changes[i].1 + MUTATION_FLASH,
        None => false,
    }
}

/// Whether `sym` changed so recently that it is highlighted.
fn is_fresh(changes: &Vec<(Symbol, u64)>, sym: Symbol, now: u64) -> (r: bool)
    ensures
        r == fresh(changes@, sym, now),
{
    match find_symbol(changes, sym) {
        Some(i) => {
            let at: u64 = changes[i].1;
            now < at || now - at < MUTATION_FLASH
        },
        None => false,
    }
}

/// Whether a derived value has this name.
pub open spec fn is_computed(cbs: Seq<ComputedBinding>, sym: Symbol) -> bool {
    exists|i: int| 0 <= i < cbs.len() && (#[trigger] cbs[i]).name == sym
}

/// Whether a derived value has this name.
fn names_computed(cbs: &Vec<ComputedBinding>, sym: Symbol) -> (r: bool)
    ensures
        r == is_computed(cbs@, sym),
{
    let mut i: usize = 0;
    while i < cbs.len()
        invariant
            i <= cbs@.len(),
            forall|j: int| 0 <= j < i ==> (#[trigger] cbs@[j]).name != sym,
        decreases cbs@.len() - i,
    {
        if cbs[i].name == sym {
            return true;
        }
        i += 1;
    }
    false
}

/// The length in bytes of the longest of the first `n` texts.
pub open spec fn widest(texts: Seq<Seq<char>>, n: nat) -> nat
    decreases n,
{
    if n == 0 {
        0
    } else {
        let w = widest(texts, (n - 1) as nat);
        let l = byte_len(texts[n - 1]);
        if w >= l {
            w
        } else {
            l
        }
    }
}

/// The length in bytes of the longest text.
pub fn widest_of(texts: &Vec<String>) -> (w: usize)
    ensures
        w == widest(text_views(texts@), texts@.len()),
{
    let mut w: usize = 0;
    let mut i: usize = 0;
    while i < texts.len()
        invariant
            i <= texts@.len(),
            w == widest(text_views(texts@), i as nat),
        decreases texts@.len() - i,
    {
        let l = byte_length(texts[i].as_str());
        if l > w {
            w = l;
        }
        i += 1;
    }
    w
}

/// Those of the first `n` pairs that satisfy `keep` and have a name: their
/// positions.
pub open spec fn named_entries<T>(
    s: Seq<(Symbol, T)>,
    names: FrozenInterner,
    keep: spec_fn(Symbol) -> bool,
    n: nat,
) -> Seq<int>
    decreases n,
{
    if n == 0 {
        Seq::empty()
    } else {
        let init = named_entries(s, names, keep, (n - 1) as nat);
        if keep(s[n - 1].0) && names.named(s[n - 1].0) is Some {
            init.push(n - 1)
        } else {
            init
        }
    }
}

/// The names of the pairs at these positions.
pub open spec fn entry_names<T>(
    s: Seq<(Symbol, T)>,
    names: FrozenInterner,
    ids: Seq<int>,
) -> Seq<Seq<char>> {
    ids.map_values(|i: int| names.name_of(s[i].0))
}

/// The positions `ids`, sorted by the names that go with them.
pub open spec fn sorted_ids(ids: Seq<int>, names: Seq<Seq<char>>) -> Seq<int> {
    name_order(names).map_values(|k: int| ids[k])
}

/// The rows made of the positions in turn.
pub open spec fn rows_for(ids: Seq<int>, row: spec_fn(int) -> Seq<RowView>, n: nat) -> Seq<RowView>
    decreases n,
{
    if n == 0 {
        Seq::empty()
    } else {
        rows_for(ids, row, (n - 1) as nat) + row(ids[n - 1])
    }
}

/// The rows of information flow.
pub open spec fn flow_rows(metrics: Option<(usize, usize, usize)>) -> Seq<RowView> {
    seq![
        RowView::header("Information flow"@),
        match metrics {
            Some((sources, sinks, violations)) => RowView::item(
                1,
                seq![
                    if violations == 0 {
                        SegView::mono("no violations"@, Tone::Good)
                    } else {
                        SegView::mono(decimal(violations as nat) + " violations"@, Tone::Bad)
                    },
                    SegView::mono(
                        decimal(sources as nat) + " sources · "@ + decimal(sinks as nat)
                            + " sinks"@,
                        Tone::Muted,
                    ).trail(),
                ],
            ),
            None => RowView::empty(1, "Flow metrics not available."@),
        },
    ]
}

/// The tone of a name.
pub open spec fn name_tone(is_new: bool) -> Tone {
    if is_new {
        Tone::Accent
    } else {
        Tone::Key
    }
}

/// The row of a variable.
pub open spec fn variable_row(name: Seq<char>, v: Value, is_new: bool, width: nat) -> RowView {
    RowView::item(
        1,
        seq![
            SegView::mono(padded_right(name, width), name_tone(is_new)),
            SegView::mono("="@, Tone::Muted),
            value_segment(v),
        ],
    ).maybe_inspect(name, value_segment(v).text)
}

/// The names of those symbols among the first `n` that have one.
pub open spec fn resolved(deps: Seq<Symbol>, names: FrozenInterner, n: nat) -> Seq<Seq<char>>
    decreases n,
{
    if n == 0 {
        Seq::empty()
    } else {
        let init = resolved(deps, names, (n - 1) as nat);
        match names.named(deps[n - 1]) {
            Some(name) => init.push(name),
            None => init,
        }
    }
}

/// The value of a variable as a segment.
pub open spec fn current_value(vars: Seq<(Symbol, Value)>, sym: Symbol) -> SegView {
    match entry_of(vars, sym, vars.len()) {
        Some(i) => value_segment(vars[i].1),
        None => SegView::mono("null"@, Tone::Muted),
    }
}

/// The rows of a derived value.
pub open spec fn computed_rows(
    cb: ComputedBinding,
    vars: Seq<(Symbol, Value)>,
    names: FrozenInterner,
    is_new: bool,
) -> Seq<RowView> {
    let text = owned_text(cb.expr, names);
    let deps = resolved(cb.depends_on@, names, cb.depends_on@.len());
    let deps_text = joined(deps, ", "@);
    seq![
        RowView::item(
            1,
            seq![
                SegView::mono(names.name_of(cb.name), name_tone(is_new)),
                SegView::mono("="@, Tone::Muted),
                current_value(vars, cb.name),
            ],
        ),
        RowView::detail(2, seq![SegView::mono(text, Tone::Muted).elide()]).maybe_inspect(
            "Expression"@,
            text,
        ),
    ] + if deps.len() > 0 {
        seq![
            RowView::detail(
                2,
                seq![
                    SegView::ui("depends on"@, Tone::Muted),
                    SegView::mono(deps_text, Tone::Muted).elide(),
                ],
            ).maybe_inspect("Depends on"@, deps_text),
        ]
    } else {
        Seq::empty()
    }
}

/// The parameters of a function with their types.
pub open spec fn param_texts(f: MizuFunction, names: FrozenInterner) -> Seq<Seq<char>> {
    f.params@.map_values(|p: (Symbol, String)| names.name_of(p.0) + ": "@ + p.1@)
}

/// The row of a function.
pub open spec fn function_row(name: Seq<char>, f: MizuFunction, names: FrozenInterner) -> RowView {
    let list = "("@ + joined(param_texts(f, names), ", "@) + ")"@;
    RowView::item(
        1,
        seq![
            SegView::mono(name, Tone::Value),
            SegView::mono(list, Tone::Muted).elide(),
        ],
    ).maybe_inspect("Signature"@, name + list)
}

/// A section: its header with a count, and a note where it is empty.
pub open spec fn section(title: Seq<char>, n: nat, note: Seq<char>) -> Seq<RowView> {
    seq![RowView::header_n(title, n)] + if n == 0 {
        seq![RowView::empty(1, note)]
    } else {
        Seq::empty()
    }
}

/// Adds a section's header.
pub fn push_section(rows: &mut Vec<Row>, title: &str, n: usize, note: &str)
    ensures
        row_views(final(rows)@) == row_views(old(rows)@) + section(title@, n as nat, note@),
{
    broadcast use lemma_row_views_push;

    rows.push(Row::header_n(title, n));
    if n == 0 {
        rows.push(Row::empty(1, note));
    }
    proof {
        assert(row_views(rows@) =~= row_views(old(rows)@) + section(title@, n as nat, note@));
    }
}

impl<'a> InspectorSources<'a> {
    /// The variables that are shown: those with a name that are not derived.
    pub open spec fn shown_variables(&self) -> Seq<int> {
        named_entries(
            self.variables@,
            *self.interner,
            plain_symbols(self.computed_bindings@),
            self.variables@.len(),
        )
    }

    /// The row of the variable at position `i`.
    pub open spec fn variable_rows(&self, now: u64) -> spec_fn(int) -> Seq<RowView> {
        let ids = self.shown_variables();
        let names = entry_names(self.variables@, *self.interner, ids);
        let width = widest(names, names.len());
        |i: int|
            seq![
                variable_row(
                    self.interner.name_of(self.variables@[i].0),
                    self.variables@[i].1,
                    fresh(self.recent_mutations@, self.variables@[i].0, now),
                    width,
                ),
            ]
    }

    /// The section of variables, sorted by name.
    pub open spec fn variables_section(&self, now: u64) -> Seq<RowView> {
        let ids = self.shown_variables();
        let names = entry_names(self.variables@, *self.interner, ids);
        section("Variables"@, ids.len(), "This document declares no state."@) + rows_for(
            sorted_ids(ids, names),
            self.variable_rows(now),
            ids.len(),
        )
    }

    /// The rows of the first `n` derived values.
    pub open spec fn bindings_rows(&self, now: u64, n: nat) -> Seq<RowView>
        decreases n,
    {
        if n == 0 {
            Seq::empty()
        } else {
            self.bindings_rows(now, (n - 1) as nat) + computed_rows(
                self.computed_bindings@[n - 1],
                self.variables@,
                *self.interner,
                fresh(self.recent_mutations@, self.computed_bindings@[n - 1].name, now),
            )
        }
    }

    /// The section of derived values.
    pub open spec fn computed_section(&self, now: u64) -> Seq<RowView> {
        section("Computed"@, self.computed_bindings@.len(), "No derived values."@)
            + self.bindings_rows(now, self.computed_bindings@.len())
    }

    /// The functions that are shown: those with a name.
    pub open spec fn shown_functions(&self) -> Seq<int> {
        named_entries(
            self.logic_fns@,
            *self.interner,
            all_symbols(),
            self.logic_fns@.len(),
        )
    }

    /// The row of the function at position `i`.
    pub open spec fn function_rows(&self) -> spec_fn(int) -> Seq<RowView> {
        |i: int|
            seq![
                function_row(
                    self.interner.name_of(self.logic_fns@[i].0),
                    self.logic_fns@[i].1,
                    *self.interner,
                ),
            ]
    }

    /// The section of functions, sorted by name.
    pub open spec fn functions_section(&self) -> Seq<RowView> {
        let ids = self.shown_functions();
        let names = entry_names(self.logic_fns@, *self.interner, ids);
        section("Functions"@, ids.len(), "No functions declared."@) + rows_for(
            sorted_ids(ids, names),
            self.function_rows(),
            ids.len(),
        ) + if self.logic_fns@.len() > 0 {
            seq![
                RowView::detail(
                    1,
                    seq![SegView::ui("call graph verified acyclic"@, Tone::Good)],
                ),
            ]
        } else {
            Seq::empty()
        }
    }

    /// The rows of the Logic tab.
    pub open spec fn logic_tab(&self, metrics: Option<(usize, usize, usize)>, now: u64) -> Seq<
        RowView,
    > {
        flow_rows(metrics) + self.variables_section(now) + self.computed_section(now)
            + self.functions_section()
    }

    /// Whether every variable and function is listed once, and the derived
    /// values are finite expressions.
    pub open spec fn logic_ready(&self) -> bool {
        &&& each_once(self.variables@)
        &&& each_once(self.logic_fns@)
        &&& each_once(self.recent_mutations@)
        &&& forall|i: int|
            0 <= i < self.computed_bindings@.len() ==> owned_ok(
                (#[trigger] self.computed_bindings@[i]).expr,
            )
    }
}

/// Symbols that name no derived value.
pub open spec fn plain_symbols(cbs: Seq<ComputedBinding>) -> spec_fn(Symbol) -> bool {
    |sym: Symbol| !is_computed(cbs, sym)
}

/// All symbols.
pub open spec fn all_symbols() -> spec_fn(Symbol) -> bool {
    |sym: Symbol| true
}

/// Adds the rows of information flow.
fn push_flow(rows: &mut Vec<Row>, metrics: Option<(usize, usize, usize)>)
    ensures
        row_views(final(rows)@) == row_views(old(rows)@) + flow_rows(metrics),
{
    broadcast use {lemma_row_views_push, lemma_seg_views_push};

    rows.push(Row::header("Information flow"));
    match metrics {
        Some((sources, sinks, violations)) => {
            let mut segs: Vec<Seg> = Vec::new();
            if violations == 0 {
                segs.push(Seg::mono("no violations", Tone::Good));
            } else {
                let n = decimal_of(violations as u64);
                segs.push(Seg::mono(join2(n.as_str(), " violations").as_str(), Tone::Bad));
            }
            let mut counts = join2(decimal_of(sources as u64).as_str(), " sources · ");
            counts.append(decimal_of(sinks as u64).as_str());
            counts.append(" sinks");
            segs.push(Seg::mono(counts.as_str(), Tone::Muted).trail());
            let ghost sv = seg_views(segs@);
            rows.push(Row::item(1, segs));
            proof {
                assert(sv =~= flow_rows(metrics)[1].segs);
            }
        },
        None => {
            rows.push(Row::empty(1, "Flow metrics not available."));
        },
    }
    proof {
        assert(row_views(rows@) =~= row_views(old(rows)@) + flow_rows(metrics));
    }
}

/// Adds the section of variables.
fn push_variables(rows: &mut Vec<Row>, src: &InspectorSources<'_>, now: u64)
    ensures
        row_views(final(rows)@) == row_views(old(rows)@) + src.variables_section(now),
{
    broadcast use {lemma_row_views_push, lemma_seg_views_push};

    let ghost vars = src.variables@;
    let ghost keep = plain_symbols(src.computed_bindings@);
    let mut ids: Vec<usize> = Vec::new();
    let mut names: Vec<String> = Vec::new();
    let mut i: usize = 0;
    proof {
        assert(ints(ids@) =~= Seq::<int>::empty());
        assert(text_views(names@) =~= entry_names(vars, *src.interner, ints(ids@)));
    }
    while i < src.variables.len()
        invariant
            i <= vars.len(),
            vars == src.variables@,
            keep == plain_symbols(src.computed_bindings@),
            ints(ids@) == named_entries(vars, *src.interner, keep, i as nat),
            text_views(names@) == entry_names(vars, *src.interner, ints(ids@)),
            ids@.len() == names@.len(),
            forall|k: int| 0 <= k < ids@.len() ==> (#[trigger] ids@[k]) < vars.len(),
        decreases vars.len() - i,
    {
        let sym = src.variables[i].0;
        if !names_computed(src.computed_bindings, sym) {
            if let Some(name) = src.interner.resolve(sym) {
                let ghost ids0 = ids@;
                let ghost names0 = names@;
                ids.push(i);
                names.push(name.to_owned());
                proof {
                    assert(ints(ids@) =~= ints(ids0).push(i as int));
                    assert(text_views(names@) =~= text_views(names0).push(name@));
                    assert(entry_names(vars, *src.interner, ints(ids@)) =~= entry_names(
                        vars,
                        *src.interner,
                        ints(ids0),
                    ).push(name@));
                }
            }
        }
        i += 1;
    }
    let n = ids.len();
    let order = sort_names(&names);
    let width = widest_of(&names);
    let ghost all = src.shown_variables();
    let ghost texts = entry_names(vars, *src.interner, all);
    let ghost sorted = sorted_ids(all, texts);
    let ghost row = src.variable_rows(now);
    push_section(rows, "Variables", n, "This document declares no state.");
    let ghost before = row_views(rows@);
    let mut k: usize = 0;
    proof {
        assert(before + Seq::<RowView>::empty() =~= before);
    }
    while k < n
        invariant
            k <= n == ids@.len() == names@.len() == order@.len(),
            vars == src.variables@,
            all == src.shown_variables(),
            ints(ids@) == all,
            texts == entry_names(vars, *src.interner, all),
            text_views(names@) == texts,
            ints(order@) == name_order(texts),
            sorted == sorted_ids(all, texts),
            row == src.variable_rows(now),
            width == widest(texts, texts.len()),
            forall|j: int| 0 <= j < ids@.len() ==> (#[trigger] ids@[j]) < vars.len(),
            forall|j: int| 0 <= j < order@.len() ==> (#[trigger] order@[j]) < n,
            row_views(rows@) == before + rows_for(sorted, row, k as nat),
        decreases n - k,
    {
        let at: usize = order[k];
        let id: usize = ids[at];
        proof {
            assert(ints(order@)[k as int] == at);
            assert(all[at as int] == id);
            assert(sorted[k as int] == id);
            assert(texts[at as int] == names@[at as int]@);
        }
        let name = names[at].as_str();
        let tone = if is_fresh(src.recent_mutations, src.variables[id].0, now) {
            Tone::Accent
        } else {
            Tone::Key
        };
        let value = value_seg(&src.variables[id].1);
        let value_copy = value.text.clone();
        let mut segs: Vec<Seg> = Vec::new();
        segs.push(Seg::mono(pad_right(name, width).as_str(), tone));
        segs.push(Seg::mono("=", Tone::Muted));
        segs.push(value);
        let ghost sv = seg_views(segs@);
        let r = Row::item(1, segs).maybe_inspect(name, value_copy.as_str());
        proof {
            let want = row(id as int)[0];
            assert(sv =~= want.segs);
            assert(r@ == want);
        }
        let ghost prev = row_views(rows@);
        rows.push(r);
        k += 1;
        proof {
            assert(row_views(rows@) =~= prev + row(id as int));
            assert(row_views(rows@) =~= before + rows_for(sorted, row, k as nat));
        }
    }
    proof {
        assert(row_views(rows@) =~= row_views(old(rows)@) + src.variables_section(now));
    }
}

/// Adds the rows of a derived value.
fn push_computed(rows: &mut Vec<Row>, src: &InspectorSources<'_>, cb: &ComputedBinding, now: u64)
    requires
        owned_ok(cb.expr),
    ensures
        row_views(final(rows)@) == row_views(old(rows)@) + computed_rows(
            *cb,
            src.variables@,
            *src.interner,
            fresh(src.recent_mutations@, cb.name, now),
        ),
{
    broadcast use {lemma_row_views_push, lemma_seg_views_push};

    let ghost want = computed_rows(
        *cb,
        src.variables@,
        *src.interner,
        fresh(src.recent_mutations@, cb.name, now),
    );
    let tone = if is_fresh(src.recent_mutations, cb.name, now) {
        Tone::Accent
    } else {
        Tone::Key
    };
    let current = match find_symbol(src.variables, cb.name) {
        Some(i) => value_seg(&src.variables[i].1),
        None => Seg::mono("null", Tone::Muted),
    };
    let mut head: Vec<Seg> = Vec::new();
    head.push(Seg::mono(src.interner.name(cb.name), tone));
    head.push(Seg::mono("=", Tone::Muted));
    head.push(current);
    let ghost hv = seg_views(head@);
    rows.push(Row::item(1, head));
    let text = format_owned(&cb.expr, src.interner);
    let mut line: Vec<Seg> = Vec::new();
    line.push(Seg::mono(text.as_str(), Tone::Muted).elide());
    let ghost lv = seg_views(line@);
    rows.push(Row::detail(2, line).maybe_inspect("Expression", text.as_str()));
    proof {
        assert(hv =~= want[0].segs);
        assert(lv =~= want[1].segs);
    }
    let mut deps: Vec<String> = Vec::new();
    let mut i: usize = 0;
    proof {
        assert(text_views(deps@) =~= Seq::<Seq<char>>::empty());
    }
    while i < cb.depends_on.len()
        invariant
            i <= cb.depends_on@.len(),
            text_views(deps@) == resolved(cb.depends_on@, *src.interner, i as nat),
        decreases cb.depends_on@.len() - i,
    {
        if let Some(name) = src.interner.resolve(cb.depends_on[i]) {
            let ghost prev = deps@;
            deps.push(name.to_owned());
            proof {
                assert(text_views(deps@) =~= text_views(prev).push(name@));
            }
        }
        i += 1;
    }
    proof {
        assert(deps@.len() == text_views(deps@).len());
    }
    if deps.len() > 0 {
        let list = join_strings(&deps, ", ");
        let mut more: Vec<Seg> = Vec::new();
        more.push(Seg::ui("depends on", Tone::Muted));
        more.push(Seg::mono(list.as_str(), Tone::Muted).elide());
        let ghost mv = seg_views(more@);
        rows.push(Row::detail(2, more).maybe_inspect("Depends on", list.as_str()));
        proof {
            assert(mv =~= want[2].segs);
        }
    }
    proof {
        assert(row_views(rows@) =~= row_views(old(rows)@) + want);
    }
}

/// The parameters of a function with their types, in one string.
fn param_list(f: &MizuFunction, interner: &FrozenInterner) -> (s: String)
    ensures
        s@ == joined(param_texts(*f, *interner), ", "@),
{
    let mut parts: Vec<String> = Vec::new();
    let mut i: usize = 0;
    let ghost texts = param_texts(*f, *interner);
    proof {
        assert(text_views(parts@) =~= texts.take(0));
    }
    while i < f.params.len()
        invariant
            i <= f.params@.len(),
            texts == param_texts(*f, *interner),
            text_views(parts@) == texts.take(i as int),
        decreases f.params@.len() - i,
    {
        let ghost prev = parts@;
        let p = join3(interner.name(f.params[i].0), ": ", f.params[i].1.as_str());
        parts.push(p);
        proof {
            assert(text_views(parts@) =~= text_views(prev).push(p@));
            assert(texts.take(i + 1) =~= texts.take(i as int).push(texts[i as int]));
        }
        i += 1;
    }
    proof {
        assert(texts.take(texts.len() as int) =~= texts);
    }
    join_strings(&parts, ", ")
}

/// Adds the section of functions.
fn push_functions(rows: &mut Vec<Row>, src: &InspectorSources<'_>)
    ensures
        row_views(final(rows)@) == row_views(old(rows)@) + src.functions_section(),
{
    broadcast use {lemma_row_views_push, lemma_seg_views_push};

    let ghost fns = src.logic_fns@;
    let ghost keep = all_symbols();
    let mut ids: Vec<usize> = Vec::new();
    let mut names: Vec<String> = Vec::new();
    let mut i: usize = 0;
    proof {
        assert(ints(ids@) =~= Seq::<int>::empty());
        assert(text_views(names@) =~= entry_names(fns, *src.interner, ints(ids@)));
    }
    while i < src.logic_fns.len()
        invariant
            i <= fns.len(),
            fns == src.logic_fns@,
            keep == all_symbols(),
            ints(ids@) == named_entries(fns, *src.interner, keep, i as nat),
            text_views(names@) == entry_names(fns, *src.interner, ints(ids@)),
            ids@.len() == names@.len(),
            forall|k: int| 0 <= k < ids@.len() ==> (#[trigger] ids@[k]) < fns.len(),
        decreases fns.len() - i,
    {
        let sym = src.logic_fns[i].0;
        if let Some(name) = src.interner.resolve(sym) {
            let ghost ids0 = ids@;
            let ghost names0 = names@;
            ids.push(i);
            names.push(name.to_owned());
            proof {
                assert(ints(ids@) =~= ints(ids0).push(i as int));
                assert(text_views(names@) =~= text_views(names0).push(name@));
                assert(entry_names(fns, *src.interner, ints(ids@)) =~= entry_names(
                    fns,
                    *src.interner,
                    ints(ids0),
                ).push(name@));
            }
        }
        i += 1;
    }
    let n = ids.len();
    let order = sort_names(&names);
    let ghost all = src.shown_functions();
    let ghost texts = entry_names(fns, *src.interner, all);
    let ghost sorted = sorted_ids(all, texts);
    let ghost row = src.function_rows();
    push_section(rows, "Functions", n, "No functions declared.");
    let ghost before = row_views(rows@);
    let mut k: usize = 0;
    proof {
        assert(before + Seq::<RowView>::empty() =~= before);
    }
    while k < n
        invariant
            k <= n == ids@.len() == names@.len() == order@.len(),
            fns == src.logic_fns@,
            all == src.shown_functions(),
            ints(ids@) == all,
            texts == entry_names(fns, *src.interner, all),
            text_views(names@) == texts,
            ints(order@) == name_order(texts),
            sorted == sorted_ids(all, texts),
            row == src.function_rows(),
            forall|j: int| 0 <= j < ids@.len() ==> (#[trigger] ids@[j]) < fns.len(),
            forall|j: int| 0 <= j < order@.len() ==> (#[trigger] order@[j]) < n,
            row_views(rows@) == before + rows_for(sorted, row, k as nat),
        decreases n - k,
    {
        let at: usize = order[k];
        let id: usize = ids[at];
        proof {
            assert(ints(order@)[k as int] == at);
            assert(all[at as int] == id);
            assert(sorted[k as int] == id);
            assert(texts[at as int] == names@[at as int]@);
        }
        let name = names[at].as_str();
        let params = param_list(&src.logic_fns[id].1, src.interner);
        let list = join3("(", params.as_str(), ")");
        let mut segs: Vec<Seg> = Vec::new();
        segs.push(Seg::mono(name, Tone::Value));
        segs.push(Seg::mono(list.as_str(), Tone::Muted).elide());
        let ghost sv = seg_views(segs@);
        let signature = join2(name, list.as_str());
        let r = Row::item(1, segs).maybe_inspect("Signature", signature.as_str());
        proof {
            let want = row(id as int)[0];
            assert(sv =~= want.segs);
            assert(r@ == want);
        }
        let ghost prev = row_views(rows@);
        rows.push(r);
        k += 1;
        proof {
            assert(row_views(rows@) =~= prev + row(id as int));
            assert(row_views(rows@) =~= before + rows_for(sorted, row, k as nat));
        }
    }
    if src.logic_fns.len() > 0 {
        let mut segs: Vec<Seg> = Vec::new();
        segs.push(Seg::ui("call graph verified acyclic", Tone::Good));
        let ghost sv = seg_views(segs@);
        rows.push(Row::detail(1, segs));
        proof {
            assert(sv =~= seq![SegView::ui("call graph verified acyclic"@, Tone::Good)]);
        }
    }
    proof {
        assert(row_views(rows@) =~= row_views(old(rows)@) + src.functions_section());
    }
}

/// The rows of the Logic tab at time `now`.
pub fn logic_rows(
    src: &InspectorSources<'_>,
    flow_metrics: Option<(usize, usize, usize)>,
    now: u64,
) -> (rows: Vec<Row>)
    requires
        src.logic_ready(),
    ensures
        row_views(rows@) == src.logic_tab(flow_metrics, now),
{
    let mut rows: Vec<Row> = Vec::new();
    push_flow(&mut rows, flow_metrics);
    push_variables(&mut rows, src, now);
    let n = src.computed_bindings.len();
    push_section(&mut rows, "Computed", n, "No derived values.");
    let ghost before = row_views(rows@);
    let mut i: usize = 0;
    proof {
        assert(before + Seq::<RowView>::empty() =~= before);
    }
    while i < n
        invariant
            i <= n == src.computed_bindings@.len(),
            src.logic_ready(),
            row_views(rows@) == before + src.bindings_rows(now, i as nat),
        decreases n - i,
    {
        push_computed(&mut rows, src, &src.computed_bindings[i], now);
        i += 1;
        proof {
            assert(row_views(rows@) =~= before + src.bindings_rows(now, i as nat));
        }
    }
    push_functions(&mut rows, src);
    proof {
        assert(row_views(rows@) =~= src.logic_tab(flow_metrics, now));
    }
    rows
}

} // verus!
