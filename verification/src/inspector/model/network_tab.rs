//! The Network tab: declared addresses, storage, and the request log.

use vstd::prelude::*;

use crate::double::{
    as_double, half_even, nearly_full, round_half_even, shown_percent, storage_percent, to_double,
};
use crate::inspector::log::{
    outcome_tag, timestamp_text, InspectorLog, NetEntry, NetOutcome, NetView, OutcomeView,
};
use crate::inspector::model::logic_tab::{
    all_symbols, entry_names, named_entries, push_section, rows_for, section, sorted_ids, widest,
    widest_of,
};
use crate::inspector::model::sources::{each_once, Endpoint, EndpointKind, InspectorSources};
use crate::inspector::model::types::{
    lemma_row_views_push, lemma_seg_views_push, row_views, seg_views, Row, RowView, Seg, SegView,
    Tone,
};
use crate::order::{ints, name_order, sort_names};
use crate::text::{decimal, decimal_of, join2, join3, pad_right, padded_right, text_views};

verus! {

/// `d / unit` with one digit behind the point.
pub open spec fn tenths_text(d: int, unit: int) -> Seq<char> {
    let t = half_even(10 * d, unit);
    decimal((t / 10) as nat) + "."@ + decimal((t % 10) as nat)
}

/// A byte count in the unit that suits it.
pub open spec fn bytes_text(b: nat) -> Seq<char> {
    let d = as_double(b);
    if d < 1024 {
        decimal(d as nat) + " B"@
    } else if d < 1_048_576 {
        tenths_text(d, 1024) + " KB"@
    } else {
        tenths_text(d, 1_048_576) + " MB"@
    }
}

/// `d / unit` with one digit behind the point.
fn fmt_tenths(d: u128, unit: u128) -> (s: String)
    requires
        1024 <= unit <= 1_048_576,
        d < 1024 * 1024 || unit == 1_048_576,
        d < 0x2_0000_0000_0000_0000,
    ensures
        s@ == tenths_text(d as int, unit as int),
{
    let t = round_half_even(10 * d, unit);
    proof {
        assert((10 * d) as int / unit as int <= 0x14_0000_0000_0000) by (nonlinear_arith)
            requires
                d < 1024 * 1024 || unit == 1_048_576,
                d < 0x2_0000_0000_0000_0000,
                unit >= 1024,
        ;
    }
    let whole = decimal_of((t / 10) as u64);
    let part = decimal_of((t % 10) as u64);
    join3(whole.as_str(), ".", part.as_str())
}

/// Prints a byte count in bytes, kilobytes or megabytes.
pub fn fmt_bytes(b: usize) -> (s: String)
    ensures
        s@ == bytes_text(b as nat),
{
    let d = to_double(b as u64);
    if d < 1024 {
        join2(decimal_of(d as u64).as_str(), " B")
    } else if d < 1_048_576 {
        join2(fmt_tenths(d, 1024).as_str(), " KB")
    } else {
        join2(fmt_tenths(d, 1_048_576).as_str(), " MB")
    }
}

/// What an address is for, in a word.
pub open spec fn endpoint_word(k: EndpointKind) -> Seq<char> {
    match k {
        EndpointKind::Api => "api"@,
        EndpointKind::Media => "media"@,
    }
}

/// The rows of a declared address.
pub open spec fn endpoint_rows(alias: Seq<char>, e: Endpoint, width: nat) -> Seq<RowView> {
    seq![
        RowView::item(
            1,
            seq![
                SegView::mono(padded_right(endpoint_word(e.kind), 5), Tone::Muted),
                SegView::mono(padded_right(alias, width), Tone::Value),
            ],
        ),
        RowView::detail(2, seq![SegView::mono(e.raw_target@, Tone::Muted).middle()]).maybe_inspect(
            "Target"@,
            e.raw_target@,
        ),
    ]
}

/// The rows of the storage budget.
pub open spec fn storage_rows(used: nat, quota: nat) -> Seq<RowView> {
    seq![
        RowView::header("Storage"@),
        RowView::item(
            1,
            seq![
                SegView::mono(bytes_text(used) + " / "@ + bytes_text(quota), Tone::Value),
                SegView::mono(
                    decimal(shown_percent(used, quota) as nat) + "%"@,
                    if nearly_full(used, quota) {
                        Tone::Bad
                    } else {
                        Tone::Muted
                    },
                ).trail(),
            ],
        ),
    ]
}

/// The tone of an outcome.
pub open spec fn outcome_tone(o: OutcomeView) -> Tone {
    match o {
        OutcomeView::Completed => Tone::Good,
        OutcomeView::Failed(_) | OutcomeView::Blocked(_) => Tone::Bad,
        OutcomeView::Pending => Tone::Muted,
        OutcomeView::Redirect => Tone::Accent,
    }
}

/// What is known of a request's duration and size.
pub open spec fn request_metrics(e: NetView) -> Option<Seq<char>> {
    match (e.duration_ms, e.bytes) {
        (Some(ms), Some(b)) => Some(
            decimal(ms as nat) + "ms"@ + " · "@ + bytes_text(b as nat),
        ),
        (Some(ms), None) => Some(decimal(ms as nat) + "ms"@),
        (None, Some(b)) => Some(bytes_text(b as nat)),
        (None, None) => None,
    }
}

/// The rows of a request.
pub open spec fn request_rows(e: NetView) -> Seq<RowView> {
    let head = seq![
        SegView::mono(padded_right(outcome_tag(e.outcome), 8), outcome_tone(e.outcome)),
        SegView::mono(padded_right(e.verb, 5), Tone::Key),
        SegView::mono(timestamp_text(e.at), Tone::Muted),
    ] + match request_metrics(e) {
        Some(m) => seq![SegView::mono(m, Tone::Muted).trail()],
        None => Seq::empty(),
    };
    seq![
        RowView::item(1, head),
        RowView::detail(2, seq![SegView::mono(e.target, Tone::Value).middle()]).maybe_inspect(
            "Target"@,
            e.target,
        ),
    ] + match e.outcome {
        OutcomeView::Failed(reason) | OutcomeView::Blocked(reason) => seq![
            RowView::detail(2, seq![SegView::mono(reason, Tone::Bad).elide()]).maybe_inspect(
                "Reason"@,
                reason,
            ),
        ],
        _ => Seq::empty(),
    }
}

/// The rows of the newest `n` requests, newest first.
pub open spec fn newest_requests(net: Seq<NetView>, n: nat) -> Seq<RowView>
    decreases n,
{
    if n == 0 {
        Seq::empty()
    } else {
        newest_requests(net, (n - 1) as nat) + request_rows(net[net.len() - n])
    }
}

impl<'a> InspectorSources<'a> {
    /// The addresses that are shown: those with a name.
    pub open spec fn shown_endpoints(&self) -> Seq<int> {
        named_entries(
            self.url_registry@,
            *self.interner,
            all_symbols(),
            self.url_registry@.len(),
        )
    }

    /// The rows of the address at position `i`.
    pub open spec fn registry_rows(&self) -> spec_fn(int) -> Seq<RowView> {
        let names = entry_names(self.url_registry@, *self.interner, self.shown_endpoints());
        let width = widest(names, names.len());
        |i: int|
            endpoint_rows(
                self.interner.name_of(self.url_registry@[i].0),
                self.url_registry@[i].1,
                width,
            )
    }

    /// The section of declared addresses, sorted by name.
    pub open spec fn endpoints_section(&self) -> Seq<RowView> {
        let ids = self.shown_endpoints();
        let names = entry_names(self.url_registry@, *self.interner, ids);
        section("Endpoints"@, ids.len(), "This document declares no network access."@) + rows_for(
            sorted_ids(ids, names),
            self.registry_rows(),
            ids.len(),
        )
    }

    /// The section of requests.
    pub open spec fn requests_section(&self) -> Seq<RowView> {
        let net = self.log@.network;
        section("Requests"@, net.len(), "No requests yet."@) + newest_requests(net, net.len())
    }

    /// The rows of the Network tab.
    pub open spec fn network_tab(&self) -> Seq<RowView> {
        self.endpoints_section() + storage_rows(self.bytes_stored as nat, self.quota_bytes as nat)
            + self.requests_section()
    }

    /// Whether every address is listed once.
    pub open spec fn network_ready(&self) -> bool {
        each_once(self.url_registry@)
    }
}

/// Adds the section of declared addresses.
fn push_endpoints(rows: &mut Vec<Row>, src: &InspectorSources<'_>)
    ensures
        row_views(final(rows)@) == row_views(old(rows)@) + src.endpoints_section(),
{
    broadcast use {lemma_row_views_push, lemma_seg_views_push};

    let ghost urls = src.url_registry@;
    let ghost keep = all_symbols();
    let mut ids: Vec<usize> = Vec::new();
    let mut names: Vec<String> = Vec::new();
    let mut i: usize = 0;
    proof {
        assert(ints(ids@) =~= Seq::<int>::empty());
        assert(text_views(names@) =~= entry_names(urls, *src.interner, ints(ids@)));
    }
    while i < src.url_registry.len()
        invariant
            i <= urls.len(),
            urls == src.url_registry@,
            keep == all_symbols(),
            ints(ids@) == named_entries(urls, *src.interner, keep, i as nat),
            text_views(names@) == entry_names(urls, *src.interner, ints(ids@)),
            ids@.len() == names@.len(),
            forall|k: int| 0 <= k < ids@.len() ==> (#[trigger] ids@[k]) < urls.len(),
        decreases urls.len() - i,
    {
        let sym = src.url_registry[i].0;
        if let Some(name) = src.interner.resolve(sym) {
            let ghost ids0 = ids@;
            let ghost names0 = names@;
            ids.push(i);
            names.push(name.to_owned());
            proof {
                assert(ints(ids@) =~= ints(ids0).push(i as int));
                assert(text_views(names@) =~= text_views(names0).push(name@));
                assert(entry_names(urls, *src.interner, ints(ids@)) =~= entry_names(
                    urls,
                    *src.interner,
                    ints(ids0),
                ).push(name@));
            }
        }
        i += 1;
    }
    let n = ids.len();
    let order = sort_names(&names);
    let width = widest_of(&names);
    let ghost all = src.shown_endpoints();
    let ghost texts = entry_names(urls, *src.interner, all);
    let ghost sorted = sorted_ids(all, texts);
    let ghost row = src.registry_rows();
    push_section(rows, "Endpoints", n, "This document declares no network access.");
    let ghost before = row_views(rows@);
    let mut k: usize = 0;
    proof {
        assert(before + Seq::<RowView>::empty() =~= before);
    }
    while k < n
        invariant
            k <= n == ids@.len() == names@.len() == order@.len(),
            urls == src.url_registry@,
            all == src.shown_endpoints(),
            ints(ids@) == all,
            texts == entry_names(urls, *src.interner, all),
            text_views(names@) == texts,
            ints(order@) == name_order(texts),
            sorted == sorted_ids(all, texts),
            row == src.registry_rows(),
            width == widest(texts, texts.len()),
            forall|j: int| 0 <= j < ids@.len() ==> (#[trigger] ids@[j]) < urls.len(),
            forall|j: int| 0 <= j < order@.len() ==> (#[trigger] order@[j]) < n,
            row_views(rows@) == before + rows_for(sorted, row, k as nat),
        decreases n - k,
    {
        let at: usize = order[k];
        let id: usize = ids[at];
        proof {
            assert(ints(order@)[k as int] == at);
            assert(all[at as int] == id);
            assert(sorted[k as int] == id);
            assert(texts[at as int] == names@[at as int]@);
        }
        let e = &src.url_registry[id].1;
        let word: &str = match e.kind {
            EndpointKind::Api => "api",
            EndpointKind::Media => "media",
        };
        let mut head: Vec<Seg> = Vec::new();
        head.push(Seg::mono(pad_right(word, 5).as_str(), Tone::Muted));
        head.push(Seg::mono(pad_right(names[at].as_str(), width).as_str(), Tone::Value));
        let ghost hv = seg_views(head@);
        let mut line: Vec<Seg> = Vec::new();
        line.push(Seg::mono(e.raw_target.as_str(), Tone::Muted).middle());
        let ghost lv = seg_views(line@);
        let ghost prev = row_views(rows@);
        rows.push(Row::item(1, head));
        rows.push(Row::detail(2, line).maybe_inspect("Target", e.raw_target.as_str()));
        k += 1;
        proof {
            let want = row(id as int);
            assert(hv =~= want[0].segs);
            assert(lv =~= want[1].segs);
            assert(row_views(rows@) =~= prev + want);
            assert(row_views(rows@) =~= before + rows_for(sorted, row, k as nat));
        }
    }
    proof {
        assert(row_views(rows@) =~= row_views(old(rows)@) + src.endpoints_section());
    }
}

/// Adds the rows of the storage budget.
fn push_storage(rows: &mut Vec<Row>, used: usize, quota: usize)
    ensures
        row_views(final(rows)@) == row_views(old(rows)@) + storage_rows(used as nat, quota as nat),
{
    broadcast use {lemma_row_views_push, lemma_seg_views_push};

    let (percent, full) = storage_percent(used as u64, quota as u64);
    let mut segs: Vec<Seg> = Vec::new();
    let amounts = join3(fmt_bytes(used).as_str(), " / ", fmt_bytes(quota).as_str());
    segs.push(Seg::mono(amounts.as_str(), Tone::Value));
    let tone = if full {
        Tone::Bad
    } else {
        Tone::Muted
    };
    let share = join2(decimal_of(percent).as_str(), "%");
    segs.push(Seg::mono(share.as_str(), tone).trail());
    let ghost sv = seg_views(segs@);
    rows.push(Row::header("Storage"));
    rows.push(Row::item(1, segs));
    proof {
        let want = storage_rows(used as nat, quota as nat);
        assert(sv =~= want[1].segs);
        assert(row_views(rows@) =~= row_views(old(rows)@) + want);
    }
}

/// Adds the rows of a request.
fn push_request(rows: &mut Vec<Row>, log: &InspectorLog, e: &NetEntry)
    ensures
        row_views(final(rows)@) == row_views(old(rows)@) + request_rows(e@),
{
    broadcast use {lemma_row_views_push, lemma_seg_views_push};

    let ghost want = request_rows(e@);
    let tone = match &e.outcome {
        NetOutcome::Completed => Tone::Good,
        NetOutcome::Failed(_) => Tone::Bad,
        NetOutcome::Blocked(_) => Tone::Bad,
        NetOutcome::Pending => Tone::Muted,
        NetOutcome::Redirect => Tone::Accent,
    };
    let mut head: Vec<Seg> = Vec::new();
    head.push(Seg::mono(pad_right(e.outcome.tag(), 8).as_str(), tone));
    head.push(Seg::mono(pad_right(e.verb.as_str(), 5).as_str(), Tone::Key));
    head.push(Seg::mono(log.fmt_ts(e.at).as_str(), Tone::Muted));
    let metrics: Option<String> = match (e.duration_ms, e.bytes) {
        (Some(ms), Some(b)) => {
            let mut m = join3(decimal_of(ms).as_str(), "ms", " · ");
            m.append(fmt_bytes(b).as_str());
            Some(m)
        },
        (Some(ms), None) => Some(join2(decimal_of(ms).as_str(), "ms")),
        (None, Some(b)) => Some(fmt_bytes(b)),
        (None, None) => None,
    };
    if let Some(m) = &metrics {
        head.push(Seg::mono(m.as_str(), Tone::Muted).trail());
    }
    let ghost hv = seg_views(head@);
    let mut line: Vec<Seg> = Vec::new();
    line.push(Seg::mono(e.target.as_str(), Tone::Value).middle());
    let ghost lv = seg_views(line@);
    rows.push(Row::item(1, head));
    rows.push(Row::detail(2, line).maybe_inspect("Target", e.target.as_str()));
    proof {
        assert(hv =~= want[0].segs);
        assert(lv =~= want[1].segs);
    }
    let reason: Option<&String> = match &e.outcome {
        NetOutcome::Failed(r) => Some(r),
        NetOutcome::Blocked(r) => Some(r),
        _ => None,
    };
    if let Some(r) = reason {
        let mut more: Vec<Seg> = Vec::new();
        more.push(Seg::mono(r.as_str(), Tone::Bad).elide());
        let ghost mv = seg_views(more@);
        rows.push(Row::detail(2, more).maybe_inspect("Reason", r.as_str()));
        proof {
            assert(mv =~= want[2].segs);
        }
    }
    proof {
        assert(row_views(rows@) =~= row_views(old(rows)@) + want);
    }
}

/// The rows of the Network tab.
pub fn network_rows(src: &InspectorSources<'_>) -> (rows: Vec<Row>)
    requires
        src.network_ready(),
    ensures
        row_views(rows@) == src.network_tab(),
{
    let mut rows: Vec<Row> = Vec::new();
    push_endpoints(&mut rows, src);
    push_storage(&mut rows, src.bytes_stored, src.quota_bytes);
    let n = src.log.network.len();
    let ghost net = src.log@.network;
    push_section(&mut rows, "Requests", n, "No requests yet.");
    let ghost before = row_views(rows@);
    let mut k: usize = 0;
    proof {
        assert(before + Seq::<RowView>::empty() =~= before);
    }
    while k < n
        invariant
            k <= n == src.log.network@.len(),
            net == src.log@.network,
            row_views(rows@) == before + newest_requests(net, k as nat),
        decreases n - k,
    {
        let e = &src.log.network[n - 1 - k];
        proof {
            assert(net[n - 1 - k] == e@);
        }
        push_request(&mut rows, src.log, e);
        k += 1;
        proof {
            assert(row_views(rows@) =~= before + newest_requests(net, k as nat));
        }
    }
    proof {
        assert(row_views(rows@) =~= src.network_tab());
    }
    rows
}

} // verus!
