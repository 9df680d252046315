//! What holds of the rows of the Network tab.

use vstd::prelude::*;

use crate::double::{as_double, half_even, shown_percent, nearly_full};
use crate::double::laws::{law_doubles_are_close, law_rounding_goes_to_the_nearest};
use crate::inspector::log::{timestamp_text, NetView, OutcomeView};
use crate::inspector::model::logic_tab::{
    all_symbols, entry_names, rows_for, section, sorted_ids, widest,
};
use crate::inspector::model::network_tab::{
    bytes_text, endpoint_rows, newest_requests, request_rows, storage_rows,
};
use crate::inspector::model::row_laws::{
    data, law_named_entries_are_shown, law_sections_are_counted, law_sorting_keeps_every_entry,
    lemma_double_rows, plain_row,
};
use crate::inspector::model::sources::{Endpoint, EndpointKind, InspectorSources};
use crate::inspector::model::types::{Flex, RowKind, RowView, Tone};
use crate::order::{before, name_order};
use crate::text::{decimal, padded_right};

verus! {

/// Whether a row gives one text, whole when it is clicked if it is long.
pub open spec fn gives(r: RowView, title: Seq<char>, text: Seq<char>) -> bool {
    &&& plain_row(r, RowKind::Detail, 2)
    &&& r.segs.len() == 1
    &&& r.segs[0].text == text
    &&& text.len() > 28 ==> r.inspect == Some((title, text))
    &&& text.len() <= 28 ==> r.inspect is None
}

/// A request that failed or was blocked has a third row, which says why; any
/// other request has two.
pub proof fn law_requests_say_why_they_failed(e: NetView, reason: Seq<char>)
    ensures
        e.outcome == OutcomeView::Failed(reason) || e.outcome == OutcomeView::Blocked(reason) ==> {
            &&& request_rows(e).len() == 3
            &&& gives(request_rows(e)[2], "Reason"@, reason)
            &&& data(request_rows(e)[2].segs[0], reason, Tone::Bad, Flex::Elide)
        },
        e.outcome is Pending || e.outcome is Completed || e.outcome is Redirect ==> request_rows(
            e,
        ).len() == 2,
{
}

/// How an outcome is written, and in which tone.
pub open spec fn outcome_word(o: OutcomeView) -> (Seq<char>, Tone) {
    match o {
        OutcomeView::Pending => (seq!['…'], Tone::Muted),
        OutcomeView::Completed => (seq!['o', 'k'], Tone::Good),
        OutcomeView::Redirect => (seq!['-', '>'], Tone::Accent),
        OutcomeView::Failed(_) => (seq!['E', 'R', 'R'], Tone::Bad),
        OutcomeView::Blocked(_) => (seq!['B', 'L', 'O', 'C', 'K', 'E', 'D'], Tone::Bad),
    }
}

/// The first row of a request says what became of it, what it was and when, and
/// the second where it went.
pub proof fn law_requests_say_what_became_of_them(e: NetView)
    ensures
        ({
            let r = request_rows(e);
            let (word, tone) = outcome_word(e.outcome);
            &&& plain_row(r[0], RowKind::Item, 1)
            &&& r[0].inspect is None
            &&& r[0].segs.len() >= 3
            &&& data(r[0].segs[0], padded_right(word, 8), tone, Flex::Fixed)
            &&& data(r[0].segs[1], padded_right(e.verb, 5), Tone::Key, Flex::Fixed)
            &&& data(r[0].segs[2], timestamp_text(e.at), Tone::Muted, Flex::Fixed)
            &&& gives(r[1], "Target"@, e.target)
            &&& data(r[1].segs[0], e.target, Tone::Value, Flex::ElideMiddle)
        }),
{
    reveal_strlit("…");
    reveal_strlit("ok");
    reveal_strlit("->");
    reveal_strlit("ERR");
    reveal_strlit("BLOCKED");
    assert("…"@ =~= seq!['…']);
    assert("ok"@ =~= seq!['o', 'k']);
    assert("->"@ =~= seq!['-', '>']);
    assert("ERR"@ =~= seq!['E', 'R', 'R']);
    assert("BLOCKED"@ =~= seq!['B', 'L', 'O', 'C', 'K', 'E', 'D']);
}

/// What is known of a request's duration and size stands at the right edge of
/// its first row; where neither is known nothing does.
pub proof fn law_requests_say_how_long_they_took(e: NetView)
    ensures
        ({
            let r = request_rows(e);
            let ms = decimal(e.duration_ms->0 as nat) + seq!['m', 's'];
            let size = bytes_text(e.bytes->0 as nat);
            &&& e.duration_ms is None && e.bytes is None <==> r[0].segs.len() == 3
            &&& r[0].segs.len() <= 4
            &&& e.duration_ms is Some && e.bytes is Some ==> data(
                r[0].segs[3],
                ms + seq![' ', '·', ' '] + size,
                Tone::Muted,
                Flex::Trailing,
            )
            &&& e.duration_ms is Some && e.bytes is None ==> data(
                r[0].segs[3],
                ms,
                Tone::Muted,
                Flex::Trailing,
            )
            &&& e.duration_ms is None && e.bytes is Some ==> data(
                r[0].segs[3],
                size,
                Tone::Muted,
                Flex::Trailing,
            )
        }),
{
    reveal_strlit("ms");
    reveal_strlit(" · ");
    assert("ms"@ =~= seq!['m', 's']);
    assert(" · "@ =~= seq![' ', '·', ' ']);
}

proof fn lemma_older_requests(net: Seq<NetView>, e: NetView, n: nat)
    requires
        n <= net.len(),
    ensures
        newest_requests(net.push(e), n + 1) == request_rows(e) + newest_requests(net, n),
    decreases n,
{
    let more = net.push(e);
    if n == 0 {
        assert(newest_requests(more, 0) =~= Seq::<RowView>::empty());
        assert(newest_requests(more, 1) =~= request_rows(e) + newest_requests(net, 0));
    } else {
        lemma_older_requests(net, e, (n - 1) as nat);
        assert(more[more.len() - (n + 1)] == net[net.len() - n]);
        assert(newest_requests(more, n + 1) =~= request_rows(e) + newest_requests(net, n));
    }
}

/// The newest request stands first: a further one puts its rows in front of all
/// others, which stay as they are.
pub proof fn law_the_newest_request_stands_first(net: Seq<NetView>, e: NetView)
    ensures
        newest_requests(Seq::<NetView>::empty(), 0) == Seq::<RowView>::empty(),
        newest_requests(net.push(e), net.len() + 1) == request_rows(e) + newest_requests(
            net,
            net.len(),
        ),
{
    lemma_older_requests(net, e, net.len());
}

/// The rows of a declared address say what it is for, its name, and where it
/// goes.
pub proof fn law_endpoints_say_where_they_go(alias: Seq<char>, e: Endpoint, width: nat)
    ensures
        ({
            let r = endpoint_rows(alias, e, width);
            let word = match e.kind {
                EndpointKind::Api => seq!['a', 'p', 'i'],
                EndpointKind::Media => seq!['m', 'e', 'd', 'i', 'a'],
            };
            &&& r.len() == 2
            &&& plain_row(r[0], RowKind::Item, 1)
            &&& r[0].inspect is None
            &&& r[0].segs.len() == 2
            &&& data(r[0].segs[0], padded_right(word, 5), Tone::Muted, Flex::Fixed)
            &&& data(r[0].segs[1], padded_right(alias, width), Tone::Value, Flex::Fixed)
            &&& gives(r[1], "Target"@, e.raw_target@)
            &&& data(r[1].segs[0], e.raw_target@, Tone::Muted, Flex::ElideMiddle)
        }),
{
    reveal_strlit("api");
    reveal_strlit("media");
    assert("api"@ =~= seq!['a', 'p', 'i']);
    assert("media"@ =~= seq!['m', 'e', 'd', 'i', 'a']);
}

/// The budget row says how much is stored of how much, and which share that is,
/// in a warning tone where little room is left.
pub proof fn law_storage_says_how_much_is_left(used: nat, quota: nat)
    ensures
        ({
            let r = storage_rows(used, quota);
            &&& r.len() == 2
            &&& plain_row(r[0], RowKind::Header, 0)
            &&& r[0].segs.len() == 1 && r[0].segs[0].text == "Storage"@
            &&& plain_row(r[1], RowKind::Item, 1)
            &&& r[1].segs.len() == 2
            &&& data(
                r[1].segs[0],
                bytes_text(used) + seq![' ', '/', ' '] + bytes_text(quota),
                Tone::Value,
                Flex::Fixed,
            )
            &&& data(
                r[1].segs[1],
                decimal(shown_percent(used, quota) as nat) + seq!['%'],
                if nearly_full(used, quota) {
                    Tone::Bad
                } else {
                    Tone::Muted
                },
                Flex::Trailing,
            )
        }),
{
    reveal_strlit(" / ");
    reveal_strlit("%");
    assert(" / "@ =~= seq![' ', '/', ' ']);
    assert("%"@ =~= seq!['%']);
}

/// A byte count is written in bytes below a kilobyte, in tenths of kilobytes
/// below a megabyte, and in tenths of megabytes from there, each to the nearest
/// tenth.
pub proof fn law_byte_counts_are_written_in_their_unit(b: nat) -> (tenths: int)
    ensures
        tenths >= 0,
        b < 1024 ==> bytes_text(b) == decimal(b) + seq![' ', 'B'],
        1024 <= b < 1_048_576 ==> {
            &&& bytes_text(b) == decimal((tenths / 10) as nat) + seq!['.'] + decimal(
                (tenths % 10) as nat,
            ) + seq![' ', 'K', 'B']
            &&& -1024 <= 2 * (1024 * tenths - 10 * b) <= 1024
        },
        b >= 1_048_576 ==> {
            &&& bytes_text(b) == decimal((tenths / 10) as nat) + seq!['.'] + decimal(
                (tenths % 10) as nat,
            ) + seq![' ', 'M', 'B']
            &&& -1_048_576 <= 2 * (1_048_576 * tenths - 10 * as_double(b)) <= 1_048_576
        },
{
    reveal_strlit(" B");
    reveal_strlit(" KB");
    reveal_strlit(" MB");
    reveal_strlit(".");
    assert(" B"@ =~= seq![' ', 'B']);
    assert(" KB"@ =~= seq![' ', 'K', 'B']);
    assert(" MB"@ =~= seq![' ', 'M', 'B']);
    assert("."@ =~= seq!['.']);
    law_doubles_are_close(b);
    let d = as_double(b);
    law_rounding_goes_to_the_nearest(10 * d, 1024);
    law_rounding_goes_to_the_nearest(10 * d, 1_048_576);
    if b < 1_048_576 {
        half_even(10 * d, 1024)
    } else {
        half_even(10 * d, 1_048_576)
    }
}

/// The names of the addresses that are shown.
pub open spec fn endpoint_names(src: InspectorSources<'_>) -> Seq<Seq<char>> {
    entry_names(src.url_registry@, *src.interner, src.shown_endpoints())
}

/// The address that stands at place `k` of the list.
pub open spec fn endpoint_at(src: InspectorSources<'_>, k: int) -> int {
    sorted_ids(src.shown_endpoints(), endpoint_names(src))[k]
}

/// The list of addresses has a header that counts them, and then for each the
/// two rows that say what it is and where it goes; their names are in order,
/// and every address with a name is among them.
pub proof fn law_every_endpoint_is_listed(src: InspectorSources<'_>, i: int)
    requires
        0 <= i < src.url_registry@.len(),
        src.interner.named(src.url_registry@[i].0) is Some,
    ensures
        ({
            let rows = src.endpoints_section();
            let n = src.shown_endpoints().len() as int;
            &&& n > 0
            &&& rows.len() == 1 + 2 * n
            &&& rows[0].segs[0].text == "Endpoints"@ && rows[0].segs[1].text == decimal(n as nat)
            &&& exists|k: int|
                0 <= k < n && #[trigger] endpoint_at(src, k) == i && rows.subrange(
                    1 + 2 * k,
                    3 + 2 * k,
                ) == endpoint_rows(
                    src.interner.named(src.url_registry@[i].0)->0,
                    src.url_registry@[i].1,
                    widest(endpoint_names(src), endpoint_names(src).len()),
                )
            &&& forall|a: int, b: int|
                0 <= a <= b < n ==> !before(
                    src.interner.name_of(src.url_registry@[#[trigger] endpoint_at(src, b)].0),
                    src.interner.name_of(src.url_registry@[#[trigger] endpoint_at(src, a)].0),
                )
        }),
{
    let ids = src.shown_endpoints();
    let names = endpoint_names(src);
    let sorted = sorted_ids(ids, names);
    let row = src.registry_rows();
    let rows = src.endpoints_section();
    let n = ids.len();
    law_named_entries_are_shown(
        src.url_registry@,
        *src.interner,
        all_symbols(),
        src.url_registry@.len(),
    );
    assert(all_symbols()(src.url_registry@[i].0));
    assert(ids.contains(i));
    law_sorting_keeps_every_entry(ids, names);
    law_sections_are_counted("Endpoints"@, n, "This document declares no network access."@);
    assert forall|k: int| 0 <= k < n implies row(#[trigger] sorted[k]).len() == 2 by {}
    lemma_double_rows(sorted, row, n);
    let head = section("Endpoints"@, n, "This document declares no network access."@);
    let list = rows_for(sorted, row, n);
    assert(rows == head + list);
    let p = choose|p: int| 0 <= p < ids.len() && ids[p] == i;
    assert(sorted.contains(ids[p]));
    let k = choose|k: int| 0 <= k < sorted.len() && sorted[k] == i;
    assert(endpoint_at(src, k) == i);
    assert(row(sorted[k]).len() == 2);
    assert(rows.subrange(1 + 2 * k, 3 + 2 * k) =~= row(i)) by {
        assert(rows[1 + 2 * k] == list[2 * k]);
        assert(rows[2 + 2 * k] == list[2 * k + 1]);
    }
    assert forall|a: int, b: int| 0 <= a <= b < n implies !before(
        src.interner.name_of(src.url_registry@[#[trigger] endpoint_at(src, b)].0),
        src.interner.name_of(src.url_registry@[#[trigger] endpoint_at(src, a)].0),
    ) by {
        let x = name_order(names)[a];
        let y = name_order(names)[b];
        assert(names[x] == src.interner.name_of(src.url_registry@[ids[x]].0));
        assert(names[y] == src.interner.name_of(src.url_registry@[ids[y]].0));
    }
}

/// The tab shows the addresses, then the storage, then the requests, of which
/// every one in the log is shown.
pub proof fn law_the_network_tab_has_three_parts(src: InspectorSources<'_>)
    ensures
        ({
            let rows = src.network_tab();
            let a = src.endpoints_section();
            let b = storage_rows(src.bytes_stored as nat, src.quota_bytes as nat);
            let net = src.log@.network;
            let c = newest_requests(net, net.len());
            let m = (a.len() + b.len()) as int;
            &&& rows.take(a.len() as int) == a
            &&& rows.subrange(a.len() as int, m) == b
            &&& rows[m].kind == RowKind::Header && rows[m].segs[0].text == "Requests"@
                && rows[m].segs[1].text == decimal(net.len())
            &&& net.len() > 0 ==> rows.skip(m + 1) == c
            &&& net.len() == 0 ==> rows.len() == m + 2 && rows[m + 1].segs[0].text
                == "No requests yet."@
        }),
{
    let rows = src.network_tab();
    let a = src.endpoints_section();
    let b = storage_rows(src.bytes_stored as nat, src.quota_bytes as nat);
    let net = src.log@.network;
    let c = newest_requests(net, net.len());
    let m = (a.len() + b.len()) as int;
    let head = section("Requests"@, net.len(), "No requests yet."@);
    law_sections_are_counted("Requests"@, net.len(), "No requests yet."@);
    assert(rows == a + b + (head + c));
    assert(rows.take(a.len() as int) =~= a);
    assert(rows.subrange(a.len() as int, m) =~= b);
    assert(rows[m] == head[0]);
    if net.len() > 0 {
        assert(rows.skip(m + 1) =~= c);
    } else {
        assert(c.len() == 0);
        assert(rows[m + 1] == head[1]);
    }
}

proof fn lemma_request_at(net: Seq<NetView>, n: nat, k: int) -> (from: int)
    requires
        0 <= k < net.len(),
        net.len() - k <= n <= net.len(),
    ensures
        0 <= from,
        from + request_rows(net[k]).len() <= newest_requests(net, n).len(),
        newest_requests(net, n).subrange(from, from + request_rows(net[k]).len()) == request_rows(
            net[k],
        ),
    decreases n,
{
    let all = newest_requests(net, n);
    let init = newest_requests(net, (n - 1) as nat);
    let own = request_rows(net[k]);
    if n == net.len() - k {
        let from = init.len() as int;
        assert(net[net.len() - n] == net[k]);
        assert(all.subrange(from, from + own.len()) =~= own);
        from
    } else {
        let from = lemma_request_at(net, (n - 1) as nat, k);
        assert(all.subrange(from, from + own.len()) =~= init.subrange(from, from + own.len()));
        from
    }
}

/// The rows of every logged request stand in the tab, side by side; so where it
/// failed or was blocked, the tab says why.
pub proof fn law_every_request_is_in_the_tab(
    src: InspectorSources<'_>,
    k: int,
    reason: Seq<char>,
) -> (from: int)
    requires
        0 <= k < src.log@.network.len(),
    ensures
        ({
            let own = request_rows(src.log@.network[k]);
            let tab = src.network_tab();
            &&& 0 <= from && from + own.len() <= tab.len()
            &&& tab.subrange(from, from + own.len()) == own
            &&& src.log@.network[k].outcome == OutcomeView::Failed(reason)
                || src.log@.network[k].outcome == OutcomeView::Blocked(reason) ==> exists|m: int|
                0 <= m < tab.len() && (#[trigger] tab[m]).segs.len() == 1 && tab[m].segs[0].text
                    == reason && tab[m].segs[0].tone == Tone::Bad
        }),
{
    let net = src.log@.network;
    let own = request_rows(net[k]);
    let tab = src.network_tab();
    let inner = lemma_request_at(net, net.len(), k);
    law_the_network_tab_has_three_parts(src);
    let a = src.endpoints_section();
    let b = storage_rows(src.bytes_stored as nat, src.quota_bytes as nat);
    let m = (a.len() + b.len()) as int;
    let c = newest_requests(net, net.len());
    let from = m + 1 + inner;
    assert(tab.skip(m + 1) == c);
    assert(tab.len() == m + 1 + c.len()) by {
        assert(tab.skip(m + 1).len() == tab.len() - (m + 1));
    }
    assert(tab.subrange(from, from + own.len()) =~= c.subrange(inner, inner + own.len()));
    law_requests_say_why_they_failed(net[k], reason);
    if net[k].outcome == OutcomeView::Failed(reason) || net[k].outcome == OutcomeView::Blocked(
        reason,
    ) {
        assert(tab[from + 2] == tab.subrange(from, from + own.len())[2]);
    }
    from
}

} // verus!
