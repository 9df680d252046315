//! What each entry of the log says, and what a completion does to it.

use vstd::prelude::*;

use crate::clock::seconds_text;
use crate::inspector::log::{
    kept_detail, kind_tag, last_where, millis_between, pending_with, timestamp_text, EventKind,
    LogView, NetView, OutcomeView,
};
use crate::text::padded_left;

verus! {

/// Whether `kept` is `s`, or the first 383 characters of a longer one with a
/// mark that something is missing.
pub open spec fn shortened(s: Seq<char>, kept: Seq<char>) -> bool {
    if s.len() <= 384 {
        kept == s
    } else {
        kept == s.take(383) + seq!['…']
    }
}

proof fn lemma_shortened(s: Seq<char>)
    ensures
        shortened(s, kept_detail(s)),
{
    if s.len() > 384 {
        assert(kept_detail(s) =~= s.take(383) + seq!['…']);
    }
}

/// An event is logged behind all others, with its time, its kind and its detail;
/// only where the log holds 256 the oldest leaves for it. No request is touched.
pub proof fn law_events_are_logged_last(v: LogView, at: u64, kind: EventKind, detail: Seq<char>)
    ensures
        ({
            let w = v.event_pushed(at, kind, detail);
            &&& w.network == v.network
            &&& w.events.len() > 0
            &&& w.events.last().at == at
            &&& w.events.last().kind == kind
            &&& shortened(detail, w.events.last().detail)
            &&& v.events.len() < 256 ==> w.events.drop_last() == v.events
            &&& v.events.len() >= 256 ==> w.events.drop_last() == v.events.skip(1)
        }),
{
    lemma_shortened(detail);
    let w = v.event_pushed(at, kind, detail);
    if v.events.len() < 256 {
        assert(w.events.drop_last() =~= v.events);
    } else {
        assert(w.events.drop_last() =~= v.events.skip(1));
    }
}

/// A request is logged behind all others with what is known of it, and with no
/// duration yet; only where the log holds 256 the oldest leaves for it. No event
/// is touched.
pub proof fn law_requests_are_logged_last(
    v: LogView,
    at: u64,
    verb: Seq<char>,
    target: Seq<char>,
    outcome: OutcomeView,
    bytes: Option<usize>,
    correlation: Option<Seq<char>>,
)
    ensures
        ({
            let w = v.net_logged(at, verb, target, outcome, bytes, correlation);
            let e = w.network.last();
            &&& w.events == v.events
            &&& w.network.len() > 0
            &&& e.at == at && e.verb == verb && e.outcome == outcome && e.bytes == bytes
            &&& e.correlation == correlation && e.duration_ms is None
            &&& shortened(target, e.target)
            &&& v.network.len() < 256 ==> w.network.drop_last() == v.network
            &&& v.network.len() >= 256 ==> w.network.drop_last() == v.network.skip(1)
        }),
{
    lemma_shortened(target);
    let w = v.net_logged(at, verb, target, outcome, bytes, correlation);
    if v.network.len() < 256 {
        assert(w.network.drop_last() =~= v.network);
    } else {
        assert(w.network.drop_last() =~= v.network.skip(1));
    }
}

/// Whether a request waits for its end: for that with this key, or, without a
/// key, for any.
pub open spec fn waits(e: NetView, key: Option<Seq<char>>) -> bool {
    e.outcome == OutcomeView::Pending && (key is Some ==> e.correlation == key)
}

proof fn lemma_last_where(s: Seq<NetView>, n: int, key: Option<Seq<char>>)
    requires
        0 <= n <= s.len(),
    ensures
        match last_where(s, n, pending_with(key)) {
            Some(i) => 0 <= i < n && waits(s[i], key) && forall|j: int|
                i < j < n ==> !waits(#[trigger] s[j], key),
            None => forall|j: int| 0 <= j < n ==> !waits(#[trigger] s[j], key),
        },
    decreases n,
{
    if n > 0 {
        let p = pending_with(key);
        assert(p(s[n - 1]) == waits(s[n - 1], key));
        if !p(s[n - 1]) {
            lemma_last_where(s, n - 1, key);
        }
    }
}

/// Whether `new_entry` is the request `old_entry` at its end: what it was, where it went and
/// when it started stay, and its duration is the whole milliseconds since then.
pub open spec fn ended(
    old_entry: NetView,
    new_entry: NetView,
    now: u64,
    outcome: OutcomeView,
) -> bool {
    &&& new_entry.outcome == outcome
    &&& new_entry.at == old_entry.at && new_entry.verb == old_entry.verb
    &&& new_entry.target == old_entry.target && new_entry.correlation == old_entry.correlation
    &&& new_entry.duration_ms matches Some(ms) && if now >= old_entry.at {
        ms * 1_000_000 <= now - old_entry.at < (ms + 1) * 1_000_000
    } else {
        ms == 0
    }
}

proof fn lemma_millis(at: u64, now: u64)
    ensures
        now >= at ==> millis_between(at, now) * 1_000_000 <= now - at < (millis_between(at, now)
            + 1) * 1_000_000,
        now < at ==> millis_between(at, now) == 0,
{
}

/// The end of a request with a key goes to the newest that waits under that
/// key. Where `i` is that one, it gets the outcome, the size and its duration,
/// and all others stay as they are.
pub proof fn law_an_end_goes_to_the_newest_waiting(
    v: LogView,
    now: u64,
    key: Seq<char>,
    outcome: OutcomeView,
    bytes: Option<usize>,
    i: int,
)
    requires
        0 <= i < v.network.len(),
        waits(v.network[i], Some(key)),
        forall|j: int| i < j < v.network.len() ==> !waits(#[trigger] v.network[j], Some(key)),
    ensures
        ({
            let w = v.net_completed(now, key, outcome, bytes);
            &&& w.events == v.events
            &&& w.network.len() == v.network.len()
            &&& ended(v.network[i], w.network[i], now, outcome)
            &&& w.network[i].bytes == bytes
            &&& forall|j: int|
                0 <= j < v.network.len() && j != i ==> #[trigger] w.network[j] == v.network[j]
        }),
{
    lemma_last_where(v.network, v.network.len() as int, Some(key));
    lemma_millis(v.network[i].at, now);
}

/// The end of a request that nothing waits for is logged as a request of its
/// own, which says of where it went only the key.
pub proof fn law_an_unexpected_end_is_logged(
    v: LogView,
    now: u64,
    key: Seq<char>,
    outcome: OutcomeView,
    bytes: Option<usize>,
)
    requires
        forall|j: int| 0 <= j < v.network.len() ==> !waits(#[trigger] v.network[j], Some(key)),
    ensures
        ({
            let w = v.net_completed(now, key, outcome, bytes);
            let e = w.network.last();
            &&& w == v.net_logged(now, seq!['?'], key, outcome, bytes, None)
            &&& w.network.len() > 0
            &&& e.outcome == outcome && e.bytes == bytes && e.at == now
            &&& shortened(key, e.target)
        }),
{
    reveal_strlit("?");
    assert("?"@ =~= seq!['?']);
    lemma_last_where(v.network, v.network.len() as int, Some(key));
    lemma_shortened(key);
}

/// An end without a key goes to the newest request that waits at all, which
/// keeps its size; where none waits it changes nothing.
pub proof fn law_an_end_without_a_key_goes_to_the_newest(
    v: LogView,
    now: u64,
    outcome: OutcomeView,
    i: int,
)
    ensures
        (forall|j: int| 0 <= j < v.network.len() ==> !waits(#[trigger] v.network[j], None))
            ==> v.latest_completed(now, outcome) == v,
        0 <= i < v.network.len() && waits(v.network[i], None) && (forall|j: int|
            i < j < v.network.len() ==> !waits(#[trigger] v.network[j], None)) ==> {
            let w = v.latest_completed(now, outcome);
            &&& w.events == v.events
            &&& w.network.len() == v.network.len()
            &&& ended(v.network[i], w.network[i], now, outcome)
            &&& w.network[i].bytes == v.network[i].bytes
            &&& forall|j: int|
                0 <= j < v.network.len() && j != i ==> #[trigger] w.network[j] == v.network[j]
        },
{
    lemma_last_where(v.network, v.network.len() as int, None);
    if 0 <= i < v.network.len() {
        lemma_millis(v.network[i].at, now);
    }
}

/// A time is written in seconds, at least six characters wide, with their unit
/// behind it.
pub proof fn law_times_are_written_in_seconds(at: u64)
    ensures
        timestamp_text(at) == padded_left(seconds_text(at), 6) + seq!['s'],
        timestamp_text(at).len() >= 7,
{
    reveal_strlit("s");
    assert("s"@ =~= seq!['s']);
}

/// Each kind of event has a word of its own, six characters wide.
pub proof fn law_kinds_of_events_have_a_word(kind: EventKind)
    ensures
        kind_tag(kind) == (match kind {
            EventKind::Click => seq!['c', 'l', 'i', 'c', 'k', ' '],
            EventKind::Timer => seq!['t', 'i', 'm', 'e', 'r', ' '],
            EventKind::Submit => seq!['s', 'u', 'b', 'm', 'i', 't'],
            EventKind::Mutation => seq!['s', 'e', 't', ' ', ' ', ' '],
        }),
{
    reveal_strlit("click ");
    reveal_strlit("timer ");
    reveal_strlit("submit");
    reveal_strlit("set   ");
    assert("click "@ =~= seq!['c', 'l', 'i', 'c', 'k', ' ']);
    assert("timer "@ =~= seq!['t', 'i', 'm', 'e', 'r', ' ']);
    assert("submit"@ =~= seq!['s', 'u', 'b', 'm', 'i', 't']);
    assert("set   "@ =~= seq!['s', 'e', 't', ' ', ' ', ' ']);
}

} // verus!
