//! The always-on activity log behind the Events and Network tabs.
//!
//! Both logs are ring buffers: a full one drops its oldest entry for each new
//! one. Times are nanoseconds since the log was made.

use std::collections::VecDeque;
use std::time::Instant;

use vstd::prelude::*;

use crate::clock::{nanos_since, now, print_seconds, seconds_text};
use crate::text::{join2, pad_left, padded_left, same_text};

verus! {

/// Most entries that each log keeps.
pub const LOG_CAPACITY: usize = 256;

/// Most characters that are kept of a detail text.
///
/// The bound is there to bound memory, not to fit the panel: an address or an
/// error message of ordinary length is kept whole.
pub const DETAIL_MAX_CHARS: usize = 384;

/// What is kept of a detail text: all of it, or as much as the bound allows
/// with a mark for the cut.
pub open spec fn kept_detail(s: Seq<char>) -> Seq<char> {
    if s.len() <= DETAIL_MAX_CHARS {
        s
    } else {
        s.take(DETAIL_MAX_CHARS - 1).push('…')
    }
}

/// Cuts `s` to [`DETAIL_MAX_CHARS`] characters, the last one `…` where
/// something was cut.
pub fn truncate_detail(s: &str) -> (r: String)
    ensures
        r@ == kept_detail(s@),
        r@.len() <= DETAIL_MAX_CHARS,
{
    if s.unicode_len() <= DETAIL_MAX_CHARS {
        return s.to_owned();
    }
    let mut cut = s.substring_char(0, DETAIL_MAX_CHARS - 1).to_owned();
    cut.push('…');
    proof {
        assert(cut@ =~= kept_detail(s@));
    }
    cut
}

/// What kind of thing happened.
#[derive(Debug, Clone, Copy, PartialEq, Eq, Structural)]
pub enum EventKind {
    /// A click action was dispatched.
    Click,
    /// A timer fired.
    Timer,
    /// A form was submitted.
    Submit,
    /// A variable changed.
    Mutation,
}

/// The tag of an event kind.
pub open spec fn kind_tag(kind: EventKind) -> Seq<char> {
    match kind {
        EventKind::Click => "click "@,
        EventKind::Timer => "timer "@,
        EventKind::Submit => "submit"@,
        EventKind::Mutation => "set   "@,
    }
}

impl EventKind {
    /// Short tag at the start of a log row.
    pub fn tag(self) -> (t: &'static str)
        ensures
            t@ == kind_tag(self),
    {
        match self {
            EventKind::Click => "click ",
            EventKind::Timer => "timer ",
            EventKind::Submit => "submit",
            EventKind::Mutation => "set   ",
        }
    }
}

/// One entry of the event log.
#[derive(Debug, Clone)]
pub struct EventEntry {
    /// When it happened.
    pub at: u64,
    /// What kind of thing it was.
    pub kind: EventKind,
    /// What exactly, cut to a bounded length.
    pub detail: String,
}

/// What an [`EventEntry`] says.
#[verifier::ext_equal]
pub struct EventView {
    pub at: u64,
    pub kind: EventKind,
    pub detail: Seq<char>,
}

impl View for EventEntry {
    type V = EventView;

    open spec fn view(&self) -> EventView {
        EventView { at: self.at, kind: self.kind, detail: self.detail@ }
    }
}

/// What became of a request.
#[derive(Debug, Clone, PartialEq, Eq)]
pub enum NetOutcome {
    /// Under way.
    Pending,
    /// Ended well.
    Completed,
    /// Answered with a redirect.
    Redirect,
    /// Failed, for the given reason.
    Failed(String),
    /// Stopped by a policy before it left the machine, for the given reason.
    Blocked(String),
}

/// What a [`NetOutcome`] says.
pub enum OutcomeView {
    Pending,
    Completed,
    Redirect,
    Failed(Seq<char>),
    Blocked(Seq<char>),
}

impl View for NetOutcome {
    type V = OutcomeView;

    open spec fn view(&self) -> OutcomeView {
        match self {
            NetOutcome::Pending => OutcomeView::Pending,
            NetOutcome::Completed => OutcomeView::Completed,
            NetOutcome::Redirect => OutcomeView::Redirect,
            NetOutcome::Failed(s) => OutcomeView::Failed(s@),
            NetOutcome::Blocked(s) => OutcomeView::Blocked(s@),
        }
    }
}

/// The tag of an outcome.
pub open spec fn outcome_tag(o: OutcomeView) -> Seq<char> {
    match o {
        OutcomeView::Pending => "…"@,
        OutcomeView::Completed => "ok"@,
        OutcomeView::Redirect => "->"@,
        OutcomeView::Failed(_) => "ERR"@,
        OutcomeView::Blocked(_) => "BLOCKED"@,
    }
}

impl NetOutcome {
    /// Short tag in a log row.
    pub fn tag(&self) -> (t: &'static str)
        ensures
            t@ == outcome_tag(self@),
    {
        match self {
            NetOutcome::Pending => "…",
            NetOutcome::Completed => "ok",
            NetOutcome::Redirect => "->",
            NetOutcome::Failed(_) => "ERR",
            NetOutcome::Blocked(_) => "BLOCKED",
        }
    }

    /// Whether the request is still under way.
    pub fn is_pending(&self) -> (r: bool)
        ensures
            r == (self@ is Pending),
    {
        matches!(self, NetOutcome::Pending)
    }
}

/// One entry of the network log.
#[derive(Debug, Clone)]
pub struct NetEntry {
    /// When the request was sent, or its end observed.
    pub at: u64,
    /// What kind of request it was.
    pub verb: String,
    /// Where it went, cut to a bounded length.
    pub target: String,
    /// What became of it.
    pub outcome: NetOutcome,
    /// How long it took, where both ends were observed.
    pub duration_ms: Option<u64>,
    /// How large the answer was, where that is known.
    pub bytes: Option<usize>,
    /// By what its end can be recognised.
    pub correlation: Option<String>,
}

/// What a [`NetEntry`] says.
#[verifier::ext_equal]
pub struct NetView {
    pub at: u64,
    pub verb: Seq<char>,
    pub target: Seq<char>,
    pub outcome: OutcomeView,
    pub duration_ms: Option<u64>,
    pub bytes: Option<usize>,
    pub correlation: Option<Seq<char>>,
}

/// An optional string as a sequence of characters.
pub open spec fn opt_text(o: Option<String>) -> Option<Seq<char>> {
    match o {
        Some(s) => Some(s@),
        None => None,
    }
}

impl View for NetEntry {
    type V = NetView;

    open spec fn view(&self) -> NetView {
        NetView {
            at: self.at,
            verb: self.verb@,
            target: self.target@,
            outcome: self.outcome@,
            duration_ms: self.duration_ms,
            bytes: self.bytes,
            correlation: opt_text(self.correlation),
        }
    }
}

/// The bounded logs of what a document does.
#[derive(Debug)]
pub struct InspectorLog {
    /// When the log was made.
    pub epoch: Instant,
    /// Events, oldest first.
    pub events: VecDeque<EventEntry>,
    /// Requests, oldest first.
    pub network: VecDeque<NetEntry>,
}

/// What an [`InspectorLog`] holds.
#[verifier::ext_equal]
pub struct LogView {
    pub events: Seq<EventView>,
    pub network: Seq<NetView>,
}

impl View for InspectorLog {
    type V = LogView;

    open spec fn view(&self) -> LogView {
        LogView {
            events: self.events@.map_values(|e: EventEntry| e@),
            network: self.network@.map_values(|e: NetEntry| e@),
        }
    }
}

/// `s` with `e` behind it; a full ring loses its first entry.
pub open spec fn ring_pushed<T>(s: Seq<T>, e: T) -> Seq<T> {
    if s.len() >= LOG_CAPACITY {
        s.drop_first().push(e)
    } else {
        s.push(e)
    }
}

/// Index of the last entry before `n` that satisfies `p`.
pub open spec fn last_where<T>(s: Seq<T>, n: int, p: spec_fn(T) -> bool) -> Option<int>
    decreases n,
{
    if n <= 0 {
        None
    } else if p(s[n - 1]) {
        Some(n - 1)
    } else {
        last_where(s, n - 1, p)
    }
}

/// The requests under way, of those with the given key where one is given.
pub open spec fn pending_with(key: Option<Seq<char>>) -> spec_fn(NetView) -> bool {
    |e: NetView| e.outcome is Pending && (key is Some ==> e.correlation == key)
}

/// Whole milliseconds from `at` to `now`; none where `now` is earlier.
pub open spec fn millis_between(at: u64, now: u64) -> u64 {
    if at <= now {
        ((now - at) / 1_000_000) as u64
    } else {
        0
    }
}

impl LogView {
    /// The log with one more event.
    pub open spec fn event_pushed(self, at: u64, kind: EventKind, detail: Seq<char>) -> LogView {
        LogView {
            events: ring_pushed(self.events, EventView { at, kind, detail: kept_detail(detail) }),
            ..self
        }
    }

    /// The log with one more request.
    pub open spec fn net_pushed(self, e: NetView) -> LogView {
        LogView { network: ring_pushed(self.network, e), ..self }
    }

    /// The log with one more request that nothing is known of but its outcome.
    pub open spec fn net_logged(
        self,
        at: u64,
        verb: Seq<char>,
        target: Seq<char>,
        outcome: OutcomeView,
        bytes: Option<usize>,
        correlation: Option<Seq<char>>,
    ) -> LogView {
        self.net_pushed(
            NetView {
                at,
                verb,
                target: kept_detail(target),
                outcome,
                duration_ms: None,
                bytes,
                correlation,
            },
        )
    }

    /// The newest pending request with this correlation key.
    pub open spec fn pending_for(self, key: Seq<char>) -> Option<int> {
        last_where(self.network, self.network.len() as int, pending_with(Some(key)))
    }

    /// The newest pending request.
    pub open spec fn newest_pending(self) -> Option<int> {
        last_where(self.network, self.network.len() as int, pending_with(None))
    }

    /// The log after the request with this key ended: its entry says so, or a
    /// new entry does where there is none.
    pub open spec fn net_completed(
        self,
        now: u64,
        key: Seq<char>,
        outcome: OutcomeView,
        bytes: Option<usize>,
    ) -> LogView {
        match self.pending_for(key) {
            Some(i) => LogView {
                network: self.network.update(
                    i,
                    NetView {
                        duration_ms: Some(millis_between(self.network[i].at, now)),
                        outcome,
                        bytes,
                        ..self.network[i]
                    },
                ),
                ..self
            },
            None => self.net_logged(now, "?"@, key, outcome, bytes, None),
        }
    }

    /// The log after the newest pending request ended; unchanged where none is
    /// pending.
    pub open spec fn latest_completed(self, now: u64, outcome: OutcomeView) -> LogView {
        match self.newest_pending() {
            Some(i) => LogView {
                network: self.network.update(
                    i,
                    NetView {
                        duration_ms: Some(millis_between(self.network[i].at, now)),
                        outcome,
                        ..self.network[i]
                    },
                ),
                ..self
            },
            None => self,
        }
    }
}

/// Whole milliseconds from `at` to `now`.
fn millis(at: u64, now: u64) -> (ms: u64)
    ensures
        ms == millis_between(at, now),
{
    if at <= now {
        (now - at) / 1_000_000
    } else {
        0
    }
}

/// A time since the log was made, as shown in a row.
pub open spec fn timestamp_text(at: u64) -> Seq<char> {
    padded_left(seconds_text(at), 6) + "s"@
}

impl Default for InspectorLog {
    fn default() -> (l: InspectorLog)
        ensures
            l@ == (LogView { events: Seq::empty(), network: Seq::empty() }),
    {
        InspectorLog::new()
    }
}

impl InspectorLog {
    /// An empty log that starts now.
    pub fn new() -> (l: InspectorLog)
        ensures
            l@ == (LogView { events: Seq::empty(), network: Seq::empty() }),
    {
        let l = InspectorLog {
            epoch: now(),
            events: VecDeque::with_capacity(64),
            network: VecDeque::with_capacity(64),
        };
        proof {
            assert(l@ =~= LogView { events: Seq::empty(), network: Seq::empty() });
        }
        l
    }

    /// Nanoseconds since the log was made.
    pub fn clock(&self) -> (n: u64) {
        nanos_since(&self.epoch)
    }

    /// `at` in seconds, right-aligned, such as `  12.4s`.
    pub fn fmt_ts(&self, at: u64) -> (s: String)
        ensures
            s@ == timestamp_text(at),
    {
        let secs = print_seconds(at);
        join2(pad_left(secs.as_str(), 6).as_str(), "s")
    }

    /// Records an event that happened at `at`.
    pub fn push_event_at(&mut self, at: u64, kind: EventKind, detail: &str)
        ensures
            final(self)@ == old(self)@.event_pushed(at, kind, detail@),
            final(self).epoch == old(self).epoch,
    {
        let ghost before = self@;
        if self.events.len() >= LOG_CAPACITY {
            self.events.pop_front();
        }
        self.events.push_back(EventEntry { at, kind, detail: truncate_detail(detail) });
        proof {
            assert(self@.events =~= before.event_pushed(at, kind, detail@).events);
        }
    }

    /// Records an event that happens now.
    pub fn push_event(&mut self, kind: EventKind, detail: &str)
        ensures
            exists|at: u64| final(self)@ == #[trigger] old(self)@.event_pushed(at, kind, detail@),
            final(self).epoch == old(self).epoch,
    {
        let at = self.clock();
        self.push_event_at(at, kind, detail)
    }

    /// Adds an entry to the network log.
    fn push_net(&mut self, entry: NetEntry)
        ensures
            final(self)@ == old(self)@.net_pushed(entry@),
            final(self).epoch == old(self).epoch,
    {
        let ghost before = self@;
        if self.network.len() >= LOG_CAPACITY {
            self.network.pop_front();
        }
        self.network.push_back(entry);
        proof {
            assert(self@.network =~= before.net_pushed(entry@).network);
        }
    }

    /// Records a request sent at `at`.
    pub fn push_net_start_at(
        &mut self,
        at: u64,
        verb: &str,
        target: &str,
        correlation: Option<String>,
    )
        ensures
            final(self)@ == old(self)@.net_logged(
                at,
                verb@,
                target@,
                OutcomeView::Pending,
                None,
                opt_text(correlation),
            ),
            final(self).epoch == old(self).epoch,
    {
        self.push_net(
            NetEntry {
                at,
                verb: verb.to_owned(),
                target: truncate_detail(target),
                outcome: NetOutcome::Pending,
                duration_ms: None,
                bytes: None,
                correlation,
            },
        );
    }

    /// Records a request that is sent now.
    pub fn push_net_start(&mut self, verb: &str, target: &str, correlation: Option<String>)
        ensures
            exists|at: u64|
                final(self)@ == #[trigger] old(self)@.net_logged(
                    at,
                    verb@,
                    target@,
                    OutcomeView::Pending,
                    None,
                    opt_text(correlation),
                ),
            final(self).epoch == old(self).epoch,
    {
        let at = self.clock();
        self.push_net_start_at(at, verb, target, correlation)
    }

    /// Records a request that ended at once, at `at`.
    pub fn push_net_done_at(&mut self, at: u64, verb: &str, target: &str, outcome: NetOutcome)
        ensures
            final(self)@ == old(self)@.net_logged(at, verb@, target@, outcome@, None, None),
            final(self).epoch == old(self).epoch,
    {
        self.push_net(
            NetEntry {
                at,
                verb: verb.to_owned(),
                target: truncate_detail(target),
                outcome,
                duration_ms: None,
                bytes: None,
                correlation: None,
            },
        );
    }

    /// Records a request that ends at once, now.
    pub fn push_net_done(&mut self, verb: &str, target: &str, outcome: NetOutcome)
        ensures
            exists|at: u64|
                final(self)@ == #[trigger] old(self)@.net_logged(
                    at,
                    verb@,
                    target@,
                    outcome@,
                    None,
                    None,
                ),
            final(self).epoch == old(self).epoch,
    {
        let at = self.clock();
        self.push_net_done_at(at, verb, target, outcome)
    }

    /// Records a request that a policy stopped.
    pub fn push_net_blocked(&mut self, verb: &str, target: &str, reason: String)
        ensures
            exists|at: u64|
                final(self)@ == #[trigger] old(self)@.net_logged(
                    at,
                    verb@,
                    target@,
                    OutcomeView::Blocked(reason@),
                    None,
                    None,
                ),
            final(self).epoch == old(self).epoch,
    {
        self.push_net_done(verb, target, NetOutcome::Blocked(reason))
    }

    /// The newest pending request, with the given key where one is given.
    fn find_pending(&self, key: Option<&str>) -> (r: Option<usize>)
        ensures
            (match r {
                Some(i) => Some(i as int),
                None => None,
            }) == (match key {
                Some(k) => self@.pending_for(k@),
                None => self@.newest_pending(),
            }),
            r matches Some(i) ==> i < self.network@.len(),
    {
        let ghost net = self@.network;
        let ghost wanted = match key {
            Some(k) => Some(k@),
            None => None,
        };
        let ghost p = pending_with(wanted);
        let mut i: usize = self.network.len();
        while i > 0
            invariant
                i <= self.network@.len(),
                net == self@.network,
                wanted == (match key {
                    Some(k) => Some(k@),
                    None => None,
                }),
                p == pending_with(wanted),
                last_where(net, net.len() as int, p) == last_where(net, i as int, p),
            decreases i,
        {
            i -= 1;
            let e = &self.network[i];
            proof {
                assert(net[i as int] == e@);
            }
            let matching = match key {
                None => true,
                Some(k) => match &e.correlation {
                    Some(c) => same_text(c.as_str(), k),
                    None => false,
                },
            };
            if e.outcome.is_pending() && matching {
                return Some(i);
            }
        }
        None
    }

    /// Ends the newest pending request with key `correlation`, at `now`. Where
    /// there is none, for its start may have left the ring, the outcome is
    /// recorded as an entry of its own.
    pub fn complete_net_at(
        &mut self,
        now: u64,
        correlation: &str,
        outcome: NetOutcome,
        bytes: Option<usize>,
    )
        ensures
            final(self)@ == old(self)@.net_completed(now, correlation@, outcome@, bytes),
            final(self).epoch == old(self).epoch,
    {
        let ghost before = self@;
        if let Some(i) = self.find_pending(Some(correlation)) {
            if let Some(e) = self.network.remove(i) {
                let done = NetEntry {
                    duration_ms: Some(millis(e.at, now)),
                    outcome,
                    bytes,
                    ..e
                };
                self.network.insert(i, done);
            }
            proof {
                assert(self@.network =~= before.net_completed(
                    now,
                    correlation@,
                    outcome@,
                    bytes,
                ).network);
            }
            return;
        }
        self.push_net(
            NetEntry {
                at: now,
                verb: "?".to_owned(),
                target: truncate_detail(correlation),
                outcome,
                duration_ms: None,
                bytes,
                correlation: None,
            },
        );
    }

    /// Ends the newest pending request with key `correlation`, now.
    pub fn complete_net(&mut self, correlation: &str, outcome: NetOutcome, bytes: Option<usize>)
        ensures
            exists|now: u64|
                final(self)@ == #[trigger] old(self)@.net_completed(
                    now,
                    correlation@,
                    outcome@,
                    bytes,
                ),
            final(self).epoch == old(self).epoch,
    {
        let now = self.clock();
        self.complete_net_at(now, correlation, outcome, bytes)
    }

    /// Ends the newest pending request, whatever its key, at `now`.
    pub fn complete_latest_pending_at(&mut self, now: u64, outcome: NetOutcome)
        ensures
            final(self)@ == old(self)@.latest_completed(now, outcome@),
            final(self).epoch == old(self).epoch,
    {
        let ghost before = self@;
        if let Some(i) = self.find_pending(None) {
            if let Some(e) = self.network.remove(i) {
                let done = NetEntry { duration_ms: Some(millis(e.at, now)), outcome, ..e };
                self.network.insert(i, done);
            }
            proof {
                assert(self@.network =~= before.latest_completed(now, outcome@).network);
            }
        }
    }

    /// Ends the newest pending request, whatever its key, now.
    pub fn complete_latest_pending(&mut self, outcome: NetOutcome)
        ensures
            exists|now: u64| final(self)@ == #[trigger] old(self)@.latest_completed(now, outcome@),
            final(self).epoch == old(self).epoch,
    {
        let now = self.clock();
        self.complete_latest_pending_at(now, outcome)
    }
}

/// `last_where` finds an entry that satisfies `p`, and none behind it does.
pub proof fn lemma_last_where<T>(s: Seq<T>, n: int, p: spec_fn(T) -> bool)
    requires
        n <= s.len(),
    ensures
        match last_where(s, n, p) {
            Some(i) => 0 <= i < n && p(s[i]) && forall|j: int| i < j < n ==> !#[trigger] p(s[j]),
            None => forall|j: int| 0 <= j < n ==> !#[trigger] p(s[j]),
        },
    decreases n,
{
    if n > 0 {
        lemma_last_where(s, n - 1, p);
    }
}

/// `s` after all of `es` were added in turn.
pub open spec fn ring_pushed_all<T>(s: Seq<T>, es: Seq<T>) -> Seq<T>
    decreases es.len(),
{
    if es.len() == 0 {
        s
    } else {
        ring_pushed(ring_pushed_all(s, es.drop_last()), es.last())
    }
}

/// A log that was filled from empty holds the newest entries, in order, up to
/// its capacity: the oldest are the ones that left.
pub proof fn law_the_oldest_entries_leave_first<T>(es: Seq<T>)
    ensures
        ring_pushed_all(Seq::<T>::empty(), es) == (if es.len() <= LOG_CAPACITY {
            es
        } else {
            es.skip(es.len() - LOG_CAPACITY)
        }),
    decreases es.len(),
{
    if es.len() > 0 {
        law_the_oldest_entries_leave_first(es.drop_last());
        assert(es.drop_last().push(es.last()) =~= es);
        if es.len() > LOG_CAPACITY {
            let kept = ring_pushed_all(Seq::<T>::empty(), es.drop_last());
            assert(kept.drop_first().push(es.last()) =~= es.skip(es.len() - LOG_CAPACITY));
        }
    }
}

impl LogView {
    /// Whether neither log holds more than it may.
    pub open spec fn bounded(self) -> bool {
        self.events.len() <= LOG_CAPACITY && self.network.len() <= LOG_CAPACITY
    }
}

/// No operation lets a log grow past its capacity.
pub proof fn law_logs_stay_bounded(
    v: LogView,
    at: u64,
    kind: EventKind,
    detail: Seq<char>,
    e: NetView,
    key: Seq<char>,
    outcome: OutcomeView,
    bytes: Option<usize>,
)
    requires
        v.bounded(),
    ensures
        v.event_pushed(at, kind, detail).bounded(),
        v.net_pushed(e).bounded(),
        v.net_completed(at, key, outcome, bytes).bounded(),
        v.latest_completed(at, outcome).bounded(),
{
    lemma_last_where(v.network, v.network.len() as int, pending_with(Some(key)));
    lemma_last_where(v.network, v.network.len() as int, pending_with(None));
}

/// An outcome is never lost: the entry whose request it ends has it, or a new
/// entry does.
pub proof fn law_an_outcome_is_never_lost(
    v: LogView,
    now: u64,
    key: Seq<char>,
    outcome: OutcomeView,
    bytes: Option<usize>,
)
    ensures
        ({
            let w = v.net_completed(now, key, outcome, bytes).network;
            let i = match v.pending_for(key) {
                Some(i) => i,
                None => w.len() - 1,
            };
            0 <= i < w.len() && w[i].outcome == outcome && w[i].bytes == bytes
        }),
{
    lemma_last_where(v.network, v.network.len() as int, pending_with(Some(key)));
}

/// A completion changes the newest pending request with its key and no other
/// entry; requests with other keys stay as they are.
pub proof fn law_a_completion_touches_only_its_request(
    v: LogView,
    now: u64,
    key: Seq<char>,
    outcome: OutcomeView,
    bytes: Option<usize>,
    j: int,
)
    requires
        v.pending_for(key) is Some,
        0 <= j < v.network.len(),
        v.network[j].correlation != Some(key) || !(v.network[j].outcome is Pending),
    ensures
        v.net_completed(now, key, outcome, bytes).network[j] == v.network[j],
        v.net_completed(now, key, outcome, bytes).network.len() == v.network.len(),
{
    lemma_last_where(v.network, v.network.len() as int, pending_with(Some(key)));
}

/// Details of ordinary length are kept whole, and a cut one says that it was
/// cut.
pub proof fn law_details_are_kept_or_marked(s: Seq<char>)
    ensures
        kept_detail(s).len() <= DETAIL_MAX_CHARS,
        s.len() <= DETAIL_MAX_CHARS ==> kept_detail(s) == s,
        s.len() > DETAIL_MAX_CHARS ==> {
            &&& kept_detail(s).last() == '…'
            &&& kept_detail(s).drop_last().is_prefix_of(s)
        },
{
    if s.len() > DETAIL_MAX_CHARS {
        assert(kept_detail(s).drop_last() =~= s.take(DETAIL_MAX_CHARS - 1));
    }
}

} // verus!
