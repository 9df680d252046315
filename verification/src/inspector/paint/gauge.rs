//! Measuring and shortening text in the panel.
//!
//! The panel lays every visible row out anew for each frame, so measuring has
//! to be cheap. Data is set in monospace, where a run of ASCII is as wide as
//! its characters times one cell; every other width is remembered.

use rustc_hash::FxHashMap;
use vstd::prelude::*;
use vstd::utf8::is_ascii_chars;

use crate::fit::{bisect, cut_after, measures, measures_anything};
use crate::inspector::model::types::Face;
use crate::text::{join3, offset_at, offset_of};

verus! {

/// Size of monospace text, in 64ths of a pixel.
pub const MONO_SIZE: i64 = 736;

/// Size of labels and prose, in 64ths of a pixel.
pub const UI_SIZE: i64 = 736;

/// Size of section headers, in 64ths of a pixel.
pub const HEADER_SIZE: i64 = 640;

/// Most widths that are remembered. What rows say is unbounded, so all are
/// forgotten when there would be more.
pub const METRICS_CACHE_LIMIT: usize = 4096;

/// A run of ten cells. The width of one is measured over a run, so that what
/// shaping adds to a run is spread over its cells.
pub const PROBE: &'static str = "0000000000";

/// The size of a face.
pub fn face_size(face: Face) -> (s: i64)
    ensures
        s == (match face {
            Face::Mono => MONO_SIZE,
            Face::Ui => UI_SIZE,
            Face::UiStrong => HEADER_SIZE,
        }),
{
    match face {
        Face::Mono => MONO_SIZE,
        Face::Ui => UI_SIZE,
        Face::UiStrong => HEADER_SIZE,
    }
}

/// The number under which widths in a face are remembered.
pub open spec fn face_key(face: Face) -> u8 {
    match face {
        Face::Ui => 0,
        Face::UiStrong => 1,
        Face::Mono => 2,
    }
}

/// The number under which widths in a face are remembered.
fn key_of_face(face: Face) -> (k: u8)
    ensures
        k == face_key(face),
{
    match face {
        Face::Ui => 0,
        Face::UiStrong => 1,
        Face::Mono => 2,
    }
}

/// The remembered widths, by face and text.
pub uninterp spec fn width_map(m: FxHashMap<(u8, String), u32>) -> Map<(u8, Seq<char>), u32>;

/// Whether a map holds `n` widths.
pub open spec fn holds_exactly(m: Map<(u8, Seq<char>), u32>, n: nat) -> bool {
    m.dom().finite() && m.dom().len() == n
}

/// `HashMap::default`: a map that holds nothing.
#[verifier::external_body]
fn no_widths() -> (m: FxHashMap<(u8, String), u32>)
    ensures
        holds_exactly(width_map(m), 0),
{
    FxHashMap::default()
}

/// `HashMap::get`: the width under a face and a text, if the map holds one.
#[verifier::external_body]
fn get_width(m: &FxHashMap<(u8, String), u32>, face: u8, text: &str) -> (r: Option<u32>)
    ensures
        r == (if width_map(*m).contains_key((face, text@)) {
            Some(width_map(*m)[(face, text@)])
        } else {
            None
        }),
{
    m.get(&(face, text.to_owned())).copied()
}

/// `HashMap::len`: how many widths the map holds.
#[verifier::external_body]
fn count_widths(m: &FxHashMap<(u8, String), u32>) -> (n: usize)
    ensures
        holds_exactly(width_map(*m), n as nat),
{
    m.len()
}

/// `HashMap::clear`: the map holds nothing any more.
#[verifier::external_body]
fn clear_widths(m: &mut FxHashMap<(u8, String), u32>)
    ensures
        holds_exactly(width_map(*final(m)), 0),
{
    m.clear()
}

/// `HashMap::insert`: the map holds `width` under a face and a text, and
/// otherwise what it held.
#[verifier::external_body]
fn put_width(m: &mut FxHashMap<(u8, String), u32>, face: u8, text: &str, width: u32)
    ensures
        width_map(*final(m)) == width_map(*old(m)).insert((face, text@), width),
{
    m.insert((face, text.to_owned()), width);
}

/// A map that holds no width is the empty map.
proof fn lemma_holds_nothing(m: Map<(u8, Seq<char>), u32>)
    requires
        holds_exactly(m, 0),
    ensures
        m == Map::<(u8, Seq<char>), u32>::empty(),
{
    assert(m.dom() =~= Set::empty());
    assert(m =~= Map::empty());
}

/// Whether a run is measured in cells.
pub open spec fn in_cells(s: Seq<char>, face: Face) -> bool {
    face == Face::Mono && is_ascii_chars(s)
}

/// The width of `n` cells where ten are `ten` wide, rounded up.
pub open spec fn cells(ten: nat, n: nat) -> nat {
    (ten * n + 9) / 10
}

/// The width of a run, where `w` measures what cells cannot tell.
pub open spec fn run_width(s: Seq<char>, face: Face, w: spec_fn(Seq<char>, Face) -> nat) -> nat {
    if s.len() == 0 {
        0
    } else if in_cells(s, face) {
        cells(w(PROBE@, Face::Mono), s.len())
    } else {
        w(s, face)
    }
}

/// Whether the first `k` characters of `s` fit in `max`.
pub open spec fn prefix_fits(
    s: Seq<char>,
    face: Face,
    max: int,
    w: spec_fn(Seq<char>, Face) -> nat,
) -> spec_fn(int) -> bool {
    |k: int| run_width(s.take(k), face, w) <= max
}

/// Whether the last `k` characters of `s` fit in `max`.
pub open spec fn suffix_fits(
    s: Seq<char>,
    face: Face,
    max: int,
    w: spec_fn(Seq<char>, Face) -> nat,
) -> spec_fn(int) -> bool {
    |k: int| run_width(s.skip(s.len() - k), face, w) <= max
}

/// How many cells fit in `max`, at most `n`, where ten are `ten` wide.
pub open spec fn cells_in(max: int, ten: nat, n: nat) -> nat {
    if ten == 0 || max * 10 / (ten as int) >= n {
        n
    } else {
        (max * 10 / (ten as int)) as nat
    }
}

/// How many characters from the start of `s` are kept in `max`.
pub open spec fn kept_prefix(
    s: Seq<char>,
    face: Face,
    max: int,
    w: spec_fn(Seq<char>, Face) -> nat,
) -> int {
    if max <= 0 || s.len() == 0 {
        0
    } else if in_cells(s, face) {
        cells_in(max, w(PROBE@, Face::Mono), s.len()) as int
    } else {
        bisect(0, s.len() as int, prefix_fits(s, face, max, w))
    }
}

/// How many characters from the end of `s` are kept in `max`.
pub open spec fn kept_suffix(
    s: Seq<char>,
    face: Face,
    max: int,
    w: spec_fn(Seq<char>, Face) -> nat,
) -> int {
    if max <= 0 || s.len() == 0 {
        0
    } else if in_cells(s, face) {
        cells_in(max, w(PROBE@, Face::Mono), s.len()) as int
    } else {
        bisect(0, s.len() as int, suffix_fits(s, face, max, w))
    }
}

/// `s` shortened from its end to fit in `max`.
pub open spec fn tail_elided(
    s: Seq<char>,
    face: Face,
    max: int,
    w: spec_fn(Seq<char>, Face) -> nat,
) -> Seq<char> {
    let budget = max - run_width("…"@, face, w);
    let kept = kept_prefix(s, face, budget, w);
    if run_width(s, face, w) <= max {
        s
    } else if budget <= 0 || kept == 0 {
        Seq::empty()
    } else {
        cut_after(s, kept)
    }
}

/// `s` shortened in its middle to fit in `max`. The head gets a little more
/// than half of the room, the tail what the head leaves.
pub open spec fn middle_elided(
    s: Seq<char>,
    face: Face,
    max: int,
    w: spec_fn(Seq<char>, Face) -> nat,
) -> Seq<char> {
    let budget = max - run_width("…"@, face, w);
    let head = kept_prefix(s, face, budget * 55 / 100, w);
    let tail = kept_suffix(
        s,
        face,
        budget - run_width(s.take(head), face, w),
        w,
    );
    if run_width(s, face, w) <= max {
        s
    } else if budget <= 0 {
        Seq::empty()
    } else if head + tail >= s.len() {
        s
    } else if head == 0 && tail == 0 {
        Seq::empty()
    } else {
        s.take(head) + "…"@ + s.skip(s.len() - tail)
    }
}

/// How many cells fit in `max`, at most `n`.
fn cells_fit(max: i128, ten: u32, n: usize) -> (k: usize)
    requires
        0 < max < 0x1_0000_0000_0000_0000_0000_0000,
    ensures
        k == cells_in(max as int, ten as nat, n as nat),
        k <= n,
{
    if ten == 0 {
        return n;
    }
    let k: i128 = max * 10 / ten as i128;
    proof {
        assert(k >= 0) by (nonlinear_arith)
            requires
                max > 0,
                ten > 0,
                k == max * 10 / ten as int,
        ;
    }
    if k >= n as i128 {
        n
    } else {
        k as usize
    }
}

/// Measurements, kept across frames.
#[derive(Debug)]
pub struct TextMetrics {
    /// The width of ten monospace cells, once it was measured.
    pub mono_advance: Option<u32>,
    /// Measured widths of the runs that cells cannot tell.
    pub cache: FxHashMap<(u8, String), u32>,
}

impl Default for TextMetrics {
    /// Nothing was measured yet.
    fn default() -> (r: TextMetrics)
        ensures
            r.mono_advance is None,
            r.remembered() == Map::<(u8, Seq<char>), u32>::empty(),
            r.bounded(),
    {
        let cache = no_widths();
        proof {
            lemma_holds_nothing(width_map(cache));
        }
        TextMetrics { mono_advance: None, cache }
    }
}

impl TextMetrics {
    /// The remembered widths, by face and text.
    pub open spec fn remembered(&self) -> Map<(u8, Seq<char>), u32> {
        width_map(self.cache)
    }

    /// Whether no more is remembered than may be.
    pub open spec fn bounded(&self) -> bool {
        self.remembered().dom().finite() && self.remembered().dom().len() <= METRICS_CACHE_LIMIT
    }

    /// Whether everything remembered is what `w` says.
    pub open spec fn agrees(&self, w: spec_fn(Seq<char>, Face) -> nat) -> bool {
        &&& self.mono_advance matches Some(ten) ==> ten == w(PROBE@, Face::Mono)
        &&& forall|face: Face, text: Seq<char>| #[trigger]
            self.remembered().contains_key((face_key(face), text))
                ==> self.remembered()[(face_key(face), text)] == w(text, face)
    }

    /// The width of ten monospace cells.
    pub fn ten_cells<F: Fn(&str, Face) -> u32>(&mut self, measure: &F) -> (ten: u32)
        requires
            measures_anything(*measure),
        ensures
            final(self).mono_advance == Some(ten),
            old(self).mono_advance is Some ==> *final(self) == *old(self),
            final(self).cache == old(self).cache,
            forall|w: spec_fn(Seq<char>, Face) -> nat| #[trigger]
                measures(*measure, w) && old(self).agrees(w) ==> ten == w(PROBE@, Face::Mono)
                    && final(self).agrees(w),
    {
        if let Some(ten) = self.mono_advance {
            return ten;
        }
        let ten = measure(PROBE, Face::Mono);
        self.mono_advance = Some(ten);
        proof {
            assert forall|w: spec_fn(Seq<char>, Face) -> nat| #[trigger]
                measures(*measure, w) && old(self).agrees(w) implies self.agrees(w) by {
                assert forall|f: Face, t: Seq<char>| #[trigger]
                    self.remembered().contains_key(
                        (face_key(f), t),
                    ) implies self.remembered()[(face_key(f), t)] == w(t, f) by {
                    assert(old(self).remembered().contains_key((face_key(f), t)));
                }
            }
        }
        ten
    }

    /// The width of a run.
    pub fn width<F: Fn(&str, Face) -> u32>(&mut self, text: &str, face: Face, measure: &F) -> (r:
        u128)
        requires
            measures_anything(*measure),
            old(self).bounded(),
        ensures
            forall|w: spec_fn(Seq<char>, Face) -> nat| #[trigger]
                measures(*measure, w) && old(self).agrees(w) ==> r == run_width(text@, face, w)
                    && final(self).agrees(w),
            r < 0x1_0000_0000_0000_0000_0000_0000,
            final(self).bounded(),
            final(self).remembered() == (if text@.len() == 0 || in_cells(text@, face)
                || old(self).remembered().contains_key((face_key(face), text@)) {
                old(self).remembered()
            } else if old(self).remembered().dom().len() < METRICS_CACHE_LIMIT {
                old(self).remembered().insert((face_key(face), text@), r as u32)
            } else {
                Map::empty().insert((face_key(face), text@), r as u32)
            }),
    {
        let n = text.unicode_len();
        if n == 0 {
            return 0;
        }
        if face == Face::Mono && text.is_ascii() {
            let ten = self.ten_cells(measure);
            proof {
                assert(ten * n <= 0xffff_ffff * 0xffff_ffff_ffff_ffff) by (nonlinear_arith)
                    requires
                        ten <= 0xffff_ffff,
                        n <= 0xffff_ffff_ffff_ffff,
                ;
            }
            return (ten as u128 * n as u128 + 9) / 10;
        }
        let key = key_of_face(face);
        if let Some(width) = get_width(&self.cache, key, text) {
            return width as u128;
        }
        let width = measure(text, face);
        let ghost before = self.remembered();
        if count_widths(&self.cache) >= METRICS_CACHE_LIMIT {
            clear_widths(&mut self.cache);
            proof {
                lemma_holds_nothing(self.remembered());
            }
        }
        put_width(&mut self.cache, key, text, width);
        proof {
            assert forall|w: spec_fn(Seq<char>, Face) -> nat| #[trigger]
                measures(*measure, w) && old(self).agrees(w) implies self.agrees(w) by {
                assert forall|f: Face, t: Seq<char>| #[trigger]
                    self.remembered().contains_key(
                        (face_key(f), t),
                    ) implies self.remembered()[(face_key(f), t)] == w(t, f) by {
                    if face_key(f) == key && t == text@ {
                        assert(f == face);
                    } else {
                        assert(before.contains_key((face_key(f), t)));
                    }
                }
            }
        }
        width as u128
    }
}

/// What is needed to measure text: the measurements so far, and a closure for
/// new ones.
pub struct TextCtx<F> {
    pub metrics: TextMetrics,
    pub measure: F,
}

/// Byte offset of character `n`, or of the end where there is none.
pub fn byte_at(text: &str, n: usize) -> (b: usize)
    ensures
        b == offset_of(
            text@,
            if n <= text@.len() {
                n as int
            } else {
                text@.len() as int
            },
        ),
{
    let total = text.unicode_len();
    if n <= total {
        offset_at(text, n)
    } else {
        offset_at(text, total)
    }
}

impl<F: Fn(&str, Face) -> u32> TextCtx<F> {
    /// Whether text measures as `w` says.
    pub open spec fn follows(&self, w: spec_fn(Seq<char>, Face) -> nat) -> bool {
        measures(self.measure, w) && self.metrics.agrees(w)
    }

    /// Whether any text can be measured.
    pub open spec fn ready(&self) -> bool {
        measures_anything(self.measure) && self.metrics.bounded()
    }

    /// Whether measuring goes on as before.
    pub open spec fn goes_on(&self, before: &Self) -> bool {
        &&& self.ready()
        &&& self.measure == before.measure
        &&& forall|w: spec_fn(Seq<char>, Face) -> nat| #[trigger]
            before.follows(w) ==> self.follows(w)
    }

    /// The width of a run.
    pub fn width(&mut self, text: &str, face: Face) -> (r: u128)
        requires
            old(self).ready(),
        ensures
            final(self).goes_on(old(self)),
            forall|w: spec_fn(Seq<char>, Face) -> nat| #[trigger]
                old(self).follows(w) ==> r == run_width(text@, face, w),
            r < 0x1_0000_0000_0000_0000_0000_0000,
    {
        self.metrics.width(text, face, &self.measure)
    }

    /// How many characters from the start of `text` are kept in `max`.
    fn fit_prefix(&mut self, text: &str, face: Face, max: i128) -> (k: usize)
        requires
            old(self).ready(),
            max < 0x1_0000_0000_0000_0000_0000_0000,
        ensures
            final(self).goes_on(old(self)),
            k <= text@.len(),
            forall|w: spec_fn(Seq<char>, Face) -> nat| #[trigger]
                old(self).follows(w) ==> k == kept_prefix(text@, face, max as int, w),
    {
        let n = text.unicode_len();
        if max <= 0 || n == 0 {
            return 0;
        }
        if face == Face::Mono && text.is_ascii() {
            let ten = self.metrics.ten_cells(&self.measure);
            return cells_fit(max, ten, n);
        }
        let mut lo: usize = 0;
        let mut hi: usize = n;
        while lo < hi
            invariant
                lo <= hi <= n == text@.len(),
                self.ready(),
                self.goes_on(old(self)),
                max > 0,
                forall|w: spec_fn(Seq<char>, Face) -> nat| #[trigger]
                    old(self).follows(w) ==> bisect(
                        0,
                        n as int,
                        prefix_fits(text@, face, max as int, w),
                    ) == bisect(
                        lo as int,
                        hi as int,
                        prefix_fits(text@, face, max as int, w),
                    ),
            decreases hi - lo,
        {
            let mid: usize = lo + (hi - lo) / 2 + (hi - lo) % 2;
            proof {
                assert(text@.subrange(0, mid as int) =~= text@.take(mid as int));
            }
            let width = self.width(text.substring_char(0, mid), face);
            if width as i128 <= max {
                lo = mid;
            } else {
                hi = mid - 1;
            }
        }
        lo
    }

    /// How many characters from the end of `text` are kept in `max`.
    fn fit_suffix(&mut self, text: &str, face: Face, max: i128) -> (k: usize)
        requires
            old(self).ready(),
            max < 0x1_0000_0000_0000_0000_0000_0000,
        ensures
            final(self).goes_on(old(self)),
            k <= text@.len(),
            forall|w: spec_fn(Seq<char>, Face) -> nat| #[trigger]
                old(self).follows(w) ==> k == kept_suffix(text@, face, max as int, w),
    {
        let n = text.unicode_len();
        if max <= 0 || n == 0 {
            return 0;
        }
        if face == Face::Mono && text.is_ascii() {
            let ten = self.metrics.ten_cells(&self.measure);
            return cells_fit(max, ten, n);
        }
        let mut lo: usize = 0;
        let mut hi: usize = n;
        while lo < hi
            invariant
                lo <= hi <= n == text@.len(),
                self.ready(),
                self.goes_on(old(self)),
                max > 0,
                forall|w: spec_fn(Seq<char>, Face) -> nat| #[trigger]
                    old(self).follows(w) ==> bisect(
                        0,
                        n as int,
                        suffix_fits(text@, face, max as int, w),
                    ) == bisect(
                        lo as int,
                        hi as int,
                        suffix_fits(text@, face, max as int, w),
                    ),
            decreases hi - lo,
        {
            let mid: usize = lo + (hi - lo) / 2 + (hi - lo) % 2;
            proof {
                assert(text@.subrange(n - mid, n as int) =~= text@.skip(n - mid));
            }
            let width = self.width(text.substring_char(n - mid, n), face);
            if width as i128 <= max {
                lo = mid;
            } else {
                hi = mid - 1;
            }
        }
        lo
    }

    /// Shortens `text` from its end to fit in `max`.
    pub fn elide_tail(&mut self, text: &str, face: Face, max: i128) -> (r: String)
        requires
            old(self).ready(),
            -0x1_0000_0000_0000_0000_0000_0000 < max < 0x1_0000_0000_0000_0000_0000_0000,
        ensures
            final(self).goes_on(old(self)),
            forall|w: spec_fn(Seq<char>, Face) -> nat| #[trigger]
                old(self).follows(w) ==> r@ == tail_elided(text@, face, max as int, w),
    {
        let whole = self.width(text, face);
        if whole as i128 <= max {
            return text.to_owned();
        }
        let mark = self.width("…", face);
        let budget: i128 = max - mark as i128;
        if budget <= 0 {
            return String::new();
        }
        let kept = self.fit_prefix(text, face, budget);
        if kept == 0 {
            return String::new();
        }
        let mut r = text.substring_char(0, kept).to_owned();
        r.push('…');
        proof {
            assert(r@ =~= cut_after(text@, kept as int));
        }
        r
    }

    /// Shortens `text` in its middle to fit in `max`.
    pub fn elide_middle(&mut self, text: &str, face: Face, max: i128) -> (r: String)
        requires
            old(self).ready(),
            -0x1_0000_0000_0000_0000_0000_0000 < max < 0x1_0000_0000_0000_0000_0000_0000,
        ensures
            final(self).goes_on(old(self)),
            forall|w: spec_fn(Seq<char>, Face) -> nat| #[trigger]
                old(self).follows(w) ==> r@ == middle_elided(text@, face, max as int, w),
    {
        let whole = self.width(text, face);
        if whole as i128 <= max {
            return text.to_owned();
        }
        let mark = self.width("…", face);
        let budget: i128 = max - mark as i128;
        if budget <= 0 {
            return String::new();
        }
        let total = text.unicode_len();
        let head = self.fit_prefix(text, face, budget * 55 / 100);
        proof {
            assert(text@.subrange(0, head as int) =~= text@.take(head as int));
        }
        let start = text.substring_char(0, head);
        let used = self.width(start, face);
        let tail = self.fit_suffix(text, face, budget - used as i128);
        if head >= total - tail {
            return text.to_owned();
        }
        if head == 0 && tail == 0 {
            return String::new();
        }
        proof {
            assert(text@.subrange(total - tail, total as int) =~= text@.skip(total - tail));
        }
        join3(start, "…", text.substring_char(total - tail, total))
    }
}

} // verus!
