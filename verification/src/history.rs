//! Visits remembered by the browser window.

use vstd::prelude::*;

use crate::text::same_text;

verus! {

/// One visited page.
#[derive(Debug, Clone)]
pub struct VisitRecord {
    /// Address of the page.
    pub url: String,
    /// Title of the page; empty where it has none.
    pub title: String,
}

/// What a [`VisitRecord`] says.
#[verifier::ext_equal]
pub struct VisitView {
    pub url: Seq<char>,
    pub title: Seq<char>,
}

impl View for VisitRecord {
    type V = VisitView;

    open spec fn view(&self) -> VisitView {
        VisitView { url: self.url@, title: self.title@ }
    }
}

impl VisitView {
    /// The title, or the address of an untitled page.
    pub open spec fn display_label(self) -> Seq<char> {
        if self.title.len() == 0 {
            self.url
        } else {
            self.title
        }
    }

    /// Whether the address tells more than the label already does.
    pub open spec fn shows_url(self) -> bool {
        self.title.len() != 0 && self.title != self.url
    }
}

impl VisitRecord {
    /// A visit to `url`, titled `title`.
    pub fn new(url: String, title: String) -> (r: VisitRecord)
        ensures
            r@ == (VisitView { url: url@, title: title@ }),
    {
        VisitRecord { url, title }
    }

    /// What the visit is called in a list: its title, or its address where it
    /// has no title.
    pub fn display_label(&self) -> (r: &str)
        ensures
            r@ == self@.display_label(),
    {
        if self.title.as_str().is_empty() {
            self.url.as_str()
        } else {
            self.title.as_str()
        }
    }

    /// Whether a list row needs a second line with the address: not where the
    /// first line already is the address.
    pub fn shows_url(&self) -> (r: bool)
        ensures
            r == self@.shows_url(),
    {
        !self.title.as_str().is_empty() && !same_text(self.title.as_str(), self.url.as_str())
    }
}

/// The visits of one day, the newest first.
#[derive(Debug, Clone)]
pub struct DayGroup {
    /// What the day is called.
    pub label: String,
    pub records: Vec<VisitRecord>,
}

/// What a [`DayGroup`] holds.
#[verifier::ext_equal]
pub struct DayView {
    pub label: Seq<char>,
    pub records: Seq<VisitView>,
}

/// What a list of visits says.
pub open spec fn visit_views(s: Seq<VisitRecord>) -> Seq<VisitView> {
    s.map_values(|r: VisitRecord| r@)
}

impl View for DayGroup {
    type V = DayView;

    open spec fn view(&self) -> DayView {
        DayView { label: self.label@, records: visit_views(self.records@) }
    }
}

/// The visits of a window, grouped by day, the newest day first.
#[derive(Debug, Clone)]
pub struct HistoryLog {
    pub days: Vec<DayGroup>,
}

impl View for HistoryLog {
    type V = Seq<DayView>;

    open spec fn view(&self) -> Seq<DayView> {
        self.days@.map_values(|d: DayGroup| d@)
    }
}

/// All visits, the newest first.
pub open spec fn all_visits(days: Seq<DayView>) -> Seq<VisitView>
    decreases days.len(),
{
    if days.len() == 0 {
        Seq::empty()
    } else {
        all_visits(days.drop_last()) + days.last().records
    }
}

impl Default for HistoryLog {
    /// No visits.
    fn default() -> (l: HistoryLog)
        ensures
            l@ == Seq::<DayView>::empty(),
    {
        let l = HistoryLog { days: Vec::new() };
        proof {
            assert(l@ =~= Seq::<DayView>::empty());
        }
        l
    }
}

impl HistoryLog {
    /// Visit `index`, counted from the newest.
    pub fn get(&self, index: usize) -> (r: Option<&VisitRecord>)
        ensures
            match r {
                Some(v) => index < all_visits(self@).len() && v@ == all_visits(self@)[index as int],
                None => index >= all_visits(self@).len(),
            },
    {
        let ghost days = self@;
        let mut left: usize = index;
        let mut i: usize = 0;
        proof {
            assert(days.take(0) =~= Seq::<DayView>::empty());
        }
        while i < self.days.len()
            invariant
                i <= self.days@.len(),
                days == self@,
                index == left + all_visits(days.take(i as int)).len(),
            decreases self.days.len() - i,
        {
            let day = &self.days[i];
            proof {
                assert(days.take(i + 1).drop_last() =~= days.take(i as int));
                assert(days.take(i + 1).last() == day@);
                lemma_first_visits(days, i + 1);
            }
            if left < day.records.len() {
                proof {
                    assert(all_visits(days)[index as int] == all_visits(
                        days.take(i + 1),
                    )[index as int]);
                    assert(day@.records[left as int] == day.records@[left as int]@);
                }
                return Some(&day.records[left]);
            }
            left = left - day.records.len();
            i += 1;
        }
        proof {
            assert(days.take(days.len() as int) =~= days);
        }
        None
    }

    /// Whether there is no visit.
    pub fn is_empty(&self) -> (r: bool)
        ensures
            r == (all_visits(self@).len() == 0),
    {
        self.get(0).is_none()
    }
}

/// The visits of the first days are the first visits.
pub proof fn lemma_first_visits(days: Seq<DayView>, i: int)
    requires
        0 <= i <= days.len(),
    ensures
        all_visits(days.take(i)).len() <= all_visits(days).len(),
        forall|k: int|
            0 <= k < all_visits(days.take(i)).len() ==> #[trigger] all_visits(days)[k]
                == all_visits(days.take(i))[k],
    decreases days.len(),
{
    if i == days.len() {
        assert(days.take(i) =~= days);
    } else {
        lemma_first_visits(days.drop_last(), i);
        assert(days.drop_last().take(i) =~= days.take(i));
    }
}

/// A visit is shown by its title, and by its address where it has none; the
/// address stands beside the title where it says something else.
pub proof fn law_visits_are_shown_by_their_title(v: VisitView)
    ensures
        v.title.len() > 0 ==> v.display_label() == v.title,
        v.title.len() == 0 ==> v.display_label() == v.url,
        v.shows_url() <==> v.display_label() != v.url,
{
}

/// The visits of a log are those of its days, in the order of the days and, in
/// each, in its own.
pub proof fn law_visits_are_counted_through_the_days(a: Seq<DayView>, b: Seq<DayView>)
    ensures
        all_visits(Seq::<DayView>::empty()) == Seq::<VisitView>::empty(),
        a.len() == 1 ==> all_visits(a) == a[0].records,
        all_visits(a + b) == all_visits(a) + all_visits(b),
    decreases b.len(),
{
    if a.len() == 1 {
        assert(a.drop_last() =~= Seq::<DayView>::empty());
        assert(all_visits(a.drop_last()) =~= Seq::<VisitView>::empty());
        assert(all_visits(a) =~= a[0].records);
    }
    if b.len() == 0 {
        assert(a + b =~= a);
        assert(all_visits(a) + all_visits(b) =~= all_visits(a));
    } else {
        assert((a + b).drop_last() =~= a + b.drop_last());
        law_visits_are_counted_through_the_days(a, b.drop_last());
        assert(all_visits(a + b) =~= all_visits(a) + all_visits(b));
    }
}

} // verus!
