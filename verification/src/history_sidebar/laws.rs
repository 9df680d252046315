//! What holds of the sidebar's rows, whatever was visited.

use vstd::prelude::*;

use crate::history::{all_visits, DayView};
use crate::history_sidebar::{
    entries, entry_covers, lemma_one_entry, line_top, lines, sidebar_zone, HistorySidebarHit, Line,
    HEADER_HEIGHT, ROW_H, SIDEBAR_WIDTH,
};

verus! {

/// Every visit has exactly one row, and rows further down are older: of two
/// visits the lower one has the greater index.
pub proof fn law_visits_are_listed_once_newest_first(days: Seq<DayView>)
    ensures
        forall|i: int|
            0 <= i < all_visits(days).len() ==> #[trigger] lines(days).contains(Line::Entry(i)),
        forall|k: int|
            0 <= k < lines(days).len() && (#[trigger] lines(days)[k]) is Entry ==> 0
                <= lines(days)[k]->Entry_0 < all_visits(days).len(),
        forall|k: int, l: int|
            0 <= k < l < lines(days).len() && (#[trigger] lines(days)[k]) is Entry && (
            #[trigger] lines(days)[l]) is Entry ==> lines(days)[k]->Entry_0
                < lines(days)[l]->Entry_0,
    decreases days.len(),
{
    if days.len() > 0 {
        let before = days.drop_last();
        law_visits_are_listed_once_newest_first(before);
        let old_lines = lines(before);
        let n = all_visits(before).len() as int;
        let tail = entries(n, days.last().records.len());
        let all = lines(days);
        assert(all == old_lines + seq![Line::Group(days.last().label)] + tail);
        assert forall|i: int| 0 <= i < all_visits(days).len() implies #[trigger] all.contains(
            Line::Entry(i),
        ) by {
            if i < n {
                assert(old_lines.contains(Line::Entry(i)));
                let k = choose|k: int|
                    0 <= k < old_lines.len() && #[trigger] old_lines[k] == Line::Entry(i);
                assert(all[k] == Line::Entry(i));
            } else {
                let k = old_lines.len() + 1 + (i - n);
                assert(tail[i - n] == Line::Entry(i));
                assert(all[k] == tail[i - n]);
            }
        }
        assert forall|k: int| 0 <= k < all.len() && (#[trigger] all[k]) is Entry implies 0
            <= all[k]->Entry_0 < all_visits(days).len() by {
            if k < old_lines.len() {
                assert(all[k] == old_lines[k]);
            } else if k > old_lines.len() {
                assert(all[k] == tail[k - old_lines.len() - 1]);
            }
        }
        assert forall|k: int, l: int|
            0 <= k < l < all.len() && (#[trigger] all[k]) is Entry && (
            #[trigger] all[l]) is Entry implies all[k]->Entry_0 < all[l]->Entry_0 by {
            if l < old_lines.len() {
                assert(all[k] == old_lines[k]);
                assert(all[l] == old_lines[l]);
            } else if l > old_lines.len() {
                assert(all[l] == tail[l - old_lines.len() - 1]);
                if k < old_lines.len() {
                    assert(all[k] == old_lines[k]);
                } else if k > old_lines.len() {
                    assert(all[k] == tail[k - old_lines.len() - 1]);
                }
            }
        }
    }
}

/// A visit is hit wherever its row is painted below the header.
pub proof fn law_visits_are_hit_where_they_are_painted(
    days: Seq<DayView>,
    k: int,
    x: int,
    y: int,
    scroll: int,
    chrome_height: int,
)
    requires
        0 <= k < lines(days).len(),
        all_visits(days).len() <= usize::MAX,
        lines(days)[k] is Entry,
        0 <= x < SIDEBAR_WIDTH,
        chrome_height + HEADER_HEIGHT <= y,
        ({
            let top = chrome_height + HEADER_HEIGHT - scroll + line_top(lines(days), k as nat);
            top <= y < top + ROW_H
        }),
    ensures
        sidebar_zone(days, x, y, scroll, chrome_height) == HistorySidebarHit::Entry(
            lines(days)[k]->Entry_0 as usize,
        ),
{
    let s = lines(days);
    let at = y - chrome_height - HEADER_HEIGHT + scroll;
    assert(entry_covers(s, k, at));
    let j = choose|j: int| entry_covers(s, j, at);
    lemma_one_entry(s, k, j, at);
}

/// Points beside the sidebar or above it are not taken, and all others are,
/// whatever is or is not there.
pub proof fn law_the_sidebar_takes_all_its_clicks(
    days: Seq<DayView>,
    x: int,
    y: int,
    scroll: int,
    chrome_height: int,
)
    ensures
        sidebar_zone(days, x, y, scroll, chrome_height) == HistorySidebarHit::Outside <==> !(0 <= x
            < SIDEBAR_WIDTH && chrome_height <= y),
{
}

} // verus!
