//! What each key does in the URL bar, and what editing does to its text.

use vstd::prelude::*;

use crate::bidi::{bidi_clean, is_bidi_control, law_stripping_cleans, without_bidi_controls};
use crate::chrome::keys::{with_scheme, ActionView, KeyView, ModifiersState, NamedKey};
use crate::chrome::state::{
    is_separator, next_boundary, prev_boundary, splice, word_end, word_start, ChromeView,
};
use crate::text::{
    byte_len, chars_before, lemma_byte_len_concat, lemma_chars_before, lemma_offset_monotone,
    lemma_offset_on_boundary, occurs, offset_of, on_boundary, printable, trimmed,
};

verus! {

/// Whether an address names its scheme: `://` stands in it, or `about:` in
/// front of it.
pub open spec fn names_scheme(u: Seq<char>) -> bool {
    ||| exists|i: int|
        0 <= i && i + 3 <= u.len() && #[trigger] u[i] == ':' && u[i + 1] == '/' && u[i + 2] == '/'
    ||| u.len() >= 6 && u[0] == 'a' && u[1] == 'b' && u[2] == 'o' && u[3] == 'u' && u[4] == 't'
        && u[5] == ':'
}

/// Whether `u` is the address `a`, with `mizu://` in front where `a` names no
/// scheme.
pub open spec fn completes(a: Seq<char>, u: Seq<char>) -> bool {
    if a.len() == 0 || names_scheme(a) {
        u == a
    } else {
        u == seq!['m', 'i', 'z', 'u', ':', '/', '/'] + a
    }
}

proof fn lemma_scheme(a: Seq<char>)
    ensures
        completes(a, with_scheme(a)),
{
    reveal_strlit("://");
    reveal_strlit("about:");
    reveal_strlit("mizu://");
    assert("mizu://"@ =~= seq!['m', 'i', 'z', 'u', ':', '/', '/']);
    let mark = "://"@;
    if occurs(a, mark) {
        let i = choose|i: int|
            0 <= i <= a.len() - mark.len() && #[trigger] a.subrange(i, i + mark.len()) == mark;
        let part = a.subrange(i, i + 3);
        assert(part[0] == a[i] && part[1] == a[i + 1] && part[2] == a[i + 2]);
        assert(a[i] == ':');
    }
    if exists|i: int|
        0 <= i && i + 3 <= a.len() && #[trigger] a[i] == ':' && a[i + 1] == '/' && a[i + 2] == '/' {
        let i = choose|i: int|
            0 <= i && i + 3 <= a.len() && #[trigger] a[i] == ':' && a[i + 1] == '/' && a[i + 2]
                == '/';
        assert(a.subrange(i, i + mark.len()) =~= mark);
    }
    let about = "about:"@;
    if about.is_prefix_of(a) {
        assert forall|j: int| 0 <= j < 6 implies #[trigger] a[j] == about[j] by {
            assert(a.subrange(0, 6)[j] == a[j]);
        }
        assert(a[0] == 'a' && a[1] == 'b' && a[2] == 'o' && a[3] == 'u' && a[4] == 't' && a[5]
            == ':');
    }
    if a.len() >= 6 && a[0] == 'a' && a[1] == 'b' && a[2] == 'o' && a[3] == 'u' && a[4] == 't'
        && a[5] == ':' {
        assert(a.subrange(0, 6) =~= about);
    }
}

/// Whether Enter leads to the address `a`: it is loaded, shown in the bar with
/// the cursor behind it, and the bar loses its focus, its selection and its
/// suggestions.
pub open spec fn enter_goes_to(
    v: ChromeView,
    text: Option<Seq<char>>,
    mods: ModifiersState,
    a: Seq<char>,
) -> bool {
    let (w, action) = v.key_pressed(KeyView::Named(NamedKey::Enter), text, mods);
    &&& action matches ActionView::Navigate(u) && completes(a, u) && w.url == u && w.cursor
        == byte_len(u)
    &&& !w.focused
    &&& w.selection is None
    &&& w.suggestions.len() == 0
    &&& w.selected_suggestion is None
    &&& w.inline_completion is None
}

/// Enter goes to the picked suggestion, whatever the text of the bar and its
/// completion are.
pub proof fn law_enter_goes_to_the_picked_suggestion(
    v: ChromeView,
    text: Option<Seq<char>>,
    mods: ModifiersState,
    i: int,
)
    requires
        v.selected_suggestion == Some(i),
        0 <= i < v.suggestions.len(),
    ensures
        enter_goes_to(v, text, mods, v.suggestions[i].url),
{
    lemma_scheme(v.suggestions[i].url);
}

/// Without a picked suggestion Enter goes to the text with the completion shown
/// behind it, and without a completion to the text without blanks around it.
pub proof fn law_enter_goes_to_the_text(
    v: ChromeView,
    text: Option<Seq<char>>,
    mods: ModifiersState,
)
    ensures
        v.selected_suggestion is None && v.inline_completion is Some ==> enter_goes_to(
            v,
            text,
            mods,
            v.url + v.inline_completion->0,
        ),
        v.selected_suggestion is None && v.inline_completion is None ==> enter_goes_to(
            v,
            text,
            mods,
            trimmed(v.url),
        ),
        v.selected_suggestion matches Some(i) && i >= v.suggestions.len() ==> enter_goes_to(
            v,
            text,
            mods,
            trimmed(v.url),
        ),
{
    lemma_scheme(v.entered());
}

/// Whether two states of the bar hold the same text, cursor and selection.
pub open spec fn same_text(v: ChromeView, w: ChromeView) -> bool {
    v.url == w.url && v.cursor == w.cursor && v.selection == w.selection
}

/// Escape leaves the bar: its text stays as it is, and the focus, the selection,
/// the suggestions and the completion are gone.
pub proof fn law_escape_leaves_the_bar(
    v: ChromeView,
    text: Option<Seq<char>>,
    mods: ModifiersState,
)
    ensures
        ({
            let (w, action) = v.key_pressed(KeyView::Named(NamedKey::Escape), text, mods);
            &&& action == ActionView::Handled
            &&& w.url == v.url
            &&& w.cursor == v.cursor
            &&& !w.focused
            &&& w.selection is None
            &&& w.suggestions.len() == 0
            &&& w.selected_suggestion is None
            &&& w.inline_completion is None
        }),
{
}

/// The arrow keys up and down walk through the suggestions and past their ends
/// to none; they change nothing else, and without suggestions nothing at all.
pub proof fn law_arrows_walk_the_suggestions(
    v: ChromeView,
    text: Option<Seq<char>>,
    mods: ModifiersState,
    i: int,
)
    ensures
        ({
            let n = v.suggestions.len();
            let (d, down) = v.key_pressed(KeyView::Named(NamedKey::ArrowDown), text, mods);
            let (u, up) = v.key_pressed(KeyView::Named(NamedKey::ArrowUp), text, mods);
            &&& same_text(v, d) && same_text(v, u)
            &&& d.suggestions == v.suggestions && u.suggestions == v.suggestions
            &&& d.focused == v.focused && u.focused == v.focused
            &&& d.inline_completion == v.inline_completion && u.inline_completion
                == v.inline_completion
            &&& n == 0 ==> d == v && u == v && down == ActionView::Ignored && up
                == ActionView::Ignored
            &&& n > 0 ==> down == ActionView::Handled && up == ActionView::Handled
            &&& n > 0 && v.selected_suggestion is None ==> d.selected_suggestion == Some(0int)
                && u.selected_suggestion == Some(n - 1)
            &&& 0 <= i && i + 1 < n && v.selected_suggestion == Some(i) ==> d.selected_suggestion
                == Some(i + 1)
            &&& n > 0 && v.selected_suggestion == Some(n - 1) ==> d.selected_suggestion is None
            &&& 0 < i < n && v.selected_suggestion == Some(i) ==> u.selected_suggestion == Some(
                i - 1,
            )
            &&& n > 0 && v.selected_suggestion == Some(0int) ==> u.selected_suggestion is None
        }),
{
}

/// Home and End go to the two ends of the text. With Shift held the selection
/// reaches from where it began, or from the cursor, to the new place; without
/// it there is none.
pub proof fn law_home_and_end_reach_the_ends(
    v: ChromeView,
    text: Option<Seq<char>>,
    mods: ModifiersState,
)
    ensures
        ({
            let (h, home) = v.key_pressed(KeyView::Named(NamedKey::Home), text, mods);
            let (e, end) = v.key_pressed(KeyView::Named(NamedKey::End), text, mods);
            let anchor = match v.selection {
                Some(s) => s.0,
                None => v.cursor,
            };
            &&& home == ActionView::Handled && end == ActionView::Handled
            &&& h.url == v.url && e.url == v.url
            &&& h.cursor == 0 && e.cursor == byte_len(v.url)
            &&& mods.shift ==> h.selection == Some((anchor, 0int)) && e.selection == Some(
                (anchor, byte_len(v.url) as int),
            )
            &&& !mods.shift ==> h.selection is None && e.selection is None
        }),
{
}

/// The number of bytes in front of character `k`.
pub open spec fn at(s: Seq<char>, k: int) -> int {
    byte_len(s.take(k)) as int
}

proof fn lemma_at(s: Seq<char>, k: int)
    requires
        0 <= k <= s.len(),
    ensures
        chars_before(s, at(s, k)) == k,
        on_boundary(s, at(s, k)),
        0 <= at(s, k) <= byte_len(s),
        k == 0 ==> at(s, k) == 0,
        k > 0 ==> at(s, k) > 0,
        k < s.len() ==> at(s, k) < byte_len(s),
        k == s.len() ==> at(s, k) == byte_len(s),
        k > 0 ==> prev_boundary(s, at(s, k)) == at(s, k - 1),
        k < s.len() ==> next_boundary(s, at(s, k)) == at(s, k + 1),
{
    lemma_offset_on_boundary(s, k);
    assert(s.take(0) =~= Seq::<char>::empty());
    assert(s.take(s.len() as int) =~= s);
    lemma_offset_monotone(s, 0, k);
    lemma_offset_monotone(s, k, s.len() as int);
    if k < s.len() {
        let b = at(s, k);
        lemma_chars_before(s, b + 1);
        let n = chars_before(s, b + 1) as int;
        lemma_offset_monotone(s, k, k + 1);
        if n <= k {
            lemma_offset_monotone(s, n, k);
        } else if n > k + 1 {
            assert(offset_of(s, k + 1) < b + 1);
        }
    }
}

/// The arrow keys left and right step over one character, and stay at the ends
/// of the text. Where something is selected and Shift is not held, they go to
/// its near end instead.
pub proof fn law_arrows_step_over_one_character(
    v: ChromeView,
    text: Option<Seq<char>>,
    mods: ModifiersState,
    k: int,
)
    requires
        0 <= k <= v.url.len(),
        v.cursor == at(v.url, k),
    ensures
        ({
            let (l, left) = v.key_pressed(KeyView::Named(NamedKey::ArrowLeft), text, mods);
            let (r, right) = v.key_pressed(KeyView::Named(NamedKey::ArrowRight), text, mods);
            let steps = mods.shift || v.selection is None;
            &&& left == ActionView::Handled && right == ActionView::Handled
            &&& l.url == v.url && r.url == v.url
            &&& steps && k > 0 ==> l.cursor == at(v.url, k - 1)
            &&& steps && k == 0 ==> l.cursor == v.cursor
            &&& steps && k < v.url.len() ==> r.cursor == at(v.url, k + 1)
            &&& steps && k == v.url.len() ==> r.cursor == v.cursor
            &&& !steps && (v.selection->0).0 <= (v.selection->0).1 ==> {
                &&& l.cursor == (v.selection->0).0
                &&& r.cursor == (v.selection->0).1
            }
            &&& !steps && (v.selection->0).1 <= (v.selection->0).0 ==> {
                &&& l.cursor == (v.selection->0).1
                &&& r.cursor == (v.selection->0).0
            }
            &&& !mods.shift ==> l.selection is None && r.selection is None
            &&& mods.shift ==> {
                let anchor = match v.selection {
                    Some(s) => s.0,
                    None => v.cursor,
                };
                l.selection == Some((anchor, l.cursor)) && r.selection == Some((anchor, r.cursor))
            }
        }),
{
    lemma_at(v.url, k);
}

/// Whether nothing is selected: there is no selection, or it is empty.
pub open spec fn nothing_selected(v: ChromeView) -> bool {
    v.selection matches Some((a, b)) ==> a == b
}

/// Whether the characters from `i` up to `j` are selected, in either direction.
pub open spec fn selects(v: ChromeView, i: int, j: int) -> bool {
    &&& 0 <= i < j <= v.url.len()
    &&& v.selection == Some((at(v.url, i), at(v.url, j))) || v.selection == Some(
        (at(v.url, j), at(v.url, i)),
    )
}

/// Without a selection Backspace takes the character in front of the cursor and
/// Delete the one behind it; at the ends of the text there is none to take.
pub proof fn law_deleting_takes_one_character(
    v: ChromeView,
    text: Option<Seq<char>>,
    mods: ModifiersState,
    k: int,
)
    requires
        0 <= k <= v.url.len(),
        v.cursor == at(v.url, k),
        nothing_selected(v),
    ensures
        ({
            let (b, back) = v.key_pressed(KeyView::Named(NamedKey::Backspace), text, mods);
            let (d, del) = v.key_pressed(KeyView::Named(NamedKey::Delete), text, mods);
            &&& back == ActionView::Handled && del == ActionView::Handled
            &&& b.selection is None && d.selection is None
            &&& k > 0 ==> b.url == v.url.take(k - 1) + v.url.skip(k) && b.cursor == at(
                v.url,
                k - 1,
            )
            &&& k == 0 ==> b.url == v.url && b.cursor == v.cursor
            &&& k < v.url.len() ==> d.url == v.url.take(k) + v.url.skip(k + 1)
            &&& k == v.url.len() ==> d.url == v.url
            &&& d.cursor == v.cursor
        }),
{
    lemma_at(v.url, k);
    if k > 0 {
        assert(v.url.remove(k - 1) =~= v.url.take(k - 1) + v.url.skip(k));
    }
    if k < v.url.len() {
        assert(v.url.remove(k) =~= v.url.take(k) + v.url.skip(k + 1));
    }
}

proof fn lemma_selected(v: ChromeView, i: int, j: int)
    requires
        selects(v, i, j),
    ensures
        v.range() == Some((at(v.url, i), at(v.url, j))),
        v.has_range(),
        v.range_on_boundaries(),
        chars_before(v.url, at(v.url, i)) == i,
        chars_before(v.url, at(v.url, j)) == j,
{
    lemma_at(v.url, i);
    lemma_at(v.url, j);
    lemma_offset_monotone(v.url, i, j);
}

/// Backspace and Delete take what is selected, all of it and nothing else.
pub proof fn law_deleting_takes_the_selection(
    v: ChromeView,
    text: Option<Seq<char>>,
    mods: ModifiersState,
    i: int,
    j: int,
)
    requires
        selects(v, i, j),
    ensures
        ({
            let (b, back) = v.key_pressed(KeyView::Named(NamedKey::Backspace), text, mods);
            let (d, del) = v.key_pressed(KeyView::Named(NamedKey::Delete), text, mods);
            &&& back == ActionView::Handled && del == ActionView::Handled
            &&& b.url == v.url.take(i) + v.url.skip(j)
            &&& b.cursor == at(v.url, i)
            &&& b.selection is None
            &&& d == b
        }),
{
    lemma_selected(v, i, j);
    assert(splice(v.url, at(v.url, i), at(v.url, j), Seq::empty()) =~= v.url.take(i) + v.url.skip(
        j,
    ));
}

/// Copying gives the selected characters, and nothing where none are.
pub proof fn law_copying_gives_the_selection(v: ChromeView, i: int, j: int)
    ensures
        selects(v, i, j) ==> v.selected() == Some(v.url.subrange(i, j)),
        nothing_selected(v) ==> v.selected() is None,
{
    if selects(v, i, j) {
        lemma_selected(v, i, j);
        lemma_at(v.url, i);
        lemma_at(v.url, j);
    }
}

/// What goes into the bar stands where the cursor was, or in the place of what
/// was selected, with the cursor behind it.
pub proof fn law_insertions_stand_at_the_cursor(v: ChromeView, t: Seq<char>, k: int, i: int, j: int)
    requires
        forall|m: int| 0 <= m < t.len() ==> !is_bidi_control(#[trigger] t[m]),
    ensures
        0 <= k <= v.url.len() && v.cursor == at(v.url, k) && nothing_selected(v) ==> {
            let w = v.inserted(t);
            &&& w.url == v.url.take(k) + t + v.url.skip(k)
            &&& w.cursor == byte_len(v.url.take(k) + t)
            &&& w.selection is None
        },
        selects(v, i, j) ==> {
            let w = v.inserted(t);
            &&& w.url == v.url.take(i) + t + v.url.skip(j)
            &&& w.cursor == byte_len(v.url.take(i) + t)
            &&& w.selection is None
        },
        v.cursor >= byte_len(v.url) && nothing_selected(v) ==> v.inserted(t).url == v.url + t,
{
    assert(bidi_clean(t));
    law_stripping_cleans(t);
    if 0 <= k <= v.url.len() && v.cursor == at(v.url, k) && nothing_selected(v) {
        lemma_at(v.url, k);
        lemma_byte_len_concat(v.url.take(k), t);
    }
    if selects(v, i, j) {
        lemma_selected(v, i, j);
        lemma_byte_len_concat(v.url.take(i), t);
    }
    if v.cursor >= byte_len(v.url) && nothing_selected(v) {
        let n = v.url.len() as int;
        lemma_at(v.url, n);
        assert(v.url.take(n) + t + v.url.skip(n) =~= v.url + t);
    }
}

/// What is typed goes in without its control characters and without controls of
/// the writing direction. A key that types nothing is not for the bar.
pub proof fn law_typed_text_goes_in(
    v: ChromeView,
    key: KeyView,
    text: Option<Seq<char>>,
    mods: ModifiersState,
)
    requires
        key matches KeyView::Character(_) && !mods.control || key == KeyView::Named(
            NamedKey::Other,
        ) || key is Unidentified,
    ensures
        text is None ==> v.key_pressed(key, text, mods) == (v, ActionView::Ignored),
        text matches Some(t) && printable(t).len() == 0 ==> v.key_pressed(key, text, mods) == (
            v,
            ActionView::Ignored,
        ),
        text matches Some(t) && printable(t).len() > 0 ==> v.key_pressed(key, text, mods) == (
            v.inserted(printable(text->0)),
            ActionView::Handled,
        ),
{
}

/// With Control held, A selects all, C copies, X cuts and V pastes, in small and
/// large letters; any other character is not for the bar.
pub proof fn law_control_keys(v: ChromeView, c: char, text: Option<Seq<char>>, shift: bool)
    ensures
        ({
            let mods = ModifiersState { control: true, shift };
            let (w, action) = v.key_pressed(KeyView::Character(seq![c]), text, mods);
            &&& c == 'a' || c == 'A' ==> action == ActionView::Handled && w.url == v.url
                && w.selection == Some((0int, byte_len(v.url) as int)) && w.cursor == byte_len(
                v.url,
            )
            &&& c == 'c' || c == 'C' ==> action == ActionView::Copy && w == v
            &&& c == 'x' || c == 'X' ==> action == ActionView::Cut && w == v
            &&& c == 'v' || c == 'V' ==> action == ActionView::Paste && w == v
            &&& !(c == 'a' || c == 'A' || c == 'c' || c == 'C' || c == 'x' || c == 'X' || c == 'v'
                || c == 'V') ==> action == ActionView::Ignored && w == v
        }),
{
    reveal_strlit("a");
    reveal_strlit("A");
    reveal_strlit("c");
    reveal_strlit("C");
    reveal_strlit("x");
    reveal_strlit("X");
    reveal_strlit("v");
    reveal_strlit("V");
    let one = seq![c];
    assert(one[0] == c);
    assert("a"@ =~= seq!['a']);
    assert("A"@ =~= seq!['A']);
    assert("c"@ =~= seq!['c']);
    assert("C"@ =~= seq!['C']);
    assert("x"@ =~= seq!['x']);
    assert("X"@ =~= seq!['X']);
    assert("v"@ =~= seq!['v']);
    assert("V"@ =~= seq!['V']);
    assert("a"@[0] == 'a' && "A"@[0] == 'A' && "c"@[0] == 'c' && "C"@[0] == 'C');
    assert("x"@[0] == 'x' && "X"@[0] == 'X' && "v"@[0] == 'v' && "V"@[0] == 'V');
}

/// Whether a character parts words in an address.
pub open spec fn parts_words(c: char) -> bool {
    c == ' ' || c == '/' || c == '.' || c == ':' || c == '?' || c == '&' || c == '=' || c == '-'
}

/// Whether the characters from `i` up to `j` are one whole word.
pub open spec fn whole_word(s: Seq<char>, i: int, j: int) -> bool {
    &&& 0 <= i <= j <= s.len()
    &&& forall|m: int| i <= m < j ==> !parts_words(#[trigger] s[m])
    &&& i > 0 ==> parts_words(s[i - 1])
    &&& j < s.len() ==> parts_words(s[j])
}

proof fn lemma_word_start(s: Seq<char>, k: int)
    requires
        0 <= k <= s.len(),
    ensures
        0 <= word_start(s, k) <= k,
        forall|m: int| word_start(s, k) <= m < k ==> !parts_words(#[trigger] s[m]),
        word_start(s, k) > 0 ==> parts_words(s[word_start(s, k) - 1]),
    decreases k,
{
    if k > 0 && !is_separator(s[k - 1]) {
        lemma_word_start(s, k - 1);
    }
}

proof fn lemma_word_end(s: Seq<char>, k: int)
    requires
        0 <= k <= s.len(),
    ensures
        k <= word_end(s, k) <= s.len(),
        forall|m: int| k <= m < word_end(s, k) ==> !parts_words(#[trigger] s[m]),
        word_end(s, k) < s.len() ==> parts_words(s[word_end(s, k)]),
    decreases s.len() - k,
{
    if k < s.len() && !is_separator(s[k]) {
        lemma_word_end(s, k + 1);
    }
}

/// A double click selects the whole word around the cursor; where there is none,
/// the one character behind the cursor; and at the end of the text nothing. The
/// text stays as it is, and the cursor goes to the end of the selection.
pub proof fn law_a_double_click_selects_the_word(v: ChromeView, k: int) -> (word: (int, int))
    requires
        0 <= k <= v.url.len(),
        v.cursor == at(v.url, k),
        v.url.len() > 0,
    ensures
        whole_word(v.url, word.0, word.1),
        word.0 <= k <= word.1,
        v.word_selected().url == v.url,
        word.0 < word.1 ==> v.word_selected().selection == Some(
            (at(v.url, word.0), at(v.url, word.1)),
        ),
        word.0 == word.1 && k < v.url.len() ==> v.word_selected().selection == Some(
            (at(v.url, k), at(v.url, k + 1)),
        ),
        word.0 == word.1 && k == v.url.len() ==> v.word_selected().selection == Some(
            (at(v.url, k), at(v.url, k)),
        ),
        v.word_selected().selection matches Some((_, b)) && v.word_selected().cursor == b,
{
    lemma_at(v.url, k);
    lemma_word_start(v.url, k);
    lemma_word_end(v.url, k);
    (word_start(v.url, k), word_end(v.url, k))
}

/// A page's address is shown whole, with the cursor behind it, nothing selected
/// and no completion.
pub proof fn law_addresses_are_shown_whole(v: ChromeView, url: Seq<char>)
    ensures
        ({
            let w = v.displaying(url);
            &&& w.url == url
            &&& w.cursor == byte_len(url)
            &&& w.selection is None
            &&& w.inline_completion is None
            &&& w.committed_url == v.committed_url
            &&& w.suggestions == v.suggestions
            &&& w.focused == v.focused
        }),
{
}

/// A click puts the cursor between two characters, at the place nearest to it.
pub proof fn law_a_click_goes_to_the_nearest_place<S>(
    v: ChromeView,
    b: int,
    x: int,
    style: S,
    w: spec_fn(Seq<char>, S) -> nat,
    j: int,
)
    requires
        v.cursor_is_closest(b, x, style, w),
        0 <= j <= v.url.len(),
    ensures
        ({
            let k = chars_before(v.url, b) as int;
            let here = (if k == 0 {
                0
            } else {
                w(v.url.take(k), style) as int
            }) - x;
            let there = (if j == 0 {
                0
            } else {
                w(v.url.take(j), style) as int
            }) - x;
            &&& 0 <= k <= v.url.len()
            &&& b == at(v.url, k)
            &&& -there <= here <= there || there <= here <= -there
        }),
{
    let k = chars_before(v.url, b) as int;
    crate::fit::law_the_nearest_place_is_nearest(v.url, k, v.url.len() as int, x, style, w, j);
}

/// In an empty bar there is no word to select.
pub proof fn law_an_empty_bar_has_no_word(v: ChromeView)
    requires
        v.url.len() == 0,
    ensures
        v.word_selected() == v,
{
}

/// Text goes in as if what steers the writing direction had never been in it.
pub proof fn law_steering_characters_do_not_go_in(v: ChromeView, text: Seq<char>)
    ensures
        v.inserted(text) == v.inserted(without_bidi_controls(text)),
{
    law_stripping_cleans(text);
}

/// What is inserted, moved or deleted changes neither the focus nor the
/// suggestions.
pub proof fn law_editing_keeps_the_suggestions(
    v: ChromeView,
    text: Seq<char>,
    to: int,
    extend: bool,
)
    ensures
        ({
            let a = v.inserted(text);
            a.focused == v.focused && a.suggestions == v.suggestions && a.selected_suggestion
                == v.selected_suggestion && a.hovered_suggestion == v.hovered_suggestion
                && a.inline_completion == v.inline_completion
        }),
        ({
            let a = v.deleted_backward();
            a.focused == v.focused && a.suggestions == v.suggestions && a.selected_suggestion
                == v.selected_suggestion && a.hovered_suggestion == v.hovered_suggestion
                && a.inline_completion == v.inline_completion
        }),
        ({
            let a = v.deleted_forward();
            a.focused == v.focused && a.suggestions == v.suggestions && a.selected_suggestion
                == v.selected_suggestion && a.hovered_suggestion == v.hovered_suggestion
                && a.inline_completion == v.inline_completion
        }),
        ({
            let a = v.moved(to, extend);
            a.focused == v.focused && a.suggestions == v.suggestions && a.url == v.url
                && a.selected_suggestion == v.selected_suggestion && a.inline_completion
                == v.inline_completion
        }),
        ({
            let a = v.all_selected();
            a.focused == v.focused && a.suggestions == v.suggestions && a.inline_completion
                == v.inline_completion && a.selected_suggestion == v.selected_suggestion
        }),
        ({
            let a = v.word_selected();
            a.focused == v.focused && a.suggestions == v.suggestions && a.inline_completion
                == v.inline_completion && a.selected_suggestion == v.selected_suggestion
        }),
{
}

} // verus!
