//! What holds of the URL bar over several operations.

use vstd::prelude::*;

use crate::bidi::{bidi_clean, is_bidi_control, law_stripping_cleans, without_bidi_controls};
use crate::chrome::keys::{with_scheme, KeyView, ModifiersState};
use crate::chrome::state::{
    bytes_between, lemma_splice_boundaries, prev_boundary, splice, ChromeView,
};
use crate::text::{
    byte_len, char_width, chars_before, lemma_byte_len_concat, lemma_chars_before,
    lemma_offset_monotone, lemma_offset_on_boundary, occurs, offset_of,
};

verus! {

/// Neither typing nor pasting can bring a bidi control into a clean bar.
pub proof fn law_inserting_keeps_the_bar_clean(v: ChromeView, text: Seq<char>)
    requires
        bidi_clean(v.url),
        v.can_insert(),
    ensures
        bidi_clean(v.inserted(text).url),
{
    let t = without_bidi_controls(text);
    law_stripping_cleans(text);
    let (lo, hi) = if v.has_range() {
        v.range()->0
    } else {
        (v.cursor_in_text(), v.cursor_in_text())
    };
    lemma_chars_before(v.url, lo);
    lemma_chars_before(v.url, hi);
    let r = splice(v.url, lo, hi, t);
    let a = chars_before(v.url, lo) as int;
    let b = chars_before(v.url, hi) as int;
    assert forall|i: int| 0 <= i < r.len() implies !is_bidi_control(#[trigger] r[i]) by {
        if i < a {
            assert(r[i] == v.url[i]);
        } else if i < a + t.len() {
            assert(r[i] == t[i - a]);
        } else {
            assert(r[i] == v.url[b + (i - a - t.len())]);
        }
    }
}

/// No key press touches the address of the loaded document.
pub proof fn law_keys_never_touch_the_committed_url(
    v: ChromeView,
    key: KeyView,
    text: Option<Seq<char>>,
    mods: ModifiersState,
)
    ensures
        v.key_pressed(key, text, mods).0.committed_url == v.committed_url,
        v.key_pressed(key, text, mods).0.loading == v.loading,
{
}

/// Enter goes to the empty address, to one that names its scheme, or to an
/// `about:` page; completing an address twice changes nothing.
pub proof fn law_entered_addresses_name_a_scheme(url: Seq<char>)
    ensures
        ({
            let r = with_scheme(url);
            r.len() == 0 || occurs(r, "://"@) || "about:"@.is_prefix_of(r)
        }),
        with_scheme(with_scheme(url)) == with_scheme(url),
{
    let r = with_scheme(url);
    if url.len() != 0 && !occurs(url, "://"@) && !"about:"@.is_prefix_of(url) {
        reveal_strlit("mizu://");
        reveal_strlit("://");
        assert(r.subrange(4, 4int + "://"@.len()) =~= "://"@);
    }
}

/// What was typed in front of the cursor, Backspace takes away again.
pub proof fn law_backspace_undoes_typing(v: ChromeView, c: char)
    requires
        v.consistent(),
        v.selection is None,
        !is_bidi_control(c),
    ensures
        v.inserted(seq![c]).deleted_backward() == v,
{
    let one = seq![c];
    law_stripping_cleans(one);
    assert(bidi_clean(one));
    let k = chars_before(v.url, v.cursor) as int;
    lemma_chars_before(v.url, v.cursor);
    lemma_offset_on_boundary(v.url, k);
    let w = v.inserted(one);
    let a = v.url.take(k);
    assert(w.url =~= a + one + v.url.skip(k));
    assert(w.url.take(k) =~= a);
    assert(w.url.take(k + 1) =~= a + one);
    lemma_byte_len_concat(a, one);
    lemma_offset_on_boundary(w.url, k + 1);
    assert(one.drop_last() =~= Seq::<char>::empty());
    assert(byte_len(one) == char_width(c)) by {
        reveal_with_fuel(byte_len, 2);
    }
    assert(w.cursor == offset_of(w.url, k + 1));
    assert(chars_before(w.url, w.cursor) == k + 1);
    assert(w.url.remove(k) =~= v.url);
}

/// Cut and paste restores the text: what was cut goes back where it was, with
/// the cursor behind it and nothing selected. Only what was cut must hold no
/// control of the writing direction.
pub proof fn law_paste_undoes_cut(v: ChromeView)
    requires
        v.consistent(),
        v.has_range(),
        bidi_clean(v.selected()->0),
    ensures
        v.selected() is Some,
        ({
            let w = v.range_deleted().inserted(v.selected()->0);
            &&& w.url == v.url
            &&& w.cursor == (v.range()->0).1
            &&& w.selection is None
        }),
{
    let (lo, hi) = v.range()->0;
    let cut = v.selected()->0;
    let d = v.range_deleted();
    lemma_chars_before(v.url, lo);
    lemma_chars_before(v.url, hi);
    let i = chars_before(v.url, lo) as int;
    let j = chars_before(v.url, hi) as int;
    if j < i {
        lemma_offset_monotone(v.url, j, i);
    }
    law_stripping_cleans(cut);
    lemma_splice_boundaries(v.url, lo, hi, Seq::empty());
    assert(d.url.take(i) =~= v.url.take(i));
    lemma_offset_on_boundary(d.url, i);
    assert(chars_before(d.url, lo) == i);
    assert(d.url.skip(i) =~= v.url.skip(j));
    assert(v.url.take(i) + cut + v.url.skip(j) =~= v.url);
    assert(v.url.take(j) =~= v.url.take(i) + cut);
    lemma_byte_len_concat(v.url.take(i), cut);
}

/// A step right undoes a step left, as long as there is a character to step
/// over.
pub proof fn law_right_undoes_left(v: ChromeView)
    requires
        v.consistent(),
        v.selection is None,
        v.cursor > 0,
    ensures
        v.moved_left(false).moved_right(false) == v,
{
    let k = chars_before(v.url, v.cursor) as int;
    lemma_chars_before(v.url, v.cursor);
    assert(v.url.take(0) =~= Seq::<char>::empty());
    lemma_offset_on_boundary(v.url, k);
    lemma_offset_on_boundary(v.url, k - 1);
    lemma_offset_monotone(v.url, k - 1, k);
    let p = prev_boundary(v.url, v.cursor);
    assert(p == offset_of(v.url, k - 1));
    lemma_chars_before(v.url, p + 1);
    let n = chars_before(v.url, p + 1) as int;
    if n > k {
        assert(offset_of(v.url, k) < p + 1);
    } else if n < k {
        lemma_offset_monotone(v.url, n, k - 1);
    }
}

/// Deleting everything selected empties the bar, and copying it gives the
/// whole text.
pub proof fn law_select_all_covers_the_text(v: ChromeView)
    requires
        v.url.len() > 0,
    ensures
        v.all_selected().selected() == Some(v.url),
        v.all_selected().deleted_backward().url == Seq::<char>::empty(),
        v.all_selected().deleted_backward().cursor == 0,
{
    assert(v.url.take(0) =~= Seq::<char>::empty());
    assert(v.url.take(v.url.len() as int) =~= v.url);
    lemma_offset_on_boundary(v.url, 0);
    lemma_offset_on_boundary(v.url, v.url.len() as int);
    lemma_offset_monotone(v.url, 0, v.url.len() as int);
    assert(bytes_between(v.url, 0, byte_len(v.url) as int) =~= v.url);
    assert(splice(v.url, 0, byte_len(v.url) as int, Seq::empty()) =~= Seq::empty());
}

/// The arrow keys walk the suggestions in a circle: a step down and a step up
/// end where they began, and a picked suggestion always exists.
pub proof fn law_arrow_keys_walk_in_a_circle(v: ChromeView)
    requires
        v.suggestions.len() > 0,
        v.selected_suggestion matches Some(i) ==> 0 <= i < v.suggestions.len(),
    ensures
        v.suggestion_down() matches Some(i) ==> 0 <= i < v.suggestions.len(),
        v.suggestion_up() matches Some(i) ==> 0 <= i < v.suggestions.len(),
        (ChromeView { selected_suggestion: v.suggestion_down(), ..v }).suggestion_up()
            == v.selected_suggestion,
        (ChromeView { selected_suggestion: v.suggestion_up(), ..v }).suggestion_down()
            == v.selected_suggestion,
{
}

} // verus!
