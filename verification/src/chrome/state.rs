//! The URL bar's editing state.
//!
//! Every operation is described on [`ChromeView`], the state seen as plain
//! sequences of characters. `cursor` and `selection` are byte offsets into the
//! text; [`ChromeView::consistent`] says that they all lie between characters,
//! and every operation keeps it so.

use vstd::prelude::*;

use crate::bidi::{strip_bidi_overrides, without_bidi_controls};
use crate::fit::{closest, measures, measures_anything, url_cursor_from_x};
use crate::history::{VisitRecord, VisitView};
use crate::text::{
    byte_len, byte_length, char_position, chars_before, chars_of, lemma_byte_len_concat,
    lemma_chars_before, lemma_offset_monotone, lemma_offset_on_boundary, offset_at, offset_of,
    on_boundary,
};

verus! {

/// The state of the chrome bar.
#[derive(Debug)]
pub struct ChromeState {
    /// Address of the document that is loaded: the origin of record. Nothing
    /// that happens in the URL bar writes it.
    pub committed_url: String,
    /// Text of the URL bar, for display and editing only.
    pub url: String,
    /// Cursor position as a byte offset into `url`.
    pub cursor: usize,
    /// Selection as byte offsets `(anchor, head)`, in either order.
    pub selection: Option<(usize, usize)>,
    /// Whether the URL bar has keyboard focus.
    pub focused: bool,
    /// Whether a page is being loaded.
    pub loading: bool,
    /// Suggestions from history.
    pub suggestions: Vec<VisitRecord>,
    /// The suggestion picked with the arrow keys.
    pub selected_suggestion: Option<usize>,
    /// The suggestion under the pointer.
    pub hovered_suggestion: Option<usize>,
    /// Completion shown behind the text.
    pub inline_completion: Option<String>,
}

/// What a [`ChromeState`] holds.
#[verifier::ext_equal]
pub struct ChromeView {
    pub committed_url: Seq<char>,
    pub url: Seq<char>,
    pub cursor: int,
    pub selection: Option<(int, int)>,
    pub focused: bool,
    pub loading: bool,
    pub suggestions: Seq<VisitView>,
    pub selected_suggestion: Option<int>,
    pub hovered_suggestion: Option<int>,
    pub inline_completion: Option<Seq<char>>,
}

/// An index as a mathematical integer.
pub open spec fn opt_int(o: Option<usize>) -> Option<int> {
    match o {
        Some(i) => Some(i as int),
        None => None,
    }
}

impl View for ChromeState {
    type V = ChromeView;

    open spec fn view(&self) -> ChromeView {
        ChromeView {
            committed_url: self.committed_url@,
            url: self.url@,
            cursor: self.cursor as int,
            selection: match self.selection {
                Some((a, b)) => Some((a as int, b as int)),
                None => None,
            },
            focused: self.focused,
            loading: self.loading,
            suggestions: self.suggestions@.map_values(|r: VisitRecord| r@),
            selected_suggestion: opt_int(self.selected_suggestion),
            hovered_suggestion: opt_int(self.hovered_suggestion),
            inline_completion: match self.inline_completion {
                Some(s) => Some(s@),
                None => None,
            },
        }
    }
}

/// `s` with the characters between byte offsets `lo` and `hi` replaced by `t`.
pub open spec fn splice(s: Seq<char>, lo: int, hi: int, t: Seq<char>) -> Seq<char> {
    s.take(chars_before(s, lo) as int) + t + s.skip(chars_before(s, hi) as int)
}

/// The characters of `s` between byte offsets `lo` and `hi`.
pub open spec fn bytes_between(s: Seq<char>, lo: int, hi: int) -> Seq<char> {
    s.subrange(chars_before(s, lo) as int, chars_before(s, hi) as int)
}

/// The last character boundary of `s` before byte `b`; 0 at the start.
pub open spec fn prev_boundary(s: Seq<char>, b: int) -> int {
    if b <= 0 {
        0
    } else if b > byte_len(s) {
        byte_len(s) as int
    } else {
        offset_of(s, chars_before(s, b) - 1) as int
    }
}

/// The first character boundary of `s` after byte `b`; the end of `s` where
/// there is none.
pub open spec fn next_boundary(s: Seq<char>, b: int) -> int {
    if b >= byte_len(s) {
        byte_len(s) as int
    } else {
        offset_of(s, chars_before(s, b + 1) as int) as int
    }
}

/// The characters that end a word in an address.
pub open spec fn is_separator(c: char) -> bool {
    c == ' ' || c == '/' || c == '.' || c == ':' || c == '?' || c == '&' || c == '=' || c == '-'
}

/// Where the run of non-separators that ends at position `k` begins.
pub open spec fn word_start(s: Seq<char>, k: int) -> int
    decreases k,
{
    if k <= 0 || is_separator(s[k - 1]) {
        k
    } else {
        word_start(s, k - 1)
    }
}

/// Where the run of non-separators that begins at position `k` ends.
pub open spec fn word_end(s: Seq<char>, k: int) -> int
    decreases s.len() - k,
{
    if k >= s.len() || is_separator(s[k]) {
        k
    } else {
        word_end(s, k + 1)
    }
}

impl ChromeView {
    /// Cursor and selection lie between characters of the text.
    pub open spec fn consistent(self) -> bool {
        &&& on_boundary(self.url, self.cursor)
        &&& (self.selection matches Some((a, b)) ==> on_boundary(self.url, a) && on_boundary(
            self.url,
            b,
        ))
    }

    /// The selection with its ends in order.
    pub open spec fn range(self) -> Option<(int, int)> {
        match self.selection {
            Some((a, b)) => if a <= b {
                Some((a, b))
            } else {
                Some((b, a))
            },
            None => None,
        }
    }

    /// Whether at least one byte is selected.
    pub open spec fn has_range(self) -> bool {
        self.range() matches Some((lo, hi)) && lo < hi
    }

    /// Whether the selection, if there is one, lies between characters.
    pub open spec fn range_on_boundaries(self) -> bool {
        self.range() matches Some((lo, hi)) ==> on_boundary(self.url, lo) && on_boundary(
            self.url,
            hi,
        )
    }

    /// The cursor, held within the text.
    pub open spec fn cursor_in_text(self) -> int {
        if self.cursor <= byte_len(self.url) {
            self.cursor
        } else {
            byte_len(self.url) as int
        }
    }

    /// The selected characters.
    pub open spec fn selected(self) -> Option<Seq<char>> {
        match self.range() {
            Some((lo, hi)) => if lo < hi && on_boundary(self.url, lo) && on_boundary(
                self.url,
                hi,
            ) {
                Some(bytes_between(self.url, lo, hi))
            } else {
                None
            },
            None => None,
        }
    }

    /// The text shown becomes `url`, with the cursor behind it.
    pub open spec fn displaying(self, url: Seq<char>) -> ChromeView {
        ChromeView {
            url,
            cursor: byte_len(url) as int,
            selection: None,
            inline_completion: None,
            ..self
        }
    }

    /// The selection is deleted and the cursor put in its place.
    pub open spec fn range_deleted(self) -> ChromeView {
        let (lo, hi) = self.range()->0;
        ChromeView {
            url: splice(self.url, lo, hi, Seq::empty()),
            cursor: lo,
            selection: None,
            ..self
        }
    }

    /// When text can be inserted: the place where it goes lies between
    /// characters.
    pub open spec fn can_insert(self) -> bool {
        if self.has_range() {
            self.range_on_boundaries()
        } else {
            on_boundary(self.url, self.cursor_in_text())
        }
    }

    /// `text`, stripped of bidi controls, replaces the selection or goes in at
    /// the cursor, which ends up behind it.
    pub open spec fn inserted(self, text: Seq<char>) -> ChromeView {
        let t = without_bidi_controls(text);
        let (lo, hi) = if self.has_range() {
            self.range()->0
        } else {
            (self.cursor_in_text(), self.cursor_in_text())
        };
        ChromeView {
            url: splice(self.url, lo, hi, t),
            cursor: lo + byte_len(t),
            selection: None,
            ..self
        }
    }

    /// When Backspace can act: on a selection between characters, or with the
    /// cursor within the text.
    pub open spec fn can_delete_backward(self) -> bool {
        if self.has_range() {
            self.range_on_boundaries()
        } else {
            self.cursor <= byte_len(self.url)
        }
    }

    /// Backspace: the selection goes, or the character before the cursor.
    pub open spec fn deleted_backward(self) -> ChromeView {
        if self.has_range() {
            self.range_deleted()
        } else if self.cursor == 0 {
            ChromeView { selection: None, ..self }
        } else {
            let k = chars_before(self.url, self.cursor) - 1;
            ChromeView {
                url: self.url.remove(k),
                cursor: offset_of(self.url, k) as int,
                selection: None,
                ..self
            }
        }
    }

    /// When Delete can act: on a selection between characters, or with the
    /// cursor between characters or behind the text.
    pub open spec fn can_delete_forward(self) -> bool {
        if self.has_range() {
            self.range_on_boundaries()
        } else {
            on_boundary(self.url, self.cursor_in_text())
        }
    }

    /// Delete: the selection goes, or the character after the cursor.
    pub open spec fn deleted_forward(self) -> ChromeView {
        if self.has_range() {
            self.range_deleted()
        } else if self.cursor >= byte_len(self.url) {
            ChromeView { selection: None, ..self }
        } else {
            ChromeView {
                url: self.url.remove(chars_before(self.url, self.cursor) as int),
                selection: None,
                ..self
            }
        }
    }

    /// The cursor goes to `to`; with `extend` the selection grows from its
    /// anchor to there, otherwise it is dropped.
    pub open spec fn moved(self, to: int, extend: bool) -> ChromeView {
        let anchor = match self.selection {
            Some((a, _)) => a,
            None => self.cursor,
        };
        ChromeView {
            cursor: to,
            selection: if extend {
                Some((anchor, to))
            } else {
                None
            },
            ..self
        }
    }

    /// One character left; a selection that is not extended collapses to its
    /// left end.
    pub open spec fn moved_left(self, extend: bool) -> ChromeView {
        match self.range() {
            Some((lo, _)) if !extend => self.moved(lo, false),
            _ => self.moved(prev_boundary(self.url, self.cursor), extend),
        }
    }

    /// One character right; a selection that is not extended collapses to its
    /// right end.
    pub open spec fn moved_right(self, extend: bool) -> ChromeView {
        match self.range() {
            Some((_, hi)) if !extend => self.moved(hi, false),
            _ => self.moved(next_boundary(self.url, self.cursor), extend),
        }
    }

    /// Whether byte offset `b` is the boundary whose place on screen is
    /// closest to `x`, measured from the start of the text.
    pub open spec fn cursor_is_closest<S>(
        self,
        b: int,
        x: int,
        style: S,
        w: spec_fn(Seq<char>, S) -> nat,
    ) -> bool {
        on_boundary(self.url, b) && closest(
            self.url,
            chars_before(self.url, b) as int,
            self.url.len() as int,
            x,
            style,
            w,
        )
    }

    /// Everything is selected.
    pub open spec fn all_selected(self) -> ChromeView {
        let end = byte_len(self.url) as int;
        ChromeView { cursor: end, selection: Some((0, end)), ..self }
    }

    /// The word around the cursor is selected, or the separator after it where
    /// the cursor stands between two.
    pub open spec fn word_selected(self) -> ChromeView {
        if self.url.len() == 0 {
            self
        } else {
            let c = chars_before(self.url, self.cursor) as int;
            let i = word_start(self.url, c);
            let j = word_end(self.url, c);
            let end = if i == j && c < self.url.len() {
                offset_of(self.url, c + 1) as int
            } else {
                offset_of(self.url, j) as int
            };
            ChromeView {
                cursor: end,
                selection: Some((offset_of(self.url, i) as int, end)),
                ..self
            }
        }
    }
}

/// Two prefixes of a text, cut at offsets in order, nest.
proof fn lemma_chars_before_ordered(s: Seq<char>, lo: int, hi: int)
    requires
        lo <= hi,
    ensures
        chars_before(s, lo) <= chars_before(s, hi) <= s.len(),
    decreases s.len(),
{
    lemma_chars_before(s, hi);
    lemma_chars_before(s, lo);
    let k = chars_before(s, lo) as int;
    let m = chars_before(s, hi) as int;
    if m < k {
        assert(offset_of(s, m) < lo);
        if hi <= byte_len(s) {
            assert(offset_of(s, m) >= hi);
        } else {
            assert(m == s.len());
        }
    }
}

/// Where the text behind a splice begins, and the splice's other offsets, are
/// on boundaries.
pub proof fn lemma_splice_boundaries(s: Seq<char>, lo: int, hi: int, t: Seq<char>)
    requires
        on_boundary(s, lo),
        on_boundary(s, hi),
        lo <= hi,
    ensures
        on_boundary(splice(s, lo, hi, t), lo),
        on_boundary(splice(s, lo, hi, t), lo + byte_len(t)),
{
    let r = splice(s, lo, hi, t);
    let a = s.take(chars_before(s, lo) as int);
    lemma_chars_before(s, lo);
    lemma_chars_before(s, hi);
    assert(r.take(a.len() as int) =~= a);
    lemma_offset_on_boundary(r, a.len() as int);
    assert(r.take((a + t).len() as int) =~= a + t);
    lemma_byte_len_concat(a, t);
    lemma_offset_on_boundary(r, (a + t).len() as int);
}

impl Default for ChromeState {
    fn default() -> (s: ChromeState)
        ensures
            s@ == (ChromeView {
                committed_url: Seq::empty(),
                url: Seq::empty(),
                cursor: 0,
                selection: None,
                focused: false,
                loading: false,
                suggestions: Seq::empty(),
                selected_suggestion: None,
                hovered_suggestion: None,
                inline_completion: None,
            }),
    {
        ChromeState {
            committed_url: String::new(),
            url: String::new(),
            cursor: 0,
            selection: None,
            focused: false,
            loading: false,
            suggestions: Vec::new(),
            selected_suggestion: None,
            hovered_suggestion: None,
            inline_completion: None,
        }
    }
}

impl ChromeState {
    /// Replaces the text of the URL bar and drops every offset into the old
    /// one.
    pub fn set_displayed_url(&mut self, url: String)
        ensures
            final(self)@ == old(self)@.displaying(url@),
            final(self)@.consistent(),
    {
        self.cursor = byte_length(url.as_str());
        self.url = url;
        self.selection = None;
        self.inline_completion = None;
        proof {
            assert(self.url@.take(self.url@.len() as int) =~= self.url@);
            lemma_offset_on_boundary(self.url@, self.url@.len() as int);
        }
    }

    /// The selection as `(lo, hi)`.
    pub fn selection_range(&self) -> (r: Option<(usize, usize)>)
        ensures
            (match r {
                Some((lo, hi)) => Some((lo as int, hi as int)),
                None => None,
            }) == self@.range(),
    {
        match self.selection {
            Some((a, b)) => if a <= b {
                Some((a, b))
            } else {
                Some((b, a))
            },
            None => None,
        }
    }

    /// The selected text; `None` for an empty selection, and for one that does
    /// not lie between characters.
    pub fn selected_text(&self) -> (r: Option<&str>)
        ensures
            (match r {
                Some(t) => Some(t@),
                None => None,
            }) == self@.selected(),
    {
        match self.selection_range() {
            Some((lo, hi)) => {
                if lo == hi {
                    return None;
                }
                let i = char_position(self.url.as_str(), lo);
                let j = char_position(self.url.as_str(), hi);
                proof {
                    lemma_chars_before_ordered(self.url@, lo as int, hi as int);
                }
                if offset_at(self.url.as_str(), i) == lo && offset_at(self.url.as_str(), j) == hi {
                    Some(self.url.as_str().substring_char(i, j))
                } else {
                    None
                }
            },
            None => None,
        }
    }

    /// The last character boundary before `from`.
    fn prev_char_boundary(&self, from: usize) -> (o: usize)
        ensures
            o == prev_boundary(self@.url, from as int),
    {
        let len = byte_length(self.url.as_str());
        if from == 0 {
            return 0;
        }
        if from > len {
            return len;
        }
        let k = char_position(self.url.as_str(), from);
        proof {
            lemma_chars_before(self.url@, from as int);
            if k == 0 {
                assert(self.url@.take(0) =~= Seq::<char>::empty());
            }
        }
        offset_at(self.url.as_str(), k - 1)
    }

    /// The first character boundary after `from`.
    fn next_char_boundary(&self, from: usize) -> (o: usize)
        ensures
            o == next_boundary(self@.url, from as int),
    {
        let len = byte_length(self.url.as_str());
        if from >= len {
            return len;
        }
        let k = char_position(self.url.as_str(), from + 1);
        proof {
            lemma_chars_before(self.url@, from + 1);
        }
        offset_at(self.url.as_str(), k)
    }

    /// Replaces the text between the byte offsets `lo` and `hi` by `t`, and
    /// puts the cursor behind it.
    fn replace_range(&mut self, lo: usize, hi: usize, t: &str)
        requires
            lo <= hi,
            on_boundary(old(self)@.url, lo as int),
            on_boundary(old(self)@.url, hi as int),
        ensures
            final(self)@ == (ChromeView {
                url: splice(old(self)@.url, lo as int, hi as int, t@),
                cursor: lo + byte_len(t@),
                selection: None,
                ..old(self)@
            }),
            final(self)@.consistent(),
    {
        let i = char_position(self.url.as_str(), lo);
        let j = char_position(self.url.as_str(), hi);
        proof {
            lemma_chars_before_ordered(self.url@, lo as int, hi as int);
            lemma_splice_boundaries(self.url@, lo as int, hi as int, t@);
            lemma_byte_len_concat(self.url@.take(i as int), t@);
        }
        let n = self.url.as_str().unicode_len();
        let mut text = self.url.as_str().substring_char(0, i).to_owned();
        text.append(t);
        let cursor = byte_length(text.as_str());
        text.append(self.url.as_str().substring_char(j, n));
        proof {
            assert(self.url@.subrange(0, i as int) =~= self.url@.take(i as int));
            assert(self.url@.subrange(j as int, n as int) =~= self.url@.skip(j as int));
        }
        self.url = text;
        self.cursor = cursor;
        self.selection = None;
    }

    /// Inserts `text` at the cursor in place of the selection.
    ///
    /// Typing and pasting both come through here, so no bidi control reaches
    /// the bar by either.
    pub fn insert_text(&mut self, text: &str)
        requires
            old(self)@.can_insert(),
        ensures
            final(self)@ == old(self)@.inserted(text@),
            final(self)@.consistent(),
    {
        let clean = strip_bidi_overrides(text);
        let clean: &str = match &clean {
            std::borrow::Cow::Borrowed(t) => t,
            std::borrow::Cow::Owned(t) => t.as_str(),
        };
        if let Some((lo, hi)) = self.selection_range() {
            if lo < hi {
                self.replace_range(lo, hi, clean);
                return;
            }
        }
        let len = byte_length(self.url.as_str());
        let at = if self.cursor <= len {
            self.cursor
        } else {
            len
        };
        self.replace_range(at, at, clean);
    }

    /// Backspace: deletes the selection, or the character before the cursor.
    pub fn delete_backward(&mut self)
        requires
            old(self)@.can_delete_backward(),
        ensures
            final(self)@ == old(self)@.deleted_backward(),
            old(self)@.consistent() ==> final(self)@.consistent(),
    {
        if let Some((lo, hi)) = self.selection_range() {
            if lo < hi {
                self.replace_range(lo, hi, "");
                proof {
                    reveal_strlit("");
                    assert(""@ =~= Seq::<char>::empty());
                }
                return;
            }
        }
        self.selection = None;
        if self.cursor == 0 {
            return;
        }
        let ghost k = chars_before(self.url@, self.cursor as int) - 1;
        let prev = self.prev_char_boundary(self.cursor);
        proof {
            let url = self.url@;
            lemma_chars_before(url, self.cursor as int);
            assert(url.take(0) =~= Seq::<char>::empty());
            lemma_offset_on_boundary(url, k);
            lemma_offset_on_boundary(url, k + 1);
            lemma_offset_monotone(url, k, k + 1);
            assert(splice(url, prev as int, offset_of(url, k + 1) as int, ""@) =~= url.remove(k)) by {
                reveal_strlit("");
            }
            reveal_strlit("");
            assert(next_boundary(url, prev as int) == offset_of(url, k + 1)) by {
                lemma_chars_before(url, prev + 1);
                let n = chars_before(url, prev + 1) as int;
                lemma_offset_on_boundary(url, url.len() as int);
                assert(url.take(url.len() as int) =~= url);
                lemma_offset_monotone(url, k + 1, url.len() as int);
                if n > k + 1 {
                    assert(offset_of(url, k + 1) < prev + 1);
                } else if n <= k {
                    lemma_offset_monotone(url, n, k);
                }
            }
        }
        let next = self.next_char_boundary(prev);
        self.replace_range(prev, next, "");
    }

    /// Delete: deletes the selection, or the character after the cursor.
    pub fn delete_forward(&mut self)
        requires
            old(self)@.can_delete_forward(),
        ensures
            final(self)@ == old(self)@.deleted_forward(),
            old(self)@.consistent() ==> final(self)@.consistent(),
    {
        if let Some((lo, hi)) = self.selection_range() {
            if lo < hi {
                self.replace_range(lo, hi, "");
                proof {
                    reveal_strlit("");
                    assert(""@ =~= Seq::<char>::empty());
                }
                return;
            }
        }
        self.selection = None;
        if self.cursor >= byte_length(self.url.as_str()) {
            return;
        }
        let next = self.next_char_boundary(self.cursor);
        proof {
            let url = self.url@;
            let c = self.cursor as int;
            let k = chars_before(url, c) as int;
            lemma_chars_before(url, c);
            assert(url.take(url.len() as int) =~= url);
            lemma_offset_on_boundary(url, k + 1);
            lemma_offset_monotone(url, k, k + 1);
            assert(next == offset_of(url, k + 1)) by {
                lemma_chars_before(url, c + 1);
                let n = chars_before(url, c + 1) as int;
                lemma_offset_monotone(url, k + 1, url.len() as int);
                if n > k + 1 {
                    assert(offset_of(url, k + 1) < c + 1);
                } else if n <= k {
                    lemma_offset_monotone(url, n, k);
                }
            }
            reveal_strlit("");
            assert(splice(url, c, next as int, ""@) =~= url.remove(k));
        }
        self.replace_range(self.cursor, next, "");
    }

    /// Moves the cursor to `to`, dragging the selection along where `extend`
    /// is set.
    fn move_to(&mut self, to: usize, extend: bool)
        ensures
            final(self)@ == old(self)@.moved(to as int, extend),
    {
        let anchor = match self.selection {
            Some((a, _)) => a,
            None => self.cursor,
        };
        self.cursor = to;
        self.selection = if extend {
            Some((anchor, to))
        } else {
            None
        };
    }

    /// Moves the cursor one character to the left.
    pub fn move_left(&mut self, extend: bool)
        ensures
            final(self)@ == old(self)@.moved_left(extend),
            old(self)@.consistent() ==> final(self)@.consistent(),
    {
        proof {
            lemma_prev_on_boundary(self.url@, self.cursor as int);
        }
        let to = self.prev_char_boundary(self.cursor);
        match self.selection_range() {
            Some((lo, _)) => if extend {
                self.move_to(to, true)
            } else {
                self.move_to(lo, false)
            },
            None => self.move_to(to, extend),
        }
    }

    /// Moves the cursor one character to the right.
    pub fn move_right(&mut self, extend: bool)
        ensures
            final(self)@ == old(self)@.moved_right(extend),
            old(self)@.consistent() ==> final(self)@.consistent(),
    {
        proof {
            lemma_next_on_boundary(self.url@, self.cursor as int);
        }
        let to = self.next_char_boundary(self.cursor);
        match self.selection_range() {
            Some((_, hi)) => if extend {
                self.move_to(to, true)
            } else {
                self.move_to(hi, false)
            },
            None => self.move_to(to, extend),
        }
    }

    /// Moves the cursor to the start of the text.
    pub fn move_to_start(&mut self, extend: bool)
        ensures
            final(self)@ == old(self)@.moved(0, extend),
            old(self)@.consistent() ==> final(self)@.consistent(),
    {
        proof {
            lemma_ends_on_boundary(self.url@);
        }
        self.move_to(0, extend)
    }

    /// Moves the cursor to the end of the text.
    pub fn move_to_end(&mut self, extend: bool)
        ensures
            final(self)@ == old(self)@.moved(byte_len(old(self)@.url) as int, extend),
            old(self)@.consistent() ==> final(self)@.consistent(),
    {
        proof {
            lemma_ends_on_boundary(self.url@);
        }
        let end = byte_length(self.url.as_str());
        self.move_to(end, extend)
    }

    /// Selects all of the text.
    pub fn select_all(&mut self)
        ensures
            final(self)@ == old(self)@.all_selected(),
            final(self)@.consistent(),
    {
        proof {
            lemma_ends_on_boundary(self.url@);
        }
        let len = byte_length(self.url.as_str());
        self.selection = Some((0, len));
        self.cursor = len;
    }

    /// Selects the word of the address that the cursor is in.
    pub fn select_word_at_cursor(&mut self)
        ensures
            final(self)@ == old(self)@.word_selected(),
            old(self)@.consistent() ==> final(self)@.consistent(),
    {
        if self.url.as_str().is_empty() {
            return;
        }
        let ghost url = self.url@;
        let chars = chars_of(self.url.as_str());
        let c = char_position(self.url.as_str(), self.cursor);
        proof {
            lemma_chars_before(url, self.cursor as int);
        }
        let mut i: usize = c;
        while i > 0 && !separator(chars[i - 1])
            invariant
                i <= c <= chars@.len(),
                chars@ == url,
                word_start(url, c as int) == word_start(url, i as int),
            decreases i,
        {
            i -= 1;
        }
        let mut j: usize = c;
        while j < chars.len() && !separator(chars[j])
            invariant
                c <= j <= chars@.len(),
                chars@ == url,
                word_end(url, c as int) == word_end(url, j as int),
            decreases chars@.len() - j,
        {
            j += 1;
        }
        if i == j && c < chars.len() {
            j = c + 1;
        }
        let start = offset_at(self.url.as_str(), i);
        let end = offset_at(self.url.as_str(), j);
        proof {
            lemma_offset_on_boundary(url, i as int);
            lemma_offset_on_boundary(url, j as int);
        }
        self.selection = Some((start, end));
        self.cursor = end;
    }

    /// The selected text, for the clipboard.
    pub fn copy_text(&self) -> (r: Option<String>)
        ensures
            (match r {
                Some(t) => Some(t@),
                None => None,
            }) == self@.selected(),
    {
        match self.selected_text() {
            Some(t) => Some(t.to_owned()),
            None => None,
        }
    }

    /// Takes the selected text out of the bar, for the clipboard.
    pub fn cut_text(&mut self) -> (r: Option<String>)
        ensures
            (match r {
                Some(t) => Some(t@),
                None => None,
            }) == old(self)@.selected(),
            final(self)@ == (if old(self)@.selected() is Some {
                old(self)@.range_deleted()
            } else {
                old(self)@
            }),
            old(self)@.consistent() ==> final(self)@.consistent(),
    {
        let text = self.copy_text();
        if text.is_some() {
            self.delete_backward();
        }
        text
    }

    /// Puts the cursor where the pointer was pressed. `bar_left_x` is the left
    /// edge of the text; `measure` gives the width of text in `style`.
    pub fn set_cursor_from_click<S: Copy, F: Fn(&str, S) -> u32>(
        &mut self,
        click_x: i64,
        bar_left_x: i64,
        style: S,
        measure: F,
    )
        requires
            measures_anything(measure),
            i64::MIN <= click_x - bar_left_x <= i64::MAX,
        ensures
            final(self)@ == old(self)@.moved(final(self)@.cursor, false),
            final(self)@.consistent(),
            click_x <= bar_left_x ==> final(self)@.cursor == 0,
            click_x > bar_left_x ==> forall|w: spec_fn(Seq<char>, S) -> nat| #[trigger]
                measures(measure, w) ==> old(self)@.cursor_is_closest(
                    final(self)@.cursor,
                    click_x - bar_left_x,
                    style,
                    w,
                ),
    {
        let offset = url_cursor_from_x(self.url.as_str(), click_x - bar_left_x, style, measure);
        self.move_to(offset, false);
    }

    /// Drags the selection to where the pointer is.
    pub fn extend_selection_to_x<S: Copy, F: Fn(&str, S) -> u32>(
        &mut self,
        x: i64,
        bar_left_x: i64,
        style: S,
        measure: F,
    )
        requires
            measures_anything(measure),
            i64::MIN <= x - bar_left_x <= i64::MAX,
        ensures
            final(self)@ == old(self)@.moved(final(self)@.cursor, true),
            old(self)@.consistent() ==> final(self)@.consistent(),
            x <= bar_left_x ==> final(self)@.cursor == 0,
            x > bar_left_x ==> forall|w: spec_fn(Seq<char>, S) -> nat| #[trigger]
                measures(measure, w) ==> old(self)@.cursor_is_closest(
                    final(self)@.cursor,
                    x - bar_left_x,
                    style,
                    w,
                ),
    {
        let offset = url_cursor_from_x(self.url.as_str(), x - bar_left_x, style, measure);
        self.move_to(offset, true);
    }

    /// Pastes `text` at the cursor in place of the selection.
    pub fn paste_text(&mut self, text: &str)
        requires
            old(self)@.can_insert(),
        ensures
            final(self)@ == old(self)@.inserted(text@),
            final(self)@.consistent(),
    {
        self.insert_text(text)
    }
}

/// Whether `c` ends a word in an address.
fn separator(c: char) -> (r: bool)
    ensures
        r == is_separator(c),
{
    c == ' ' || c == '/' || c == '.' || c == ':' || c == '?' || c == '&' || c == '=' || c == '-'
}

proof fn lemma_ends_on_boundary(s: Seq<char>)
    ensures
        on_boundary(s, 0),
        on_boundary(s, byte_len(s) as int),
{
    assert(s.take(0) =~= Seq::<char>::empty());
    assert(s.take(s.len() as int) =~= s);
    lemma_offset_on_boundary(s, 0);
    lemma_offset_on_boundary(s, s.len() as int);
}

proof fn lemma_prev_on_boundary(s: Seq<char>, b: int)
    ensures
        on_boundary(s, prev_boundary(s, b)),
{
    lemma_ends_on_boundary(s);
    if 0 < b <= byte_len(s) {
        lemma_chars_before(s, b);
        assert(s.take(0) =~= Seq::<char>::empty());
        lemma_offset_on_boundary(s, chars_before(s, b) - 1);
    }
}

proof fn lemma_next_on_boundary(s: Seq<char>, b: int)
    ensures
        on_boundary(s, next_boundary(s, b)),
{
    lemma_ends_on_boundary(s);
    if b < byte_len(s) {
        lemma_chars_before(s, b + 1);
        lemma_offset_on_boundary(s, chars_before(s, b + 1) as int);
    }
}

} // verus!
