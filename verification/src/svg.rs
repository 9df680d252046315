//! Taking the outline out of an icon file.

use vstd::prelude::*;

use crate::text::{chars_of, string_of};

verus! {

/// Whether the outline's attribute opens at `i`.
pub open spec fn opens_at(s: Seq<char>, i: int) -> bool {
    0 <= i && i + 3 <= s.len() && s[i] == 'd' && s[i + 1] == '=' && s[i + 2] == '"'
}

/// Where the attribute first opens, from `i` on.
pub open spec fn first_open(s: Seq<char>, i: int) -> Option<int>
    decreases s.len() - i,
{
    if i >= s.len() {
        None
    } else if opens_at(s, i) {
        Some(i)
    } else {
        first_open(s, i + 1)
    }
}

/// Where the next quote is, from `i` on.
pub open spec fn first_quote(s: Seq<char>, i: int) -> Option<int>
    decreases s.len() - i,
{
    if i >= s.len() {
        None
    } else if s[i] == '"' {
        Some(i)
    } else {
        first_quote(s, i + 1)
    }
}

/// The text of the first `d` attribute.
pub open spec fn path_data(s: Seq<char>) -> Option<Seq<char>> {
    match first_open(s, 0) {
        Some(i) => match first_quote(s, i + 3) {
            Some(j) => Some(s.subrange(i + 3, j)),
            None => None,
        },
        None => None,
    }
}

proof fn lemma_first_quote(s: Seq<char>, i: int)
    ensures
        first_quote(s, i) matches Some(j) ==> i <= j < s.len() && s[j] == '"',
    decreases s.len() - i,
{
    if i < s.len() && s[i] != '"' {
        lemma_first_quote(s, i + 1);
    }
}

/// The outline in an icon file: the text of its first `d` attribute. None where
/// the file has no such attribute.
pub fn parse_svg_path(svg: &str) -> (r: Option<String>)
    ensures
        (match r {
            Some(t) => Some(t@),
            None => None,
        }) == path_data(svg@),
{
    let all = chars_of(svg);
    let ghost s = svg@;
    let n = all.len();
    let mut i: usize = 0;
    while i < n
        invariant
            i <= n == all@.len(),
            all@ == s,
            s == svg@,
            first_open(s, 0) == first_open(s, i as int),
        decreases n - i,
    {
        if n - i >= 3 && all[i] == 'd' && all[i + 1] == '=' && all[i + 2] == '"' {
            let start: usize = i + 3;
            let mut j: usize = start;
            while j < n
                invariant
                    start <= j <= n == all@.len(),
                    all@ == s,
                    s == svg@,
                    start == i + 3,
                    first_open(s, 0) == Some(i as int),
                    first_quote(s, start as int) == first_quote(s, j as int),
                decreases n - j,
            {
                if all[j] == '"' {
                    return Some(string_of(&all, start, j));
                }
                j += 1;
            }
            return None;
        }
        i += 1;
    }
    None
}

/// The outline has no quote in it.
pub proof fn law_outlines_hold_no_quote(s: Seq<char>, k: int)
    requires
        path_data(s) is Some,
        0 <= k < path_data(s)->0.len(),
    ensures
        path_data(s)->0[k] != '"',
{
    let i = first_open(s, 0)->0;
    lemma_first_open(s, 0);
    lemma_first_quote(s, i + 3);
    lemma_before_first_quote(s, i + 3, i + 3 + k);
}

proof fn lemma_first_open(s: Seq<char>, i: int)
    requires
        i >= 0,
    ensures
        first_open(s, i) matches Some(j) ==> i <= j && opens_at(s, j),
    decreases s.len() - i,
{
    if i < s.len() && !opens_at(s, i) {
        lemma_first_open(s, i + 1);
    }
}

proof fn lemma_before_first_quote(s: Seq<char>, i: int, k: int)
    requires
        0 <= i <= k,
        first_quote(s, i) matches Some(j) && k < j,
    ensures
        s[k] != '"',
    decreases s.len() - i,
{
    if i < k {
        lemma_before_first_quote(s, i + 1, k);
    }
}

proof fn lemma_opens_first(s: Seq<char>, i: int, k: int)
    requires
        0 <= i <= k,
        opens_at(s, k),
        forall|j: int| i <= j < k ==> !#[trigger] opens_at(s, j),
    ensures
        first_open(s, i) == Some(k),
    decreases k - i,
{
    if i < k {
        assert(!opens_at(s, i));
        lemma_opens_first(s, i + 1, k);
    }
}

proof fn lemma_no_open(s: Seq<char>, i: int)
    requires
        forall|j: int| i <= j < s.len() ==> !#[trigger] opens_at(s, j),
    ensures
        first_open(s, i) is None,
    decreases s.len() - i,
{
    if i < s.len() {
        assert(!opens_at(s, i));
        lemma_no_open(s, i + 1);
    }
}

proof fn lemma_quotes_first(s: Seq<char>, i: int, k: int)
    requires
        0 <= i <= k < s.len(),
        s[k] == '"',
        forall|j: int| i <= j < k ==> #[trigger] s[j] != '"',
    ensures
        first_quote(s, i) == Some(k),
    decreases k - i,
{
    if i < k {
        lemma_quotes_first(s, i + 1, k);
    }
}

proof fn lemma_no_quote(s: Seq<char>, i: int)
    requires
        0 <= i,
        forall|j: int| i <= j < s.len() ==> #[trigger] s[j] != '"',
    ensures
        first_quote(s, i) is None,
    decreases s.len() - i,
{
    if i < s.len() {
        lemma_no_quote(s, i + 1);
    }
}

/// Whether the mark of an outline, `d="`, stands at `i`.
pub open spec fn marked(s: Seq<char>, i: int) -> bool {
    0 <= i && i + 2 < s.len() && s[i] == 'd' && s[i + 1] == '=' && s[i + 2] == '"'
}

/// The outline is what stands between the first mark and the next quote; without
/// a mark, or without a quote behind it, there is none.
pub proof fn law_the_outline_stands_in_quotes(s: Seq<char>, i: int, j: int)
    ensures
        marked(s, i) && (forall|k: int| 0 <= k < i ==> !#[trigger] marked(s, k)) && i + 3 <= j
            < s.len() && s[j] == '"' && (forall|k: int| i + 3 <= k < j ==> #[trigger] s[k] != '"')
            ==> path_data(s) == Some(s.subrange(i + 3, j)),
        (forall|k: int| !#[trigger] marked(s, k)) ==> path_data(s) is None,
        marked(s, i) && (forall|k: int| 0 <= k < i ==> !#[trigger] marked(s, k)) && (forall|k: int|
            i + 3 <= k < s.len() ==> #[trigger] s[k] != '"') ==> path_data(s) is None,
{
    assert forall|k: int| #[trigger] opens_at(s, k) == marked(s, k) by {}
    if marked(s, i) && (forall|k: int| 0 <= k < i ==> !#[trigger] marked(s, k)) {
        assert forall|k: int| 0 <= k < i implies !#[trigger] opens_at(s, k) by {
            assert(!marked(s, k));
        }
        lemma_opens_first(s, 0, i);
        if i + 3 <= j < s.len() && s[j] == '"' && (forall|k: int|
            i + 3 <= k < j ==> #[trigger] s[k] != '"') {
            lemma_quotes_first(s, i + 3, j);
        }
        if forall|k: int| i + 3 <= k < s.len() ==> #[trigger] s[k] != '"' {
            lemma_no_quote(s, i + 3);
        }
    }
    if forall|k: int| !#[trigger] marked(s, k) {
        assert forall|k: int| 0 <= k < s.len() implies !#[trigger] opens_at(s, k) by {
            assert(!marked(s, k));
        }
        lemma_no_open(s, 0);
    }
}

} // verus!
