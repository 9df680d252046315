//! Bidirectional text: base-direction resolution and the URL-bar rule that no
//! direction-changing control character is ever shown there.

use std::borrow::Cow;

use vstd::prelude::*;

use crate::dom::{depth, is_document, lemma_parent_depth, Dom, Link, MizuNode};
use crate::text::{chars_of, same_text};

verus! {

/// A node's resolved text direction.
///
/// `Auto` means that neither the node nor an ancestor asked for `ltr` or `rtl`.
#[derive(Debug, Clone, Copy, PartialEq, Eq, Structural)]
pub enum ResolvedDirection {
    /// `dir="ltr"` on the node or on the nearest ancestor that chose.
    Ltr,
    /// `dir="rtl"` on the node or on the nearest ancestor that chose.
    Rtl,
    /// No explicit direction anywhere up to the root.
    Auto,
}

impl ResolvedDirection {
    /// Whether layout mirrors. `Auto` lays out left to right.
    pub fn is_rtl_for_layout(self) -> (r: bool)
        ensures
            r == (self == ResolvedDirection::Rtl),
    {
        matches!(self, ResolvedDirection::Rtl)
    }

    /// The zero-width mark that forces a paragraph's base direction: LRM or
    /// RLM, and nothing where the text itself decides.
    pub fn prepend_mark(self) -> (r: Option<char>)
        ensures
            r == (match self {
                ResolvedDirection::Ltr => Some('\u{200E}'),
                ResolvedDirection::Rtl => Some('\u{200F}'),
                ResolvedDirection::Auto => None,
            }),
    {
        match self {
            ResolvedDirection::Ltr => Some('\u{200E}'),
            ResolvedDirection::Rtl => Some('\u{200F}'),
            ResolvedDirection::Auto => None,
        }
    }
}

/// The direction that a node asks for itself.
pub open spec fn own_direction(node: MizuNode) -> Option<ResolvedDirection> {
    match node.attr("dir"@) {
        Some(d) => if d == "ltr"@ {
            Some(ResolvedDirection::Ltr)
        } else if d == "rtl"@ {
            Some(ResolvedDirection::Rtl)
        } else {
            None
        },
        None => None,
    }
}

/// The direction of node `i`: its own, else its parent's.
pub open spec fn inherited_direction(links: Seq<Link>, i: int) -> ResolvedDirection
    decreases depth(links, i),
    when is_document(links) && 0 <= i < links.len()
{
    proof {
        lemma_parent_depth(links, i);
    }
    match (own_direction(links[i].value), links[i].parent) {
        (Some(d), _) => d,
        (None, Some(p)) => inherited_direction(links, p as int),
        (None, None) => ResolvedDirection::Auto,
    }
}

/// The language of node `i`: its own, else its parent's.
pub open spec fn inherited_lang(links: Seq<Link>, i: int) -> Option<Seq<char>>
    decreases depth(links, i),
    when is_document(links) && 0 <= i < links.len()
{
    proof {
        lemma_parent_depth(links, i);
    }
    match (links[i].value.attr("lang"@), links[i].parent) {
        (Some(l), _) => Some(l),
        (None, Some(p)) => inherited_lang(links, p as int),
        (None, None) => None,
    }
}

/// The direction of a node: `ltr` or `rtl` from its own `dir` or from that of
/// the nearest ancestor that has one of the two. Any other `dir`, `auto`
/// among them, counts as none.
pub fn resolve_direction(dom: &Dom<'_>, node: usize) -> (r: ResolvedDirection)
    requires
        dom.valid(),
        node < dom.links().len(),
    ensures
        r == inherited_direction(dom.links(), node as int),
{
    let mut at: usize = node;
    loop
        invariant
            dom.valid(),
            at < dom.links().len(),
            inherited_direction(dom.links(), node as int) == inherited_direction(
                dom.links(),
                at as int,
            ),
        decreases depth(dom.links(), at as int),
    {
        proof {
            lemma_parent_depth(dom.links(), at as int);
        }
        if let Some(d) = dom.value(at).get("dir") {
            if same_text(d, "ltr") {
                return ResolvedDirection::Ltr;
            }
            if same_text(d, "rtl") {
                return ResolvedDirection::Rtl;
            }
        }
        match dom.parent(at) {
            Some(p) => {
                at = p;
            },
            None => {
                return ResolvedDirection::Auto;
            },
        }
    }
}

/// The language of a node: its own `lang`, or that of the nearest ancestor
/// that has one.
pub fn resolve_lang(dom: &Dom<'_>, node: usize) -> (r: Option<String>)
    requires
        dom.valid(),
        node < dom.links().len(),
    ensures
        (match r {
            Some(l) => Some(l@),
            None => None,
        }) == inherited_lang(dom.links(), node as int),
{
    let mut at: usize = node;
    loop
        invariant
            dom.valid(),
            at < dom.links().len(),
            inherited_lang(dom.links(), node as int) == inherited_lang(dom.links(), at as int),
        decreases depth(dom.links(), at as int),
    {
        proof {
            lemma_parent_depth(dom.links(), at as int);
        }
        if let Some(l) = dom.value(at).get("lang") {
            return Some(l.to_owned());
        }
        match dom.parent(at) {
            Some(p) => {
                at = p;
            },
            None => {
                return None;
            },
        }
    }
}

/// A node that asks for nothing, or for `auto`, takes its parent's direction;
/// one that asks for `ltr` or `rtl` has it, whatever its ancestors say.
pub proof fn law_direction_is_inherited_or_own(links: Seq<Link>, i: int)
    requires
        is_document(links),
        0 <= i < links.len(),
    ensures
        links[i].value.attr("dir"@) == Some("ltr"@) ==> inherited_direction(links, i)
            == ResolvedDirection::Ltr,
        links[i].value.attr("dir"@) == Some("rtl"@) ==> inherited_direction(links, i)
            == ResolvedDirection::Rtl,
        (links[i].value.attr("dir"@) is None || links[i].value.attr("dir"@) == Some("auto"@)) ==> (
        match links[i].parent {
            Some(p) => inherited_direction(links, i) == inherited_direction(links, p as int),
            None => inherited_direction(links, i) == ResolvedDirection::Auto,
        }),
{
    reveal_strlit("ltr");
    reveal_strlit("rtl");
    reveal_strlit("auto");
    lemma_parent_depth(links, i);
    assert("auto"@[0] != "ltr"@[0]);
    assert("auto"@[0] != "rtl"@[0]);
    assert("ltr"@[0] != "rtl"@[0]);
}

/// The embedding and override controls U+202A to U+202E and the isolates
/// U+2066 to U+2069.
pub open spec fn is_bidi_control(c: char) -> bool {
    '\u{202A}' <= c <= '\u{202E}' || '\u{2066}' <= c <= '\u{2069}'
}

/// `s` without its direction-changing control characters.
pub open spec fn without_bidi_controls(s: Seq<char>) -> Seq<char> {
    s.filter(|c: char| !is_bidi_control(c))
}

/// Whether `s` holds no direction-changing control character.
pub open spec fn bidi_clean(s: Seq<char>) -> bool {
    forall|i: int| 0 <= i < s.len() ==> !is_bidi_control(#[trigger] s[i])
}

/// Whether `c` is an embedding, override or isolate control.
pub fn is_bidi_override_or_isolate(c: char) -> (r: bool)
    ensures
        r == is_bidi_control(c),
{
    ('\u{202A}' <= c && c <= '\u{202E}') || ('\u{2066}' <= c && c <= '\u{2069}')
}

/// Deletes the embedding, override and isolate controls from `s`.
///
/// Text without any is handed back borrowed.
pub fn strip_bidi_overrides(s: &str) -> (r: Cow<'_, str>)
    ensures
        r@ == without_bidi_controls(s@),
        r is Borrowed <==> bidi_clean(s@),
{
    let chars = chars_of(s);
    let mut kept = String::new();
    let mut clean = true;
    let mut i: usize = 0;
    while i < chars.len()
        invariant
            i <= chars.len(),
            chars@ == s@,
            kept@ == without_bidi_controls(s@.take(i as int)),
            clean == bidi_clean(s@.take(i as int)),
            clean ==> kept@ == s@.take(i as int),
        decreases chars.len() - i,
    {
        let c = chars[i];
        proof {
            let next = s@.take(i + 1);
            assert(next.drop_last() =~= s@.take(i as int));
            assert(next =~= s@.take(i as int).push(c));
            reveal(Seq::filter);
            if bidi_clean(next) {
                assert forall|j: int| 0 <= j < i implies !is_bidi_control(
                    #[trigger] s@.take(i as int)[j],
                ) by {
                    assert(next[j] == s@[j]);
                }
            }
            if is_bidi_control(c) {
                assert(is_bidi_control(next[i as int]));
            }
        }
        if is_bidi_override_or_isolate(c) {
            clean = false;
        } else {
            kept.push(c);
        }
        i += 1;
    }
    proof {
        assert(s@.take(s@.len() as int) =~= s@);
    }
    if clean {
        Cow::Borrowed(s)
    } else {
        Cow::Owned(kept)
    }
}

/// Stripping leaves no control behind, leaves clean text as it is, and a
/// second time changes nothing.
pub proof fn law_stripping_cleans(s: Seq<char>)
    ensures
        bidi_clean(without_bidi_controls(s)),
        bidi_clean(s) ==> without_bidi_controls(s) == s,
        without_bidi_controls(without_bidi_controls(s)) == without_bidi_controls(s),
    decreases s.len(),
{
    let pred = |c: char| !is_bidi_control(c);
    let r = without_bidi_controls(s);
    assert forall|i: int| 0 <= i < r.len() implies !is_bidi_control(#[trigger] r[i]) by {
        s.lemma_filter_pred(pred, i);
    }
    lemma_clean_unchanged(s);
    lemma_clean_unchanged(r);
}

/// Stripping keeps every other character, in place: the text on either side
/// of any cut is stripped on its own.
pub proof fn law_stripping_keeps_the_rest(a: Seq<char>, b: Seq<char>, c: char)
    ensures
        without_bidi_controls(a + b) == without_bidi_controls(a) + without_bidi_controls(b),
        without_bidi_controls(a.push(c)) == (if is_bidi_control(c) {
            without_bidi_controls(a)
        } else {
            without_bidi_controls(a).push(c)
        }),
{
    let pred = |c: char| !is_bidi_control(c);
    Seq::filter_distributes_over_add(a, b, pred);
    assert(a.push(c).drop_last() =~= a);
    reveal(Seq::filter);
}

proof fn lemma_clean_unchanged(s: Seq<char>)
    ensures
        bidi_clean(s) ==> without_bidi_controls(s) == s,
    decreases s.len(),
{
    reveal(Seq::filter);
    if bidi_clean(s) && s.len() > 0 {
        assert forall|i: int| 0 <= i < s.len() - 1 implies !is_bidi_control(
            #[trigger] s.drop_last()[i],
        ) by {
            assert(s[i] == s.drop_last()[i]);
        }
        lemma_clean_unchanged(s.drop_last());
        assert(!is_bidi_control(s[s.len() - 1]));
        assert(s.drop_last().push(s.last()) =~= s);
    }
}

/// Whether a character steers the writing direction: an embedding, an override,
/// an isolate, or the end of one.
pub open spec fn steers(c: char) -> bool {
    let n = c as u32;
    n == 0x202a || n == 0x202b || n == 0x202c || n == 0x202d || n == 0x202e || n == 0x2066 || n
        == 0x2067 || n == 0x2068 || n == 0x2069
}

/// What steers the writing direction is taken out of a text, and every other
/// character stays in its place.
pub proof fn law_only_steering_characters_leave(a: Seq<char>, c: char, b: Seq<char>)
    ensures
        steers(c) ==> without_bidi_controls(a + seq![c] + b) == without_bidi_controls(a)
            + without_bidi_controls(b),
        !steers(c) ==> without_bidi_controls(a + seq![c] + b) == without_bidi_controls(a) + seq![c]
            + without_bidi_controls(b),
        bidi_clean(seq![c]) <==> !steers(c),
{
    let one = seq![c];
    assert(one[0] == c);
    law_stripping_keeps_the_rest(a + one, b, c);
    law_stripping_keeps_the_rest(a, one, c);
    law_stripping_keeps_the_rest(a, b, c);
    assert(a + one =~= a.push(c));
}

/// The language of a node is its own where it names one, else that of its
/// parent; the root without one has none.
pub proof fn law_language_is_inherited_or_own(links: Seq<Link>, i: int)
    requires
        is_document(links),
        0 <= i < links.len(),
    ensures
        links[i].value.attr("lang"@) is Some ==> inherited_lang(links, i)
            == links[i].value.attr("lang"@),
        links[i].value.attr("lang"@) is None ==> inherited_lang(links, i) == (
        match links[i].parent {
            Some(p) => inherited_lang(links, p as int),
            None => None,
        }),
{
    lemma_parent_depth(links, i);
}

/// A node that names neither direction has that of its parent, whatever else it
/// names.
pub proof fn law_other_directions_are_ignored(links: Seq<Link>, i: int)
    requires
        is_document(links),
        0 <= i < links.len(),
        links[i].value.attr("dir"@) != Some("ltr"@),
        links[i].value.attr("dir"@) != Some("rtl"@),
    ensures
        inherited_direction(links, i) == (match links[i].parent {
            Some(p) => inherited_direction(links, p as int),
            None => ResolvedDirection::Auto,
        }),
{
    lemma_parent_depth(links, i);
}

} // verus!
