//! What holds of the rows of the Elements tab.

use vstd::prelude::*;

use crate::dom::{is_document, MizuNode, Primitive};
use crate::inspector::model::elements::{content_preview, label_segs, next_level, TreeState};
use crate::inspector::model::row_laws::data;
use crate::inspector::model::types::{Flex, RowKind, Tone};
use crate::text::{collapsed, decimal, without_leading};

verus! {

/// One where something holds, else none.
pub open spec fn one_if(b: bool) -> int {
    if b {
        1
    } else {
        0
    }
}

/// A text is previewed in quotes with its white space folded, whole up to 40
/// characters, else its first 40 and a mark that more follows.
pub proof fn law_previews_show_the_beginning(content: Seq<char>)
    ensures
        ({
            let flat = collapsed(content);
            content_preview(content) == seq!['"'] + (if flat.len() <= 40 {
                flat
            } else {
                flat.take(40) + seq!['…']
            }) + seq!['"']
        }),
{
    reveal_strlit("\"");
    reveal_strlit("…");
    assert("\""@ =~= seq!['"']);
    assert("…"@ =~= seq!['…']);
}

/// The label of an element shows its tag, and where it has them its id, its
/// class without leading dots, the beginning of its text, what it reacts to, and
/// how many children were left out; in this order, and nothing else.
pub proof fn law_labels_show_what_an_element_has(node: MizuNode, truncated: Option<usize>)
    ensures
        ({
            let segs = label_segs(node, truncated);
            let a = 1 + one_if(node.attr("id"@) is Some);
            let b = a + one_if(node.attr("class"@) is Some);
            let c = b + one_if(node.attr("content"@) is Some);
            let d = c + one_if(node.reacts_to("click"@));
            let e = d + one_if(node.reacts_to("submit"@));
            &&& segs.len() == e + one_if(truncated is Some)
            &&& data(segs[0], node.primitive.tag(), Tone::Accent, Flex::Fixed)
            &&& node.attr("id"@) is Some ==> data(
                segs[1],
                seq!['#'] + node.attr("id"@)->0,
                Tone::Value,
                Flex::Fixed,
            )
            &&& node.attr("class"@) is Some ==> data(
                segs[a],
                seq!['.'] + without_leading(node.attr("class"@)->0, '.'),
                Tone::Key,
                Flex::Fixed,
            )
            &&& node.attr("content"@) is Some ==> data(
                segs[b],
                content_preview(node.attr("content"@)->0),
                Tone::Muted,
                Flex::Elide,
            )
            &&& node.reacts_to("click"@) ==> data(
                segs[c],
                seq!['[', 'c', 'l', 'i', 'c', 'k', ']'],
                Tone::Good,
                Flex::Fixed,
            )
            &&& node.reacts_to("submit"@) ==> data(
                segs[d],
                seq!['[', 's', 'u', 'b', 'm', 'i', 't', ']'],
                Tone::Good,
                Flex::Fixed,
            )
            &&& truncated is Some ==> data(
                segs[e],
                seq!['+'] + decimal(truncated->0 as nat) + " hidden"@,
                Tone::Bad,
                Flex::Trailing,
            )
        }),
{
    reveal_strlit("#");
    reveal_strlit(".");
    reveal_strlit("+");
    reveal_strlit("[click]");
    reveal_strlit("[submit]");
    assert("#"@ =~= seq!['#']);
    assert("."@ =~= seq!['.']);
    assert("+"@ =~= seq!['+']);
    assert("[click]"@ =~= seq!['[', 'c', 'l', 'i', 'c', 'k', ']']);
    assert("[submit]"@ =~= seq!['[', 's', 'u', 'b', 'm', 'i', 't', ']']);
}

/// No two kinds of elements share a tag, and each tag is the word for its kind.
pub proof fn law_tags_name_the_kind(p: Primitive)
    ensures
        p.tag() == (match p {
            Primitive::Doc => seq!['d', 'o', 'c'],
            Primitive::Box => seq!['b', 'o', 'x'],
            Primitive::Text => seq!['t', 'e', 'x', 't'],
            Primitive::Markdown => seq!['m', 'a', 'r', 'k', 'd', 'o', 'w', 'n'],
            Primitive::Button => seq!['b', 'u', 't', 't', 'o', 'n'],
            Primitive::Input => seq!['i', 'n', 'p', 'u', 't'],
            Primitive::Image => seq!['i', 'm', 'a', 'g', 'e'],
            Primitive::Form => seq!['f', 'o', 'r', 'm'],
            Primitive::Each => seq!['e', 'a', 'c', 'h'],
            Primitive::Heading => seq!['h', 'e', 'a', 'd', 'i', 'n', 'g'],
        }),
{
    reveal_strlit("doc");
    reveal_strlit("box");
    reveal_strlit("text");
    reveal_strlit("markdown");
    reveal_strlit("button");
    reveal_strlit("input");
    reveal_strlit("image");
    reveal_strlit("form");
    reveal_strlit("each");
    reveal_strlit("heading");
    assert("doc"@ =~= seq!['d', 'o', 'c']);
    assert("box"@ =~= seq!['b', 'o', 'x']);
    assert("text"@ =~= seq!['t', 'e', 'x', 't']);
    assert("markdown"@ =~= seq!['m', 'a', 'r', 'k', 'd', 'o', 'w', 'n']);
    assert("button"@ =~= seq!['b', 'u', 't', 't', 'o', 'n']);
    assert("input"@ =~= seq!['i', 'n', 'p', 'u', 't']);
    assert("image"@ =~= seq!['i', 'm', 'a', 'g', 'e']);
    assert("form"@ =~= seq!['f', 'o', 'r', 'm']);
    assert("each"@ =~= seq!['e', 'a', 'c', 'h']);
    assert("heading"@ =~= seq!['h', 'e', 'a', 'd', 'i', 'n', 'g']);
}

/// The row of an element stands for it at its level, with a triangle where it
/// has children, open unless they are hidden. Its text can be read whole where
/// it is long.
pub proof fn law_element_rows_stand_for_their_element(t: TreeState, i: usize, level: u8)
    ensures
        ({
            let r = t.node_row(i, level);
            let node = t.links[i as int].value;
            let many = t.links[i as int].children.len() > 0;
            let left_out = if t.truncated.contains_key(i) {
                Some(t.truncated[i])
            } else {
                None
            };
            &&& r.kind == RowKind::Item && r.indent == level && r.node == Some(i)
            &&& r.segs == label_segs(node, left_out)
            &&& r.expandable <==> many
            &&& r.expanded <==> many && !t.collapsed.contains(i)
            &&& node.attr("content"@) is None ==> r.inspect is None
            &&& node.attr("content"@) is Some ==> {
                let flat = collapsed(node.attr("content"@)->0);
                &&& flat.len() > 28 ==> r.inspect == Some(("Text content"@, flat))
                &&& flat.len() <= 28 ==> r.inspect is None
            }
        }),
{
}

/// An element stands in front of its children, which follow in their order, one
/// level deeper; where they are hidden, nothing follows.
pub proof fn law_children_follow_their_parent(t: TreeState, i: usize, level: u8, k: nat)
    requires
        is_document(t.links),
        i < t.links.len(),
    ensures
        ({
            let n = t.links[i as int].children.len();
            let deeper = if level < 255 {
                (level + 1) as u8
            } else {
                255u8
            };
            let rows = t.subtree_rows(i, level);
            &&& rows.len() > 0 && rows[0] == t.node_row(i, level)
            &&& t.collapsed.contains(i) || n == 0 ==> rows.len() == 1
            &&& !t.collapsed.contains(i) && n > 0 ==> rows.skip(1) == t.children_rows(i, 0, deeper)
            &&& k < n ==> t.children_rows(i, k, level) == t.subtree_rows(
                t.links[i as int].children[k as int],
                level,
            ) + t.children_rows(i, k + 1, level)
            &&& t.children_rows(i, n, level).len() == 0
        }),
{
    let rows = t.subtree_rows(i, level);
    if t.shows_children(i) {
        assert(rows.skip(1) =~= t.children_rows(i, 0, next_level(level)));
    }
}

/// The tab shows the whole document from its root.
pub proof fn law_the_tree_starts_at_the_root(t: TreeState)
    requires
        is_document(t.links),
        t.links.len() > 0,
    ensures
        t.rows().len() > 0,
        t.rows()[0] == t.node_row(0, 0),
{
}

} // verus!
