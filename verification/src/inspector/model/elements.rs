//! The Elements tab: the document tree.

use std::collections::{HashMap, HashSet};

use vstd::prelude::*;

use crate::dom::{depth, is_document, lemma_child_depth, Dom, Link, MizuNode};
use crate::inspector::model::types::{
    join_segs, lemma_row_views_push, lemma_seg_views_push, row_views, seg_views, Row, RowKind,
    RowView, Seg, SegView, Tone,
};
use crate::text::{
    collapse_white_space, collapsed, decimal, decimal_of, join2, join3, joined, strip_leading,
    without_leading,
};

verus! {

/// Most characters of a node's text that its row shows.
pub const CONTENT_PREVIEW_CHARS: usize = 40;

/// The segments of an optional attribute.
pub open spec fn opt_seg(o: Option<SegView>) -> Seq<SegView> {
    match o {
        Some(s) => seq![s],
        None => Seq::empty(),
    }
}

/// What a row shows of a node's text: its beginning, in quotes, with white
/// space collapsed.
pub open spec fn content_preview(content: Seq<char>) -> Seq<char> {
    let flat = collapsed(content);
    "\""@ + (if flat.len() > CONTENT_PREVIEW_CHARS {
        flat.take(CONTENT_PREVIEW_CHARS as int) + "…"@
    } else {
        flat
    }) + "\""@
}

/// The segments that describe a node.
pub open spec fn label_segs(node: MizuNode, truncated: Option<usize>) -> Seq<SegView> {
    seq![SegView::mono(node.primitive.tag(), Tone::Accent)] + opt_seg(
        match node.attr("id"@) {
            Some(id) => Some(SegView::mono("#"@ + id, Tone::Value)),
            None => None,
        },
    ) + opt_seg(
        match node.attr("class"@) {
            Some(class) => Some(SegView::mono("."@ + without_leading(class, '.'), Tone::Key)),
            None => None,
        },
    ) + opt_seg(
        match node.attr("content"@) {
            Some(content) => Some(SegView::mono(content_preview(content), Tone::Muted).elide()),
            None => None,
        },
    ) + opt_seg(
        if node.reacts_to("click"@) {
            Some(SegView::mono("[click]"@, Tone::Good))
        } else {
            None
        },
    ) + opt_seg(
        if node.reacts_to("submit"@) {
            Some(SegView::mono("[submit]"@, Tone::Good))
        } else {
            None
        },
    ) + opt_seg(
        match truncated {
            Some(n) => Some(
                SegView::mono("+"@ + decimal(n as nat) + " hidden"@, Tone::Bad).trail(),
            ),
            None => None,
        },
    )
}

/// Describes a node: tag, `#id`, `.class`, `"content"`, event markers, and how
/// many children are left out.
pub fn node_label_segs(node: &MizuNode, truncated_count: Option<usize>) -> (segs: Vec<Seg>)
    ensures
        seg_views(segs@) == label_segs(*node, truncated_count),
{
    broadcast use lemma_seg_views_push;

    let mut segs: Vec<Seg> = Vec::new();
    segs.push(Seg::mono(node.primitive.as_str(), Tone::Accent));
    if let Some(id) = node.get("id") {
        segs.push(Seg::mono(join2("#", id).as_str(), Tone::Value));
    }
    if let Some(class) = node.get("class") {
        segs.push(Seg::mono(join2(".", strip_leading(class, '.')).as_str(), Tone::Key));
    }
    if let Some(content) = node.get("content") {
        let flat = collapse_white_space(content);
        let preview = if flat.as_str().unicode_len() > CONTENT_PREVIEW_CHARS {
            let head = flat.as_str().substring_char(0, CONTENT_PREVIEW_CHARS);
            proof {
                assert(head@ =~= flat@.take(CONTENT_PREVIEW_CHARS as int));
            }
            join2(head, "…")
        } else {
            flat
        };
        segs.push(Seg::mono(join3("\"", preview.as_str(), "\"").as_str(), Tone::Muted).elide());
    }
    if node.has_event("click") {
        segs.push(Seg::mono("[click]", Tone::Good));
    }
    if node.has_event("submit") {
        segs.push(Seg::mono("[submit]", Tone::Good));
    }
    if let Some(count) = truncated_count {
        let n = decimal_of(count as u64);
        segs.push(Seg::mono(join3("+", n.as_str(), " hidden").as_str(), Tone::Bad).trail());
    }
    proof {
        assert(seg_views(segs@) =~= label_segs(*node, truncated_count));
    }
    segs
}

/// A node in one line.
pub fn node_label(node: &MizuNode, truncated_count: Option<usize>) -> (t: String)
    ensures
        t@ == joined(
            label_segs(*node, truncated_count).map_values(|s: SegView| s.text),
            " "@,
        ),
{
    let segs = node_label_segs(node, truncated_count);
    join_segs(&segs)
}

/// What the Elements tab depends on.
pub struct TreeState {
    pub links: Seq<Link>,
    pub collapsed: Set<usize>,
    pub truncated: Map<usize, usize>,
}

impl TreeState {
    /// How many children of a node were left out.
    pub open spec fn left_out(self, i: usize) -> Option<usize> {
        if self.truncated.contains_key(i) {
            Some(self.truncated[i])
        } else {
            None
        }
    }

    /// Whether the children of a node are shown.
    pub open spec fn shows_children(self, i: usize) -> bool {
        self.links[i as int].children.len() > 0 && !self.collapsed.contains(i)
    }

    /// The row of node `i` at tree level `level`.
    pub open spec fn node_row(self, i: usize, level: u8) -> RowView {
        let node = self.links[i as int].value;
        let row = RowView {
            kind: RowKind::Item,
            indent: level,
            segs: label_segs(node, self.left_out(i)),
            node: Some(i),
            expandable: self.links[i as int].children.len() > 0,
            expanded: self.shows_children(i),
            inspect: None,
        };
        match node.attr("content"@) {
            Some(content) => row.maybe_inspect("Text content"@, collapsed(content)),
            None => row,
        }
    }

    /// The rows of node `i` and of what is shown below it, in document order.
    pub open spec fn subtree_rows(self, i: usize, level: u8) -> Seq<RowView>
        decreases self.links.len() - depth(self.links, i as int), self.links[i as int].children.len() + 1,
        when is_document(self.links) && i < self.links.len()
    {
        seq![self.node_row(i, level)] + if self.shows_children(i) {
            self.children_rows(i, 0, next_level(level))
        } else {
            Seq::empty()
        }
    }

    /// The rows of the children of node `i` from the `k`-th on.
    pub open spec fn children_rows(self, i: usize, k: nat, level: u8) -> Seq<RowView>
        decreases self.links.len() - depth(self.links, i as int), self.links[i as int].children.len() - k,
        when is_document(self.links) && i < self.links.len() && k <= self.links[i as int].children.len()
    {
        proof {
            if k < self.links[i as int].children.len() {
                lemma_child_depth(self.links, i as int, k as int);
            }
        }
        if k >= self.links[i as int].children.len() {
            Seq::empty()
        } else {
            self.subtree_rows(self.links[i as int].children[k as int], level) + self.children_rows(
                i,
                k + 1,
                level,
            )
        }
    }

    /// Number of nodes in the subtree of node `i`, shown or not.
    pub open spec fn subtree_size(self, i: usize) -> nat
        decreases self.links.len() - depth(self.links, i as int), self.links[i as int].children.len() + 1,
        when is_document(self.links) && i < self.links.len()
    {
        1 + self.children_size(i, 0)
    }

    /// Number of nodes below node `i`, from its `k`-th child on.
    pub open spec fn children_size(self, i: usize, k: nat) -> nat
        decreases self.links.len() - depth(self.links, i as int), self.links[i as int].children.len() - k,
        when is_document(self.links) && i < self.links.len() && k <= self.links[i as int].children.len()
    {
        proof {
            if k < self.links[i as int].children.len() {
                lemma_child_depth(self.links, i as int, k as int);
            }
        }
        if k >= self.links[i as int].children.len() {
            0
        } else {
            self.subtree_size(self.links[i as int].children[k as int]) + self.children_size(i, k + 1)
        }
    }

    /// The rows of the subtrees on a stack, its top first.
    pub open spec fn stack_rows(self, stack: Seq<(usize, u8)>) -> Seq<RowView>
        decreases stack.len(),
    {
        if stack.len() == 0 {
            Seq::empty()
        } else {
            self.subtree_rows(stack.last().0, stack.last().1) + self.stack_rows(stack.drop_last())
        }
    }

    /// Number of nodes in the subtrees on a stack.
    pub open spec fn stack_size(self, stack: Seq<(usize, u8)>) -> nat
        decreases stack.len(),
    {
        if stack.len() == 0 {
            0
        } else {
            self.subtree_size(stack.last().0) + self.stack_size(stack.drop_last())
        }
    }

    /// The rows of the Elements tab.
    pub open spec fn rows(self) -> Seq<RowView> {
        self.subtree_rows(0, 0)
    }
}

/// One level deeper; deep levels all look the same.
pub open spec fn next_level(level: u8) -> u8 {
    if level < 255 {
        (level + 1) as u8
    } else {
        255
    }
}

/// The row of node `i`.
fn node_row(dom: &Dom<'_>, i: usize, level: u8, truncated: Option<usize>, shown: bool) -> (r: Row)
    requires
        i < dom.links().len(),
    ensures
        forall|t: TreeState|
            t.links == dom.links() && #[trigger] t.left_out(i) == truncated && t.shows_children(i)
                == shown ==> r@ == t.node_row(i, level),
{
    let node = dom.value(i);
    let row = Row {
        kind: RowKind::Item,
        indent: level,
        segs: node_label_segs(node, truncated),
        node: Some(i),
        expandable: dom.children(i).len() > 0,
        expanded: shown,
        inspect: None,
    };
    match node.get("content") {
        Some(content) => {
            let flat = collapse_white_space(content);
            row.maybe_inspect("Text content", flat.as_str())
        },
        None => row,
    }
}

/// The rows of the document tree: every node whose ancestors are all expanded,
/// in document order.
pub fn elements_rows(
    dom: &Dom<'_>,
    collapsed_nodes: &HashSet<usize>,
    truncated: &HashMap<usize, usize>,
) -> (rows: Vec<Row>)
    requires
        dom.valid(),
    ensures
        row_views(rows@) == (TreeState {
            links: dom.links(),
            collapsed: collapsed_nodes@,
            truncated: truncated@,
        }).rows(),
{
    broadcast use {lemma_row_views_push, vstd::std_specs::hash::group_hash_axioms};

    let ghost t = TreeState {
        links: dom.links(),
        collapsed: collapsed_nodes@,
        truncated: truncated@,
    };
    let mut rows: Vec<Row> = Vec::new();
    let mut stack: Vec<(usize, u8)> = Vec::new();
    stack.push((0, 0));
    proof {
        assert(stack@.drop_last() =~= Seq::<(usize, u8)>::empty());
        assert(t.stack_rows(stack@) =~= t.rows()) by {
            reveal_with_fuel(TreeState::stack_rows, 2);
        }
        assert(row_views(rows@) =~= Seq::<RowView>::empty());
        assert(row_views(rows@) + t.stack_rows(stack@) =~= t.rows());
    }
    while stack.len() > 0
        invariant
            dom.valid(),
            t == (TreeState {
                links: dom.links(),
                collapsed: collapsed_nodes@,
                truncated: truncated@,
            }),
            forall|j: int| 0 <= j < stack@.len() ==> (#[trigger] stack@[j]).0 < t.links.len(),
            row_views(rows@) + t.stack_rows(stack@) == t.rows(),
        decreases t.stack_size(stack@),
    {
        let ghost before = stack@;
        let ghost done = row_views(rows@);
        let (i, level) = match stack.pop() {
            Some(top) => top,
            None => (0, 0),
        };
        proof {
            assert(stack@ =~= before.drop_last());
            assert(before[before.len() - 1] == (i, level));
        }
        let ghost rest = stack@;
        let left_out = match truncated.get(&i) {
            Some(n) => Some(*n),
            None => None,
        };
        let children = dom.children(i);
        let shown = children.len() > 0 && !collapsed_nodes.contains(&i);
        rows.push(node_row(dom, i, level, left_out, shown));
        proof {
            assert(t.left_out(i) == left_out);
            assert(row_views(rows@) =~= done.push(t.node_row(i, level)));
        }
        let ghost shown_rows = row_views(rows@);
        if shown {
            let deeper: u8 = if level < 255 {
                level + 1
            } else {
                255
            };
            let mut k: usize = children.len();
            proof {
                assert(t.children_rows(i, k as nat, deeper) =~= Seq::empty());
                assert(Seq::<RowView>::empty() + t.stack_rows(rest) =~= t.stack_rows(rest));
            }
            while k > 0
                invariant
                    dom.valid(),
                    t.links == dom.links(),
                    i < t.links.len(),
                    k <= children@.len(),
                    children@ == t.links[i as int].children,
                    forall|j: int| 0 <= j < stack@.len() ==> (#[trigger] stack@[j]).0 < t.links.len(),
                    t.stack_rows(stack@) == t.children_rows(i, k as nat, deeper) + t.stack_rows(rest),
                    t.stack_size(stack@) == t.children_size(i, k as nat) + t.stack_size(rest),
                decreases k,
            {
                k -= 1;
                let ghost old_stack = stack@;
                proof {
                    lemma_child_depth(t.links, i as int, k as int);
                }
                stack.push((children[k], deeper));
                proof {
                    assert(stack@.drop_last() =~= old_stack);
                    let c = children@[k as int];
                    assert(t.subtree_rows(c, deeper) + (t.children_rows(i, (k + 1) as nat, deeper)
                        + t.stack_rows(rest)) =~= t.children_rows(i, k as nat, deeper) + t.stack_rows(
                        rest,
                    ));
                }
            }
            proof {
                assert(done + (t.subtree_rows(i, level) + t.stack_rows(rest)) =~= shown_rows + (
                t.children_rows(i, 0, deeper) + t.stack_rows(rest)));
            }
        } else {
            proof {
                assert(done + (t.subtree_rows(i, level) + t.stack_rows(rest)) =~= shown_rows
                    + t.stack_rows(rest));
            }
        }
    }
    proof {
        assert(row_views(rows@) + Seq::<RowView>::empty() =~= row_views(rows@));
    }
    rows
}

} // verus!
