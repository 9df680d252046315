//! What holds of the document tree in the Elements tab.

use vstd::prelude::*;

use crate::dom::{
    below_root, depth, is_document, lemma_child_depth, lemma_one_branch, lemma_parent_depth,
    lemma_within_depth, lemma_within_parent, within, Link,
};
use crate::inspector::model::elements::{next_level, TreeState};
use crate::inspector::model::types::RowView;
use crate::inspector::panel::{lineage, InspectorTab, PanelView};

verus! {

/// Whether one of the rows stands for the node.
pub open spec fn has_row(rows: Seq<RowView>, node: usize) -> bool {
    exists|k: int| 0 <= k < rows.len() && (#[trigger] rows[k]).node == Some(node)
}

/// Whether node `i` hangs below the root and none of the nodes above it is
/// collapsed.
pub open spec fn unfolded(t: TreeState, i: usize) -> bool {
    &&& below_root(t.links, i)
    &&& forall|a: usize| #[trigger]
        lineage(t.links, i).contains(a) && a != i ==> !t.collapsed.contains(a)
}

/// The indent of a row at depth `d`; deep levels all look the same.
pub open spec fn level_at(d: nat) -> u8 {
    if d < 255 {
        d as u8
    } else {
        255
    }
}

/// A node has a row exactly when it hangs below the root and no node above it
/// is collapsed. It has one row at most, which shows that node, indented by its
/// depth.
pub proof fn law_the_tree_shows_a_node_once(t: TreeState, i: usize)
    requires
        is_document(t.links),
        i < t.links.len(),
    ensures
        has_row(t.rows(), i) <==> unfolded(t, i),
        forall|a: int, b: int|
            0 <= a < t.rows().len() && 0 <= b < t.rows().len() && (#[trigger] t.rows()[a]).node
                == Some(i) && (#[trigger] t.rows()[b]).node == Some(i) ==> a == b,
        forall|k: int|
            0 <= k < t.rows().len() && (#[trigger] t.rows()[k]).node == Some(i) ==> t.rows()[k]
                == t.node_row(i, level_at(depth(t.links, i as int))),
{
    let rows = t.rows();
    lemma_root_depth(t.links);
    if unfolded(t, i) {
        let k = shown_at(t, i);
        let level = level_at(depth(t.links, i as int));
        assert(rows.subrange(k, k + t.subtree_rows(i, level).len())[0] == t.subtree_rows(
            i,
            level,
        )[0]);
        assert(rows[k].node == Some(i));
    }
    if has_row(rows, i) {
        let k = choose|k: int| 0 <= k < rows.len() && (#[trigger] rows[k]).node == Some(i);
        let n = row_node(t, 0, 0, k);
        lemma_open_path_unfolded(t, n);
    }
    assert forall|a: int, b: int|
        0 <= a < rows.len() && 0 <= b < rows.len() && (#[trigger] rows[a]).node == Some(i) && (
        #[trigger] rows[b]).node == Some(i) implies a == b by {
        if a < b {
            lemma_rows_once(t, 0, 0, a, b);
        } else if b < a {
            lemma_rows_once(t, 0, 0, b, a);
        }
    }
    assert forall|k: int|
        0 <= k < rows.len() && (#[trigger] rows[k]).node == Some(i) implies rows[k] == t.node_row(
        i,
        level_at(depth(t.links, i as int)),
    ) by {
        let n = row_node(t, 0, 0, k);
    }
}

/// A node that was picked is selected, none of its ancestors is collapsed, and
/// so its row is shown in the tree.
pub proof fn law_a_picked_node_is_shown(
    v: PanelView,
    links: Seq<Link>,
    truncated: Map<usize, usize>,
    node: usize,
)
    requires
        is_document(links),
        node < links.len(),
        below_root(links, node),
    ensures
        v.selecting(links, node).selected == Some(node),
        v.selecting(links, node).tab == InspectorTab::Elements,
        has_row(
            (TreeState {
                links,
                collapsed: v.selecting(links, node).collapsed,
                truncated,
            }).rows(),
            node,
        ),
{
    let t = TreeState { links, collapsed: v.selecting(links, node).collapsed, truncated };
    law_the_tree_shows_a_node_once(t, node);
}

/// The nodes that a path of child links leads to from the root.
pub open spec fn nodes_below_root(links: Seq<Link>) -> Set<usize> {
    Set::new(|i: usize| i < links.len() && below_root(links, i))
}

/// With nothing collapsed, every node below the root has a row, and there are
/// as many rows as such nodes.
pub proof fn law_everything_is_shown_by_default(links: Seq<Link>, truncated: Map<usize, usize>)
    requires
        is_document(links),
    ensures
        ({
            let t = TreeState { links, collapsed: Set::empty(), truncated };
            &&& t.rows().len() == nodes_below_root(links).len()
            &&& forall|i: usize|
                i < links.len() && #[trigger] below_root(links, i) ==> has_row(t.rows(), i)
        }),
{
    let t = TreeState { links, collapsed: Set::empty(), truncated };
    let rows = t.rows();
    lemma_root_depth(links);
    assert forall|i: usize| i < links.len() && #[trigger] below_root(links, i) implies has_row(
        rows,
        i,
    ) by {
        law_the_tree_shows_a_node_once(t, i);
    }
    let nodes = rows.map_values(|r: RowView| r.node->0);
    assert(nodes.no_duplicates()) by {
        assert forall|a: int, b: int| 0 <= a < nodes.len() && 0 <= b < nodes.len() && a
            != b implies nodes[a] != nodes[b] by {
            let n = row_node(t, 0, 0, a);
            let m = row_node(t, 0, 0, b);
            if n == m {
                law_the_tree_shows_a_node_once(t, n);
            }
        }
    }
    nodes.unique_seq_to_set();
    assert(nodes.to_set() =~= nodes_below_root(links)) by {
        assert forall|i: usize| nodes.to_set().contains(i) == nodes_below_root(links).contains(
            i,
        ) by {
            if nodes.to_set().contains(i) {
                let k = nodes.index_of(i);
                let n = row_node(t, 0, 0, k);
                law_the_tree_shows_a_node_once(t, n);
            }
            if nodes_below_root(links).contains(i) {
                assert(has_row(rows, i));
                let k = choose|k: int| 0 <= k < rows.len() && (#[trigger] rows[k]).node == Some(i);
                assert(nodes[k] == i);
            }
        }
    }
}

proof fn lemma_root_depth(links: Seq<Link>)
    requires
        is_document(links),
    ensures
        depth(links, 0) == 0,
        level_at(depth(links, 0)) == 0,
{
}

/// Whether child links lead from node `i` to node `n`, past no collapsed node.
spec fn open_path(t: TreeState, n: usize, i: usize) -> bool
    decreases depth(t.links, n as int),
    when is_document(t.links) && n < t.links.len()
{
    proof {
        lemma_parent_depth(t.links, n as int);
    }
    n == i || match t.links[n as int].parent {
        None => false,
        Some(p) => t.links[p as int].children.contains(n) && !t.collapsed.contains(p) && open_path(
            t,
            p,
            i,
        ),
    }
}

proof fn lemma_open_path_within(t: TreeState, n: usize, i: usize)
    requires
        is_document(t.links),
        n < t.links.len(),
        open_path(t, n, i),
    ensures
        within(t.links, n, i),
    decreases depth(t.links, n as int),
{
    lemma_parent_depth(t.links, n as int);
    if n != i {
        lemma_open_path_within(t, t.links[n as int].parent->0, i);
    }
}

/// A path from a child is one from its parent, if that is not collapsed.
proof fn lemma_open_path_parent(t: TreeState, n: usize, i: usize, k: int)
    requires
        is_document(t.links),
        n < t.links.len(),
        i < t.links.len(),
        0 <= k < t.links[i as int].children.len(),
        !t.collapsed.contains(i),
        open_path(t, n, t.links[i as int].children[k]),
    ensures
        open_path(t, n, i),
    decreases depth(t.links, n as int),
{
    let c = t.links[i as int].children[k];
    lemma_child_depth(t.links, i as int, k);
    lemma_parent_depth(t.links, n as int);
    if n == c {
        assert(t.links[i as int].children.contains(c));
        assert(open_path(t, i, i));
    } else {
        lemma_open_path_parent(t, t.links[n as int].parent->0, i, k);
    }
}

proof fn lemma_open_path_unfolded(t: TreeState, n: usize)
    requires
        is_document(t.links),
        n < t.links.len(),
        open_path(t, n, 0),
    ensures
        unfolded(t, n),
    decreases depth(t.links, n as int),
{
    lemma_parent_depth(t.links, n as int);
    if n != 0 {
        let p = t.links[n as int].parent->0;
        lemma_open_path_unfolded(t, p);
        assert forall|a: usize| #[trigger]
            lineage(t.links, n).contains(a) && a != n implies !t.collapsed.contains(a) by {
            assert(lineage(t.links, p).contains(a));
        }
    }
}

/// The node of a row below node `i`.
proof fn row_node(t: TreeState, i: usize, level: u8, k: int) -> (n: usize)
    requires
        is_document(t.links),
        i < t.links.len(),
        level == level_at(depth(t.links, i as int)),
        0 <= k < t.subtree_rows(i, level).len(),
    ensures
        n < t.links.len(),
        open_path(t, n, i),
        t.subtree_rows(i, level)[k] == t.node_row(n, level_at(depth(t.links, n as int))),
        t.subtree_rows(i, level)[k].node == Some(n),
    decreases t.links.len() - depth(t.links, i as int), t.links[i as int].children.len() + 1,
{
    lemma_parent_depth(t.links, i as int);
    let rows = t.subtree_rows(i, level);
    if k == 0 {
        assert(rows[0] == t.node_row(i, level));
        i
    } else {
        let kids = t.children_rows(i, 0, next_level(level));
        assert(t.shows_children(i));
        assert(rows[k] == kids[k - 1]);
        let (n, c) = child_row_node(t, i, 0, next_level(level), k - 1);
        lemma_open_path_parent(t, n, i, c);
        n
    }
}

/// The node of a row below the children of node `i` from the `k`-th on, and the
/// child that it is below.
proof fn child_row_node(t: TreeState, i: usize, k: nat, level: u8, m: int) -> (r: (usize, int))
    requires
        is_document(t.links),
        i < t.links.len(),
        k <= t.links[i as int].children.len(),
        level == level_at(depth(t.links, i as int) + 1),
        0 <= m < t.children_rows(i, k, level).len(),
    ensures
        r.0 < t.links.len(),
        k <= r.1 < t.links[i as int].children.len(),
        open_path(t, r.0, t.links[i as int].children[r.1]),
        t.children_rows(i, k, level)[m] == t.node_row(r.0, level_at(depth(t.links, r.0 as int))),
        t.children_rows(i, k, level)[m].node == Some(r.0),
    decreases t.links.len() - depth(t.links, i as int), t.links[i as int].children.len() - k,
{
    lemma_parent_depth(t.links, i as int);
    lemma_child_depth(t.links, i as int, k as int);
    let c = t.links[i as int].children[k as int];
    let first = t.subtree_rows(c, level);
    let rest = t.children_rows(i, k + 1, level);
    assert(t.children_rows(i, k, level) == first + rest);
    if m < first.len() {
        (row_node(t, c, level, m), k as int)
    } else {
        child_row_node(t, i, k + 1, level, m - first.len())
    }
}

/// No two rows below node `i` stand for the same node.
proof fn lemma_rows_once(t: TreeState, i: usize, level: u8, a: int, b: int)
    requires
        is_document(t.links),
        i < t.links.len(),
        level == level_at(depth(t.links, i as int)),
        0 <= a < b < t.subtree_rows(i, level).len(),
    ensures
        t.subtree_rows(i, level)[a].node != t.subtree_rows(i, level)[b].node,
    decreases t.links.len() - depth(t.links, i as int), t.links[i as int].children.len() + 1,
{
    lemma_parent_depth(t.links, i as int);
    let rows = t.subtree_rows(i, level);
    let deeper = next_level(level);
    let kids = t.children_rows(i, 0, deeper);
    assert(t.shows_children(i));
    assert(rows[b] == kids[b - 1]);
    if a == 0 {
        let (n, c) = child_row_node(t, i, 0, deeper, b - 1);
        lemma_open_path_within(t, n, t.links[i as int].children[c]);
        lemma_within_parent(t.links, n, i, c);
        assert(rows[0] == t.node_row(i, level));
    } else {
        assert(rows[a] == kids[a - 1]);
        lemma_child_rows_once(t, i, 0, deeper, a - 1, b - 1);
    }
}

proof fn lemma_child_rows_once(t: TreeState, i: usize, k: nat, level: u8, a: int, b: int)
    requires
        is_document(t.links),
        i < t.links.len(),
        k <= t.links[i as int].children.len(),
        level == level_at(depth(t.links, i as int) + 1),
        0 <= a < b < t.children_rows(i, k, level).len(),
    ensures
        t.children_rows(i, k, level)[a].node != t.children_rows(i, k, level)[b].node,
    decreases t.links.len() - depth(t.links, i as int), t.links[i as int].children.len() - k,
{
    lemma_parent_depth(t.links, i as int);
    lemma_child_depth(t.links, i as int, k as int);
    let children = t.links[i as int].children;
    let first = t.subtree_rows(children[k as int], level);
    let rest = t.children_rows(i, k + 1, level);
    let all = t.children_rows(i, k, level);
    assert(all == first + rest);
    if b < first.len() {
        lemma_rows_once(t, children[k as int], level, a, b);
    } else if a >= first.len() {
        lemma_child_rows_once(t, i, k + 1, level, a - first.len(), b - first.len());
    } else {
        let n = row_node(t, children[k as int], level, a);
        let (m, c) = child_row_node(t, i, k + 1, level, b - first.len());
        assert(all[a].node == Some(n));
        assert(all[b].node == Some(m));
        if n == m {
            lemma_open_path_within(t, n, children[k as int]);
            lemma_open_path_within(t, n, children[c]);
            lemma_child_depth(t.links, i as int, c);
            lemma_one_branch(t.links, n, children[k as int], children[c]);
            assert(t.links[i as int].children.no_duplicates());
        }
    }
}

/// A node is within each node of its lineage.
proof fn lemma_lineage(links: Seq<Link>, i: usize, a: usize)
    requires
        is_document(links),
        i < links.len(),
        lineage(links, i).contains(a),
    ensures
        within(links, i, a),
    decreases depth(links, i as int),
{
    lemma_parent_depth(links, i as int);
    if a != i {
        lemma_lineage(links, links[i as int].parent->0, a);
    }
}

/// Where the rows of node `i` begin among all rows.
proof fn shown_at(t: TreeState, i: usize) -> (r: int)
    requires
        is_document(t.links),
        i < t.links.len(),
        unfolded(t, i),
    ensures
        ({
            let own = t.subtree_rows(i, level_at(depth(t.links, i as int)));
            &&& 0 <= r
            &&& r + own.len() <= t.rows().len()
            &&& t.rows().subrange(r, r + own.len()) == own
        }),
    decreases depth(t.links, i as int),
{
    lemma_parent_depth(t.links, i as int);
    lemma_root_depth(t.links);
    match t.links[i as int].parent {
        None => {
            let all = t.rows();
            assert(all.subrange(0, all.len() as int) =~= all);
            0
        },
        Some(p) => {
            assert forall|a: usize| #[trigger]
                lineage(t.links, p).contains(a) implies !t.collapsed.contains(a) by {
                lemma_lineage(t.links, p, a);
                lemma_within_depth(t.links, p, a);
                assert(lineage(t.links, i).contains(a));
            }
            assert(lineage(t.links, p).contains(p));
            let start = shown_at(t, p);
            let c = choose|c: int|
                0 <= c < t.links[p as int].children.len() && t.links[p as int].children[c] == i;
            assert(t.shows_children(p));
            let level = level_at(depth(t.links, p as int));
            let below = t.subtree_rows(p, level);
            let deeper = next_level(level);
            let kids = t.children_rows(p, 0, deeper);
            let at = child_offset(t, p, 0, c as nat, deeper);
            let own = t.subtree_rows(i, deeper);
            assert(below =~= seq![t.node_row(p, level)] + kids);
            let r = start + 1 + at;
            assert forall|x: int| 0 <= x < own.len() implies t.rows()[r + x] == own[x] by {
                assert(kids.subrange(at, at + own.len())[x] == own[x]);
                assert(below[1 + at + x] == kids[at + x]);
                assert(t.rows().subrange(start, start + below.len())[1 + at + x] == below[1 + at + x]);
            }
            assert(t.rows().subrange(r, r + own.len()) =~= own);
            r
        },
    }
}

/// Where the rows of child `c` begin among those of the children from `k` on.
proof fn child_offset(t: TreeState, p: usize, k: nat, c: nat, level: u8) -> (at: int)
    requires
        is_document(t.links),
        p < t.links.len(),
        k <= c < t.links[p as int].children.len(),
    ensures
        0 <= at,
        ({
            let own = t.subtree_rows(t.links[p as int].children[c as int], level);
            let kids = t.children_rows(p, k, level);
            at + own.len() <= kids.len() && kids.subrange(at, at + own.len()) == own
        }),
    decreases c - k,
{
    lemma_child_depth(t.links, p as int, k as int);
    let first = t.subtree_rows(t.links[p as int].children[k as int], level);
    let rest = t.children_rows(p, k + 1, level);
    let kids = t.children_rows(p, k, level);
    assert(kids =~= first + rest);
    if k == c {
        assert(kids.subrange(0, first.len() as int) =~= first);
        0
    } else {
        let at = child_offset(t, p, k + 1, c, level);
        let own = t.subtree_rows(t.links[p as int].children[c as int], level);
        let r = first.len() + at;
        assert forall|x: int| 0 <= x < own.len() implies kids[r + x] == own[x] by {
            assert(rest.subrange(at, at + own.len())[x] == own[x]);
            assert(kids[r + x] == rest[at + x]);
        }
        assert(kids.subrange(r, r + own.len()) =~= own);
        r
    }
}

} // verus!
