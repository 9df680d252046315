//! What holds of ids and of every accessibility tree.

use vstd::prelude::*;

use crate::accessibility::{id_of, named_node, AccessPicture, AccessView};
use crate::dom::{
    below_root, depth, is_document, lemma_child_depth, lemma_one_branch, lemma_parent_depth,
    lemma_within_parent, within,
};

verus! {

/// An id names the node that it was made for, in its own document generation
/// and in no other. The one number that does not fit is the greatest: its ids
/// name no node.
pub proof fn law_ids_name_their_node(epoch: u32, other: u32, id: u32)
    ensures
        id < u32::MAX ==> named_node(epoch, id_of(epoch, id)) == Some(id),
        id == u32::MAX ==> named_node(epoch, id_of(epoch, id)) is None,
        other != epoch ==> named_node(other, id_of(epoch, id)) is None,
{
    let e = epoch as u64;
    let n = (id as u64 + 1) as u64;
    let whole = (e << 32) | n;
    if id < u32::MAX {
        assert(whole >> 32 == e && whole & 0xffff_ffff == n) by (bit_vector)
            requires
                e <= 0xffff_ffff,
                n <= 0xffff_ffff,
                whole == (e << 32) | n,
        ;
    } else {
        assert(whole & 0xffff_ffff == 0) by (bit_vector)
            requires
                n == 0x1_0000_0000,
                whole == (e << 32) | n,
        ;
    }
}

/// No two nodes of one document and no nodes of two document generations have
/// the same id, and no id is zero. The one exception is the greatest number: the
/// nodes with that number of an even generation and of the next share an id.
pub proof fn law_ids_differ(a: u32, i: u32, b: u32, j: u32)
    ensures
        id_of(a, i) == id_of(b, j) <==> (i == j && (a == b || i == u32::MAX && a | 1 == b | 1)),
        id_of(a, i) != 0,
{
    let x = a as u64;
    let y = b as u64;
    let n = (i as u64 + 1) as u64;
    let m = (j as u64 + 1) as u64;
    assert(n == m <==> i == j);
    assert((a | 1 == b | 1) <==> (x | 1 == y | 1)) by (bit_vector)
        requires
            x == a as u64,
            y == b as u64,
    ;
    assert(((x << 32) | n == (y << 32) | m) <==> (n == m && (x == y || n == 0x1_0000_0000 && x | 1
        == y | 1))) by (bit_vector)
        requires
            x <= 0xffff_ffff,
            y <= 0xffff_ffff,
            1 <= n <= 0x1_0000_0000,
            1 <= m <= 0x1_0000_0000,
    ;
    assert((x << 32) | n != 0) by (bit_vector)
        requires
            1 <= n,
    ;
}

/// Zero names no node.
pub proof fn law_zero_names_no_node(epoch: u32)
    ensures
        named_node(epoch, 0) is None,
{
    assert(0u64 & 0xffff_ffff == 0) by (bit_vector);
}

/// Whether `id` can be reached from `root` in `n` steps from parent to child.
pub open spec fn reached(nodes: Seq<(u64, AccessView)>, root: u64, id: u64, n: nat) -> bool
    decreases n,
{
    if n == 0 {
        id == root
    } else {
        exists|k: int|
            0 <= k < nodes.len() && (#[trigger] nodes[k]).1.children.contains(id) && reached(
                nodes,
                root,
                nodes[k].0,
                (n - 1) as nat,
            )
    }
}

/// Whether every node of `part` is a node of `whole`.
spec fn part_of(part: Seq<(u64, AccessView)>, whole: Seq<(u64, AccessView)>) -> bool {
    forall|k: int| 0 <= k < part.len() ==> whole.contains(#[trigger] part[k])
}

proof fn lemma_child_id(q: AccessPicture, i: usize, k: nat, j: int)
    requires
        0 <= j < k <= q.links[i as int].children.len(),
        q.known(q.links[i as int].children[j]),
    ensures
        q.child_ids(i, k).contains(q.id(q.links[i as int].children[j])),
    decreases k,
{
    let id = q.id(q.links[i as int].children[j]);
    if j == k - 1 {
        assert(q.child_ids(i, k).last() == id);
    } else {
        lemma_child_id(q, i, (k - 1) as nat, j);
        let less = q.child_ids(i, (k - 1) as nat);
        let at = choose|m: int| 0 <= m < less.len() && less[m] == id;
        assert(q.child_ids(i, k)[at] == id);
    }
}

proof fn lemma_child_ids_known(q: AccessPicture, i: usize, k: nat, id: u64)
    requires
        k <= q.links[i as int].children.len(),
        q.child_ids(i, k).contains(id),
    ensures
        exists|j: int|
            0 <= j < k && q.known(#[trigger] q.links[i as int].children[j]) && q.id(
                q.links[i as int].children[j],
            ) == id,
    decreases k,
{
    if k > 0 {
        let c = q.links[i as int].children[k - 1];
        let less = q.child_ids(i, (k - 1) as nat);
        if q.known(c) && q.id(c) == id {
        } else {
            let at = choose|m: int|
                0 <= m < q.child_ids(i, k).len() && q.child_ids(i, k)[m] == id;
            assert(less[at] == id);
            lemma_child_ids_known(q, i, (k - 1) as nat, id);
        }
    }
}

/// The subtree of a child is part of the children's subtrees.
proof fn lemma_kids_hold(q: AccessPicture, i: usize, k: nat, j: int)
    requires
        is_document(q.links),
        i < q.links.len(),
        0 <= j < k <= q.links[i as int].children.len(),
    ensures
        part_of(q.subtree(q.links[i as int].children[j]), q.kids(i, k)),
    decreases k,
{
    let c = q.links[i as int].children[j];
    let last = q.links[i as int].children[k - 1];
    let less = q.kids(i, (k - 1) as nat);
    let all = q.kids(i, k);
    assert(all == less + q.subtree(last));
    if j == k - 1 {
        assert forall|m: int| 0 <= m < q.subtree(c).len() implies all.contains(
            #[trigger] q.subtree(c)[m],
        ) by {
            assert(all[less.len() + m] == q.subtree(c)[m]);
        }
    } else {
        lemma_kids_hold(q, i, (k - 1) as nat, j);
        assert forall|m: int| 0 <= m < q.subtree(c).len() implies all.contains(
            #[trigger] q.subtree(c)[m],
        ) by {
            let x = q.subtree(c)[m];
            assert(less.contains(x));
            let at = choose|p: int| 0 <= p < less.len() && less[p] == x;
            assert(all[at] == x);
        }
    }
}

/// Every node below node `i` is reached from the root where node `i` is.
proof fn lemma_subtree_reached(
    q: AccessPicture,
    i: usize,
    nodes: Seq<(u64, AccessView)>,
    root: u64,
    n: nat,
    m: int,
)
    requires
        is_document(q.links),
        i < q.links.len(),
        part_of(q.subtree(i), nodes),
        q.known(i) ==> reached(nodes, root, q.id(i), n),
        0 <= m < q.subtree(i).len(),
    ensures
        exists|d: nat| reached(nodes, root, q.subtree(i)[m].0, d),
    decreases q.links.len() - depth(q.links, i as int), 1nat, 0nat,
{
    let count = q.links[i as int].children.len();
    let kids = q.kids(i, count);
    lemma_parent_depth(q.links, i as int);
    if m == kids.len() {
        assert(q.subtree(i)[m].0 == q.id(i));
        assert(reached(nodes, root, q.subtree(i)[m].0, n));
    } else {
        assert(q.subtree(i)[m] == kids[m]);
        lemma_kids_reached(q, i, count, nodes, root, n, m);
    }
}

proof fn lemma_kids_reached(
    q: AccessPicture,
    i: usize,
    k: nat,
    nodes: Seq<(u64, AccessView)>,
    root: u64,
    n: nat,
    m: int,
)
    requires
        is_document(q.links),
        i < q.links.len(),
        q.known(i),
        k <= q.links[i as int].children.len(),
        part_of(q.subtree(i), nodes),
        reached(nodes, root, q.id(i), n),
        0 <= m < q.kids(i, k).len(),
    ensures
        exists|d: nat| reached(nodes, root, q.kids(i, k)[m].0, d),
    decreases q.links.len() - depth(q.links, i as int), 0nat, k,
{
    lemma_parent_depth(q.links, i as int);
    let c = q.links[i as int].children[k - 1];
    let less = q.kids(i, (k - 1) as nat);
    let all = q.kids(i, k);
    lemma_child_depth(q.links, i as int, k - 1);
    assert(all == less + q.subtree(c));
    if m < less.len() {
        assert(all[m] == less[m]);
        lemma_kids_reached(q, i, (k - 1) as nat, nodes, root, n, m);
    } else {
        let at = m - less.len();
        assert(all[m] == q.subtree(c)[at]);
        let count = q.links[i as int].children.len();
        let own = (q.id(i), q.node(i));
        lemma_kids_hold(q, i, count, k - 1);
        assert forall|p: int| 0 <= p < q.subtree(c).len() implies nodes.contains(
            #[trigger] q.subtree(c)[p],
        ) by {
            let x = q.subtree(c)[p];
            let kids = q.kids(i, count);
            assert(kids.contains(x));
            let z = choose|z: int| 0 <= z < kids.len() && kids[z] == x;
            assert(q.subtree(i)[z] == x);
        }
        if q.known(c) {
            lemma_child_id(q, i, count, k - 1);
            assert(q.subtree(i)[q.subtree(i).len() - 1] == own);
            assert(nodes.contains(own));
            let z = choose|z: int| 0 <= z < nodes.len() && nodes[z] == own;
            assert(nodes[z].1.children.contains(q.id(c)));
            assert(reached(nodes, root, q.id(c), n + 1));
        }
        lemma_subtree_reached(q, c, nodes, root, n + 1, at);
    }
}

/// Every node of a tree hangs off its root.
pub proof fn law_every_node_hangs_off_the_root(q: AccessPicture, m: int)
    requires
        is_document(q.links),
        0 <= m < q.subtree(0).len(),
    ensures
        exists|d: nat| reached(q.subtree(0), q.root_id(), q.subtree(0)[m].0, d),
{
    let nodes = q.subtree(0);
    assert forall|k: int| 0 <= k < nodes.len() implies nodes.contains(#[trigger] nodes[k]) by {}
    assert(q.known(0) ==> reached(nodes, q.root_id(), q.id(0), 0));
    lemma_subtree_reached(q, 0, nodes, q.root_id(), 0, m);
}

/// Whether a node with this id is in a tree.
pub open spec fn declared(nodes: Seq<(u64, AccessView)>, id: u64) -> bool {
    exists|k: int| 0 <= k < nodes.len() && (#[trigger] nodes[k]).0 == id
}

proof fn lemma_own_entry(q: AccessPicture, i: usize, whole: Seq<(u64, AccessView)>)
    requires
        is_document(q.links),
        i < q.links.len(),
        q.known(i),
        part_of(q.subtree(i), whole),
    ensures
        declared(whole, q.id(i)),
{
    let own = q.subtree(i)[q.subtree(i).len() - 1];
    assert(own.0 == q.id(i));
    assert(whole.contains(own));
    let z = choose|z: int| 0 <= z < whole.len() && whole[z] == own;
    assert(whole[z].0 == q.id(i));
}

proof fn lemma_children_declared(
    q: AccessPicture,
    i: usize,
    whole: Seq<(u64, AccessView)>,
    m: int,
    id: u64,
)
    requires
        is_document(q.links),
        i < q.links.len(),
        part_of(q.subtree(i), whole),
        0 <= m < q.subtree(i).len(),
        q.subtree(i)[m].1.children.contains(id),
    ensures
        declared(whole, id),
    decreases q.links.len() - depth(q.links, i as int), 1nat, 0nat,
{
    let count = q.links[i as int].children.len();
    let kids = q.kids(i, count);
    lemma_parent_depth(q.links, i as int);
    if m == kids.len() {
        lemma_child_ids_known(q, i, count, id);
        let j = choose|j: int|
            0 <= j < count && q.known(#[trigger] q.links[i as int].children[j]) && q.id(
                q.links[i as int].children[j],
            ) == id;
        let c = q.links[i as int].children[j];
        lemma_child_depth(q.links, i as int, j);
        lemma_kids_hold(q, i, count, j);
        assert forall|p: int| 0 <= p < q.subtree(c).len() implies whole.contains(
            #[trigger] q.subtree(c)[p],
        ) by {
            let x = q.subtree(c)[p];
            assert(kids.contains(x));
            let z = choose|z: int| 0 <= z < kids.len() && kids[z] == x;
            assert(q.subtree(i)[z] == x);
        }
        lemma_own_entry(q, c, whole);
    } else {
        assert(q.subtree(i)[m] == kids[m]);
        assert forall|p: int| 0 <= p < kids.len() implies whole.contains(#[trigger] kids[p]) by {
            assert(q.subtree(i)[p] == kids[p]);
        }
        lemma_kids_children_declared(q, i, count, whole, m, id);
    }
}

proof fn lemma_kids_children_declared(
    q: AccessPicture,
    i: usize,
    k: nat,
    whole: Seq<(u64, AccessView)>,
    m: int,
    id: u64,
)
    requires
        is_document(q.links),
        i < q.links.len(),
        k <= q.links[i as int].children.len(),
        part_of(q.kids(i, k), whole),
        0 <= m < q.kids(i, k).len(),
        q.kids(i, k)[m].1.children.contains(id),
    ensures
        declared(whole, id),
    decreases q.links.len() - depth(q.links, i as int), 0nat, k,
{
    lemma_parent_depth(q.links, i as int);
    let c = q.links[i as int].children[k - 1];
    let less = q.kids(i, (k - 1) as nat);
    let all = q.kids(i, k);
    lemma_child_depth(q.links, i as int, k - 1);
    assert(all == less + q.subtree(c));
    assert forall|p: int| 0 <= p < less.len() implies whole.contains(#[trigger] less[p]) by {
        assert(all[p] == less[p]);
    }
    assert forall|p: int| 0 <= p < q.subtree(c).len() implies whole.contains(
        #[trigger] q.subtree(c)[p],
    ) by {
        assert(all[less.len() + p] == q.subtree(c)[p]);
    }
    if m < less.len() {
        assert(all[m] == less[m]);
        lemma_kids_children_declared(q, i, (k - 1) as nat, whole, m, id);
    } else {
        assert(all[m] == q.subtree(c)[m - less.len()]);
        lemma_children_declared(q, c, whole, m - less.len(), id);
    }
}

/// Every child that a node names is itself in the tree, and so is the root.
pub proof fn law_every_child_is_declared(q: AccessPicture, m: int, id: u64)
    requires
        is_document(q.links),
        0 <= m < q.subtree(0).len(),
        q.subtree(0)[m].1.children.contains(id),
    ensures
        declared(q.subtree(0), id),
        declared(q.subtree(0), q.root_id()),
{
    let nodes = q.subtree(0);
    assert forall|k: int| 0 <= k < nodes.len() implies nodes.contains(#[trigger] nodes[k]) by {}
    lemma_children_declared(q, 0, nodes, m, id);
    assert(q.known(0));
    lemma_own_entry(q, 0, nodes);
}

/// Whether node `i` and every node above it have numbers, up to the root.
pub open spec fn numbered(q: AccessPicture, i: usize) -> bool {
    below_root(q.links, i) && forall|a: usize| #[trigger] within(q.links, i, a) ==> q.known(a)
}

/// Whether no two nodes have the same number.
pub open spec fn numbers_differ(q: AccessPicture) -> bool {
    forall|i: usize, j: usize| #[trigger]
        q.known(i) && #[trigger] q.known(j) && i != j ==> q.ids[i] != q.ids[j]
}

/// Whether entry `m` is that of node `i`.
pub open spec fn stands_for(q: AccessPicture, nodes: Seq<(u64, AccessView)>, m: int, i: usize) -> bool {
    0 <= m < nodes.len() && nodes[m] == (q.id(i), q.node(i))
}

/// Whether entry `m` is that of a node with numbers up to the root.
pub open spec fn stands_for_numbered(
    q: AccessPicture,
    nodes: Seq<(u64, AccessView)>,
    m: int,
) -> bool {
    exists|i: usize| i < q.links.len() && numbered(q, i) && #[trigger] stands_for(q, nodes, m, i)
}

/// The nodes of the subtree of node `i`, in the order of their entries.
spec fn order(q: AccessPicture, i: usize) -> Seq<usize>
    decreases q.links.len() - depth(q.links, i as int), 1nat, 0nat,
    when is_document(q.links) && i < q.links.len()
{
    proof {
        lemma_parent_depth(q.links, i as int);
    }
    if q.known(i) {
        kids_order(q, i, q.links[i as int].children.len()).push(i)
    } else {
        Seq::empty()
    }
}

spec fn kids_order(q: AccessPicture, i: usize, k: nat) -> Seq<usize>
    decreases q.links.len() - depth(q.links, i as int), 0nat, k,
    when is_document(q.links) && i < q.links.len() && k <= q.links[i as int].children.len()
{
    proof {
        lemma_parent_depth(q.links, i as int);
        if k > 0 {
            lemma_child_depth(q.links, i as int, k - 1);
        }
    }
    if k == 0 {
        Seq::empty()
    } else {
        kids_order(q, i, (k - 1) as nat) + order(q, q.links[i as int].children[k - 1])
    }
}

/// The entries of the nodes in a sequence.
spec fn entries(q: AccessPicture, nodes: Seq<usize>) -> Seq<(u64, AccessView)> {
    nodes.map_values(|n: usize| (q.id(n), q.node(n)))
}

proof fn lemma_subtree_entries(q: AccessPicture, i: usize)
    requires
        is_document(q.links),
        i < q.links.len(),
    ensures
        q.subtree(i) == entries(q, order(q, i)),
    decreases q.links.len() - depth(q.links, i as int), 1nat, 0nat,
{
    lemma_parent_depth(q.links, i as int);
    lemma_kids_entries(q, i, q.links[i as int].children.len());
    assert(q.subtree(i) =~= entries(q, order(q, i)));
}

proof fn lemma_kids_entries(q: AccessPicture, i: usize, k: nat)
    requires
        is_document(q.links),
        i < q.links.len(),
        k <= q.links[i as int].children.len(),
    ensures
        q.kids(i, k) == entries(q, kids_order(q, i, k)),
    decreases q.links.len() - depth(q.links, i as int), 0nat, k,
{
    lemma_parent_depth(q.links, i as int);
    if k > 0 {
        lemma_child_depth(q.links, i as int, k - 1);
        lemma_kids_entries(q, i, (k - 1) as nat);
        lemma_subtree_entries(q, q.links[i as int].children[k - 1]);
    }
    assert(q.kids(i, k) =~= entries(q, kids_order(q, i, k)));
}

/// What is in the order of node `i` is a node with a number, within node `i`.
proof fn lemma_order_within(q: AccessPicture, i: usize, m: int)
    requires
        is_document(q.links),
        i < q.links.len(),
        0 <= m < order(q, i).len(),
    ensures
        order(q, i)[m] < q.links.len(),
        q.known(order(q, i)[m]),
        within(q.links, order(q, i)[m], i),
    decreases q.links.len() - depth(q.links, i as int), 1nat, 0nat,
{
    lemma_parent_depth(q.links, i as int);
    let count = q.links[i as int].children.len();
    let kids = kids_order(q, i, count);
    if m < kids.len() {
        assert(order(q, i)[m] == kids[m]);
        let c = kids_within(q, i, count, m);
        lemma_within_parent(q.links, kids[m], i, c);
    } else {
        assert(order(q, i)[m] == i);
    }
}

/// The child of node `i` that a node of its children's order is within.
proof fn kids_within(q: AccessPicture, i: usize, k: nat, m: int) -> (c: int)
    requires
        is_document(q.links),
        i < q.links.len(),
        k <= q.links[i as int].children.len(),
        0 <= m < kids_order(q, i, k).len(),
    ensures
        kids_order(q, i, k)[m] < q.links.len(),
        q.known(kids_order(q, i, k)[m]),
        0 <= c < k,
        within(q.links, kids_order(q, i, k)[m], q.links[i as int].children[c]),
    decreases q.links.len() - depth(q.links, i as int), 0nat, k,
{
    lemma_parent_depth(q.links, i as int);
    lemma_child_depth(q.links, i as int, k - 1);
    let less = kids_order(q, i, (k - 1) as nat);
    let last = q.links[i as int].children[k - 1];
    assert(kids_order(q, i, k) == less + order(q, last));
    if m < less.len() {
        assert(kids_order(q, i, k)[m] == less[m]);
        kids_within(q, i, (k - 1) as nat, m)
    } else {
        assert(kids_order(q, i, k)[m] == order(q, last)[m - less.len()]);
        lemma_order_within(q, last, m - less.len());
        k - 1
    }
}

proof fn lemma_order_once(q: AccessPicture, i: usize, a: int, b: int)
    requires
        is_document(q.links),
        i < q.links.len(),
        0 <= a < b < order(q, i).len(),
    ensures
        order(q, i)[a] != order(q, i)[b],
    decreases q.links.len() - depth(q.links, i as int), 1nat, 0nat,
{
    lemma_parent_depth(q.links, i as int);
    let count = q.links[i as int].children.len();
    let kids = kids_order(q, i, count);
    assert(order(q, i)[a] == kids[a]);
    if b < kids.len() {
        assert(order(q, i)[b] == kids[b]);
        lemma_kids_once(q, i, count, a, b);
    } else {
        assert(order(q, i)[b] == i);
        let c = kids_within(q, i, count, a);
        lemma_within_parent(q.links, kids[a], i, c);
    }
}

proof fn lemma_kids_once(q: AccessPicture, i: usize, k: nat, a: int, b: int)
    requires
        is_document(q.links),
        i < q.links.len(),
        k <= q.links[i as int].children.len(),
        0 <= a < b < kids_order(q, i, k).len(),
    ensures
        kids_order(q, i, k)[a] != kids_order(q, i, k)[b],
    decreases q.links.len() - depth(q.links, i as int), 0nat, k,
{
    lemma_parent_depth(q.links, i as int);
    lemma_child_depth(q.links, i as int, k - 1);
    let children = q.links[i as int].children;
    let less = kids_order(q, i, (k - 1) as nat);
    let last = children[k - 1];
    let all = kids_order(q, i, k);
    assert(all == less + order(q, last));
    if b < less.len() {
        assert(all[a] == less[a] && all[b] == less[b]);
        lemma_kids_once(q, i, (k - 1) as nat, a, b);
    } else if a >= less.len() {
        assert(all[a] == order(q, last)[a - less.len()]);
        assert(all[b] == order(q, last)[b - less.len()]);
        lemma_order_once(q, last, a - less.len(), b - less.len());
    } else {
        assert(all[a] == less[a]);
        assert(all[b] == order(q, last)[b - less.len()]);
        let c = kids_within(q, i, (k - 1) as nat, a);
        lemma_order_within(q, last, b - less.len());
        if all[a] == all[b] {
            lemma_child_depth(q.links, i as int, c);
            lemma_one_branch(q.links, all[a], children[c], last);
            assert(q.links[i as int].children.no_duplicates());
        }
    }
}

/// Where a child with a number comes in the order that its parent is in.
proof fn child_in_order(q: AccessPicture, i: usize, m: int, k: int) -> (at: int)
    requires
        is_document(q.links),
        i < q.links.len(),
        0 <= m < order(q, i).len(),
        order(q, i)[m] < q.links.len(),
        0 <= k < q.links[order(q, i)[m] as int].children.len(),
        q.known(q.links[order(q, i)[m] as int].children[k]),
    ensures
        0 <= at < order(q, i).len(),
        order(q, i)[at] == q.links[order(q, i)[m] as int].children[k],
    decreases q.links.len() - depth(q.links, i as int), 1nat, 0nat,
{
    lemma_parent_depth(q.links, i as int);
    let count = q.links[i as int].children.len();
    let kids = kids_order(q, i, count);
    let at = if m < kids.len() {
        assert(order(q, i)[m] == kids[m]);
        child_in_kids(q, i, count, m, k)
    } else {
        assert(order(q, i)[m] == i);
        own_child_in_kids(q, i, count, k)
    };
    assert(order(q, i)[at] == kids[at]);
    at
}

proof fn child_in_kids(q: AccessPicture, i: usize, n: nat, m: int, k: int) -> (at: int)
    requires
        is_document(q.links),
        i < q.links.len(),
        n <= q.links[i as int].children.len(),
        0 <= m < kids_order(q, i, n).len(),
        kids_order(q, i, n)[m] < q.links.len(),
        0 <= k < q.links[kids_order(q, i, n)[m] as int].children.len(),
        q.known(q.links[kids_order(q, i, n)[m] as int].children[k]),
    ensures
        0 <= at < kids_order(q, i, n).len(),
        kids_order(q, i, n)[at] == q.links[kids_order(q, i, n)[m] as int].children[k],
    decreases q.links.len() - depth(q.links, i as int), 0nat, n,
{
    lemma_parent_depth(q.links, i as int);
    lemma_child_depth(q.links, i as int, n - 1);
    let less = kids_order(q, i, (n - 1) as nat);
    let last = q.links[i as int].children[n - 1];
    let all = kids_order(q, i, n);
    assert(all == less + order(q, last));
    if m < less.len() {
        assert(all[m] == less[m]);
        let at = child_in_kids(q, i, (n - 1) as nat, m, k);
        assert(all[at] == less[at]);
        at
    } else {
        assert(all[m] == order(q, last)[m - less.len()]);
        let at = child_in_order(q, last, m - less.len(), k);
        assert(all[less.len() + at] == order(q, last)[at]);
        less.len() + at
    }
}

proof fn own_child_in_kids(q: AccessPicture, i: usize, n: nat, k: int) -> (at: int)
    requires
        is_document(q.links),
        i < q.links.len(),
        0 <= k < n <= q.links[i as int].children.len(),
        q.known(q.links[i as int].children[k]),
    ensures
        0 <= at < kids_order(q, i, n).len(),
        kids_order(q, i, n)[at] == q.links[i as int].children[k],
    decreases n,
{
    let less = kids_order(q, i, (n - 1) as nat);
    let last = q.links[i as int].children[n - 1];
    let all = kids_order(q, i, n);
    lemma_child_depth(q.links, i as int, n - 1);
    assert(all == less + order(q, last));
    if k == n - 1 {
        let at = order(q, last).len() - 1;
        assert(order(q, last)[at] == last);
        assert(all[less.len() + at] == order(q, last)[at]);
        less.len() + at
    } else {
        let at = own_child_in_kids(q, i, (n - 1) as nat, k);
        assert(all[at] == less[at]);
        at
    }
}

/// Where a node comes in the order of the whole document.
proof fn place_in_order(q: AccessPicture, i: usize) -> (at: int)
    requires
        is_document(q.links),
        i < q.links.len(),
        numbered(q, i),
    ensures
        0 <= at < order(q, 0).len(),
        order(q, 0)[at] == i,
    decreases depth(q.links, i as int),
{
    lemma_parent_depth(q.links, i as int);
    assert(within(q.links, i, i));
    match q.links[i as int].parent {
        None => {
            order(q, 0).len() - 1
        },
        Some(p) => {
            assert forall|a: usize| #[trigger] within(q.links, p, a) implies q.known(a) by {
                assert(within(q.links, i, a));
            }
            let m = place_in_order(q, p);
            let k = q.links[p as int].children.index_of(i);
            child_in_order(q, 0, m, k)
        },
    }
}

proof fn lemma_root_numbered(q: AccessPicture)
    requires
        is_document(q.links),
        q.known(0),
    ensures
        numbered(q, 0),
{
}

/// What is in the order of a node has numbers all the way up, where that node
/// has.
proof fn lemma_order_numbered(q: AccessPicture, i: usize, m: int)
    requires
        is_document(q.links),
        i < q.links.len(),
        numbered(q, i),
        0 <= m < order(q, i).len(),
    ensures
        numbered(q, order(q, i)[m]),
    decreases q.links.len() - depth(q.links, i as int), 1nat, 0nat,
{
    lemma_parent_depth(q.links, i as int);
    let count = q.links[i as int].children.len();
    let kids = kids_order(q, i, count);
    if m < kids.len() {
        assert(order(q, i)[m] == kids[m]);
        lemma_kids_numbered(q, i, count, m);
    } else {
        assert(order(q, i)[m] == i);
    }
}

proof fn lemma_kids_numbered(q: AccessPicture, i: usize, k: nat, m: int)
    requires
        is_document(q.links),
        i < q.links.len(),
        numbered(q, i),
        k <= q.links[i as int].children.len(),
        0 <= m < kids_order(q, i, k).len(),
    ensures
        numbered(q, kids_order(q, i, k)[m]),
    decreases q.links.len() - depth(q.links, i as int), 0nat, k,
{
    lemma_parent_depth(q.links, i as int);
    lemma_child_depth(q.links, i as int, k - 1);
    let less = kids_order(q, i, (k - 1) as nat);
    let last = q.links[i as int].children[k - 1];
    assert(kids_order(q, i, k) == less + order(q, last));
    if m < less.len() {
        assert(kids_order(q, i, k)[m] == less[m]);
        lemma_kids_numbered(q, i, (k - 1) as nat, m);
    } else {
        assert(kids_order(q, i, k)[m] == order(q, last)[m - less.len()]);
        assert(numbered(q, last)) by {
            assert(q.links[i as int].children.contains(last));
            assert forall|a: usize| #[trigger] within(q.links, last, a) implies q.known(a) by {
                assert(a == last || within(q.links, i, a));
            }
        }
        lemma_order_numbered(q, last, m - less.len());
    }
}

/// Every node that hangs below the root, and has a number as all nodes above it
/// have, is in the tree exactly once, and every node in the tree is such a node.
pub proof fn law_every_node_is_in_the_tree_once(q: AccessPicture)
    requires
        is_document(q.links),
        numbers_differ(q),
    ensures
        forall|i: usize|
            i < q.links.len() && #[trigger] numbered(q, i) ==> exists|m: int|
                stands_for(q, q.subtree(0), m, i),
        forall|a: int, b: int|
            0 <= a < b < q.subtree(0).len() ==> (#[trigger] q.subtree(0)[a]).0 != (
            #[trigger] q.subtree(0)[b]).0,
        forall|m: int|
            0 <= m < q.subtree(0).len() ==> #[trigger] stands_for_numbered(q, q.subtree(0), m),
{
    let nodes = q.subtree(0);
    lemma_subtree_entries(q, 0);
    assert forall|i: usize| i < q.links.len() && #[trigger] numbered(q, i) implies exists|m: int|
        stands_for(q, nodes, m, i) by {
        let m = place_in_order(q, i);
        assert(stands_for(q, nodes, m, i));
    }
    assert forall|a: int, b: int| 0 <= a < b < nodes.len() implies (#[trigger] nodes[a]).0 != (
    #[trigger] nodes[b]).0 by {
        lemma_order_within(q, 0, a);
        lemma_order_within(q, 0, b);
        lemma_order_once(q, 0, a, b);
        law_ids_differ(q.epoch, q.ids[order(q, 0)[a]], q.epoch, q.ids[order(q, 0)[b]]);
    }
    assert forall|m: int| 0 <= m < nodes.len() implies #[trigger] stands_for_numbered(
        q,
        nodes,
        m,
    ) by {
        let i = order(q, 0)[m];
        lemma_order_within(q, 0, m);
        lemma_root_numbered(q);
        lemma_order_numbered(q, 0, m);
        assert(stands_for(q, nodes, m, i));
    }
}

/// Whether a document holds the greatest number.
pub open spec fn holds_greatest(q: AccessPicture) -> bool {
    exists|i: usize| #[trigger] q.known(i) && q.ids[i] == u32::MAX
}

/// Two trees of different generations share no id. The greatest number is left
/// out where both documents hold it and one generation is even, the other the
/// next.
pub proof fn law_generations_share_no_id(p: AccessPicture, q: AccessPicture)
    requires
        is_document(p.links),
        is_document(q.links),
        p.epoch != q.epoch,
        !(holds_greatest(p) && holds_greatest(q) && p.epoch | 1 == q.epoch | 1),
    ensures
        forall|a: int, b: int|
            0 <= a < p.subtree(0).len() && 0 <= b < q.subtree(0).len() ==> (
            #[trigger] p.subtree(0)[a]).0 != (#[trigger] q.subtree(0)[b]).0,
{
    lemma_subtree_entries(p, 0);
    lemma_subtree_entries(q, 0);
    assert forall|a: int, b: int|
        0 <= a < p.subtree(0).len() && 0 <= b < q.subtree(0).len() implies (
    #[trigger] p.subtree(0)[a]).0 != (#[trigger] q.subtree(0)[b]).0 by {
        let i = order(p, 0)[a];
        let j = order(q, 0)[b];
        lemma_order_within(p, 0, a);
        lemma_order_within(q, 0, b);
        law_ids_differ(p.epoch, p.ids[i], q.epoch, q.ids[j]);
    }
}

} // verus!
