//! The document tree.

use ego_tree::Tree;
use rustc_hash::{FxBuildHasher, FxHashMap};
use vstd::prelude::*;

use crate::logic::{Action, OwnedExpr};

verus! {

/// `rustc_hash::FxBuildHasher`, the hasher of a node's attribute and event
/// maps.
#[verifier::external_type_specification]
#[verifier::external_body]
pub struct ExFxBuildHasher(FxBuildHasher);

/// What kind of element a node is.
#[derive(Debug, Clone, Copy, PartialEq, Eq, Structural)]
pub enum Primitive {
    Doc,
    Box,
    Text,
    Markdown,
    Button,
    Input,
    Image,
    Form,
    Each,
    Heading,
}

/// The reaction to an event.
#[derive(Debug, Clone)]
pub enum EventBlock {
    Click { action: Action },
    Submit { action: Action },
}

/// A class that depends on the document's state.
#[derive(Debug, Clone)]
pub enum ConditionalClass {
    /// A class that is there while a condition holds.
    Toggle { class_name: String, condition: OwnedExpr },
    /// A class that an expression names.
    Ternary { expr: OwnedExpr },
}

/// One element of the document.
#[derive(Debug, Clone)]
pub struct MizuNode {
    pub primitive: Primitive,
    pub attributes: FxHashMap<String, String>,
    pub events: FxHashMap<String, EventBlock>,
    pub conditional_classes: Vec<ConditionalClass>,
}

/// The attributes as a map from name to text.
pub uninterp spec fn attribute_map(m: FxHashMap<String, String>) -> Map<Seq<char>, Seq<char>>;

/// `HashMap::get` on an attribute map: the text under `name`, if the map holds
/// one.
#[verifier::external_body]
pub(crate) fn attribute<'a>(m: &'a FxHashMap<String, String>, name: &str) -> (r: Option<&'a String>)
    ensures
        match r {
            Some(v) => attribute_map(*m).contains_key(name@) && v@ == attribute_map(*m)[name@],
            None => !attribute_map(*m).contains_key(name@),
        },
{
    m.get(name)
}

/// The events as a map from name to reaction.
pub uninterp spec fn event_map(m: FxHashMap<String, EventBlock>) -> Map<Seq<char>, EventBlock>;

/// `HashMap::get` on an event map: the reaction under `name`, if the map holds
/// one.
#[verifier::external_body]
pub(crate) fn event<'a>(m: &'a FxHashMap<String, EventBlock>, name: &str) -> (r: Option<
    &'a EventBlock,
>)
    ensures
        match r {
            Some(b) => event_map(*m).contains_key(name@) && *b == event_map(*m)[name@],
            None => !event_map(*m).contains_key(name@),
        },
{
    m.get(name)
}

/// `HashMap::keys` on an event map: every name once, in no order that could be
/// relied on.
#[verifier::external_body]
pub(crate) fn event_names(m: &FxHashMap<String, EventBlock>) -> (r: Vec<String>)
    ensures
        crate::text::text_views(r@).no_duplicates(),
        crate::text::text_views(r@).to_set() == event_map(*m).dom(),
{
    m.keys().cloned().collect()
}

impl Primitive {
    /// The element's tag.
    pub open spec fn tag(self) -> Seq<char> {
        match self {
            Primitive::Doc => "doc"@,
            Primitive::Box => "box"@,
            Primitive::Text => "text"@,
            Primitive::Markdown => "markdown"@,
            Primitive::Button => "button"@,
            Primitive::Input => "input"@,
            Primitive::Image => "image"@,
            Primitive::Form => "form"@,
            Primitive::Each => "each"@,
            Primitive::Heading => "heading"@,
        }
    }

    /// The element's tag.
    pub fn as_str(self) -> (s: &'static str)
        ensures
            s@ == self.tag(),
    {
        match self {
            Primitive::Doc => "doc",
            Primitive::Box => "box",
            Primitive::Text => "text",
            Primitive::Markdown => "markdown",
            Primitive::Button => "button",
            Primitive::Input => "input",
            Primitive::Image => "image",
            Primitive::Form => "form",
            Primitive::Each => "each",
            Primitive::Heading => "heading",
        }
    }
}

impl MizuNode {
    /// The text of an attribute.
    pub open spec fn attr(self, name: Seq<char>) -> Option<Seq<char>> {
        if attribute_map(self.attributes).contains_key(name) {
            Some(attribute_map(self.attributes)[name])
        } else {
            None
        }
    }

    /// Whether the node reacts to an event.
    pub open spec fn reacts_to(self, name: Seq<char>) -> bool {
        event_map(self.events).contains_key(name)
    }

    /// The text of an attribute.
    pub fn get(&self, name: &str) -> (r: Option<&str>)
        ensures
            (match r {
                Some(v) => Some(v@),
                None => None,
            }) == self.attr(name@),
    {
        match attribute(&self.attributes, name) {
            Some(v) => Some(v.as_str()),
            None => None,
        }
    }

    /// Whether the node reacts to an event.
    pub fn has_event(&self, name: &str) -> (r: bool)
        ensures
            r == self.reacts_to(name@),
    {
        event(&self.events, name).is_some()
    }
}

/// `ego_tree::Tree`, the tree that a document is built in.
#[verifier::external_type_specification]
#[verifier::external_body]
#[verifier::reject_recursive_types(T)]
pub struct ExTree<T>(Tree<T>);

/// A node of a tree: its value, and its parent and children by their place in
/// the order in which nodes were made.
#[verifier::ext_equal]
pub struct Link {
    pub value: MizuNode,
    pub parent: Option<usize>,
    pub children: Seq<usize>,
}

/// One node of a document.
#[derive(Debug)]
pub struct DomNode<'a> {
    /// The element.
    pub value: &'a MizuNode,
    /// Index of its parent.
    pub parent: Option<usize>,
    /// Indices of its children, in document order.
    pub children: Vec<usize>,
}

impl<'a> View for DomNode<'a> {
    type V = Link;

    open spec fn view(&self) -> Link {
        Link { value: *self.value, parent: self.parent, children: self.children@ }
    }
}

/// The nodes of a tree in the order in which they were made, the root first.
pub uninterp spec fn tree_links(t: Tree<MizuNode>) -> Seq<Link>;

/// `Tree::nodes` with `NodeRef::value`, `NodeRef::parent` and
/// `NodeRef::children`: every node of the tree in the order in which they were
/// made, with its links.
///
/// A node id is an index into the tree's vector of nodes, so the place of an
/// id among all ids in order is that index.
#[verifier::external_body]
fn read_tree<'a>(tree: &'a Tree<MizuNode>) -> (nodes: Vec<DomNode<'a>>)
    ensures
        nodes@.map_values(|n: DomNode<'a>| n@) == tree_links(*tree),
{
    let ids: Vec<ego_tree::NodeId> = tree.nodes().map(|n| n.id()).collect();
    let index = |id: ego_tree::NodeId| ids.partition_point(|i| *i < id);
    tree.nodes()
        .map(|n| DomNode {
            value: n.value(),
            parent: n.parent().map(|p| index(p.id())),
            children: n.children().map(|c| index(c.id())).collect(),
        })
        .collect()
}

/// How many steps lead from node `i` to a node without a parent, where `fuel`
/// steps are enough.
pub open spec fn chain(links: Seq<Link>, i: int, fuel: nat) -> Option<nat>
    decreases fuel,
{
    match links[i].parent {
        None => Some(0),
        Some(p) => if fuel == 0 || p >= links.len() {
            None
        } else {
            match chain(links, p as int, (fuel - 1) as nat) {
                Some(d) => Some(d + 1),
                None => None,
            }
        },
    }
}

/// Whether the links describe a document: the first node is the root, links
/// stay in range, every child knows its parent and is listed once, and no node
/// is its own ancestor.
pub open spec fn is_document(links: Seq<Link>) -> bool {
    &&& links.len() > 0
    &&& links[0].parent is None
    &&& forall|i: int| 0 <= i < links.len() ==> chain(links, i, links.len()) is Some
    &&& forall|i: int, k: int|
        #![trigger links[i].children[k]]
        0 <= i < links.len() && 0 <= k < links[i].children.len() ==> knows_parent(
            links,
            links[i].children[k],
            i,
        )
    &&& forall|i: int| 0 <= i < links.len() ==> (#[trigger] links[i]).children.no_duplicates()
}

/// Whether `c` is a node and `i` its parent.
pub open spec fn knows_parent(links: Seq<Link>, c: usize, i: int) -> bool {
    c < links.len() && (links[c as int].parent matches Some(p) && p == i)
}

/// Whether the parent of node `c` comes before node `i`.
spec fn parent_before(links: Seq<Link>, c: int, i: int) -> bool {
    links[c].parent matches Some(p) && p < i
}

/// Number of ancestors of node `i`.
pub open spec fn depth(links: Seq<Link>, i: int) -> nat {
    chain(links, i, links.len())->0
}

/// More fuel does not change how long a chain is.
proof fn lemma_chain_stable(links: Seq<Link>, i: int, a: nat, b: nat)
    requires
        a <= b,
        chain(links, i, a) is Some,
    ensures
        chain(links, i, b) == chain(links, i, a),
    decreases a,
{
    if let Some(p) = links[i].parent {
        lemma_chain_stable(links, p as int, (a - 1) as nat, (b - 1) as nat);
    }
}

proof fn lemma_chain_bound(links: Seq<Link>, i: int, a: nat)
    requires
        chain(links, i, a) is Some,
    ensures
        chain(links, i, a)->0 <= a,
    decreases a,
{
    if let Some(p) = links[i].parent {
        lemma_chain_bound(links, p as int, (a - 1) as nat);
    }
}

/// A parent is one step nearer to the root.
pub proof fn lemma_parent_depth(links: Seq<Link>, i: int)
    requires
        is_document(links),
        0 <= i < links.len(),
    ensures
        depth(links, i) <= links.len(),
        links[i].parent matches Some(p) ==> p < links.len() && depth(links, i) == depth(
            links,
            p as int,
        ) + 1,
{
    lemma_chain_bound(links, i, links.len());
    if let Some(p) = links[i].parent {
        lemma_chain_stable(links, p as int, (links.len() - 1) as nat, links.len());
    }
}

/// A child is one step farther from the root.
pub proof fn lemma_child_depth(links: Seq<Link>, i: int, k: int)
    requires
        is_document(links),
        0 <= i < links.len(),
        0 <= k < links[i].children.len(),
    ensures
        links[i].children[k] < links.len(),
        depth(links, links[i].children[k] as int) == depth(links, i) + 1,
        depth(links, links[i].children[k] as int) <= links.len(),
{
    let c = links[i].children[k] as int;
    lemma_parent_depth(links, c);
}

/// Whether a path of child links leads from the root to node `i`.
pub open spec fn below_root(links: Seq<Link>, i: usize) -> bool
    decreases depth(links, i as int),
    when is_document(links) && i < links.len()
{
    proof {
        lemma_parent_depth(links, i as int);
    }
    match links[i as int].parent {
        None => i == 0,
        Some(p) => links[p as int].children.contains(i) && below_root(links, p),
    }
}

/// Whether node `n` is node `i` or one of its descendants.
pub open spec fn within(links: Seq<Link>, n: usize, i: usize) -> bool
    decreases depth(links, n as int),
    when is_document(links) && n < links.len()
{
    proof {
        lemma_parent_depth(links, n as int);
    }
    n == i || match links[n as int].parent {
        None => false,
        Some(p) => within(links, p, i),
    }
}

/// A descendant is farther from the root.
pub proof fn lemma_within_depth(links: Seq<Link>, n: usize, i: usize)
    requires
        is_document(links),
        n < links.len(),
        within(links, n, i),
    ensures
        i < links.len(),
        n != i ==> depth(links, i as int) < depth(links, n as int),
    decreases depth(links, n as int),
{
    lemma_parent_depth(links, n as int);
    if n != i {
        lemma_within_depth(links, links[n as int].parent->0, i);
    }
}

/// What is within a child is within its parent, and is not that parent.
pub proof fn lemma_within_parent(links: Seq<Link>, n: usize, i: usize, k: int)
    requires
        is_document(links),
        n < links.len(),
        i < links.len(),
        0 <= k < links[i as int].children.len(),
        within(links, n, links[i as int].children[k]),
    ensures
        within(links, n, i),
        n != i,
    decreases depth(links, n as int),
{
    let c = links[i as int].children[k];
    lemma_child_depth(links, i as int, k);
    lemma_within_depth(links, n, c);
    lemma_parent_depth(links, n as int);
    if n == c {
        assert(within(links, i, i));
    } else {
        lemma_within_parent(links, links[n as int].parent->0, i, k);
    }
}

/// A node is within one node at most of each depth.
pub proof fn lemma_one_branch(links: Seq<Link>, n: usize, a: usize, b: usize)
    requires
        is_document(links),
        n < links.len(),
        within(links, n, a),
        within(links, n, b),
        depth(links, a as int) == depth(links, b as int),
    ensures
        a == b,
    decreases depth(links, n as int),
{
    lemma_within_depth(links, n, a);
    lemma_within_depth(links, n, b);
    lemma_parent_depth(links, n as int);
    if n != a && n != b {
        lemma_one_branch(links, links[n as int].parent->0, a, b);
    }
}

/// A document: a tree whose nodes are known by their index.
#[derive(Debug)]
pub struct Dom<'a> {
    nodes: Vec<DomNode<'a>>,
}

impl<'a> Dom<'a> {
    /// The nodes with their links.
    pub closed spec fn links(&self) -> Seq<Link> {
        self.nodes@.map_values(|n: DomNode<'a>| n@)
    }

    /// Whether the links describe a document.
    pub open spec fn valid(&self) -> bool {
        is_document(self.links())
    }

    /// The document that a tree holds; none where its links are not those of a
    /// tree.
    pub fn from_tree(tree: &'a Tree<MizuNode>) -> (r: Option<Dom<'a>>)
        ensures
            r is Some <==> is_document(tree_links(*tree)),
            r matches Some(d) ==> d.links() == tree_links(*tree) && d.valid(),
    {
        let nodes = read_tree(tree);
        let ghost links = nodes@.map_values(|n: DomNode<'a>| n@);
        let n = nodes.len();
        if n == 0 {
            return None;
        }
        proof {
            assert(links[0].parent == nodes@[0].parent);
        }
        if nodes[0].parent.is_some() {
            return None;
        }
        let mut listed: Vec<bool> = vec![false; n];
        let mut i: usize = 0;
        while i < n
            invariant
                i <= n == nodes@.len() == links.len() == listed@.len(),
                links == nodes@.map_values(|n: DomNode<'a>| n@),
                links == tree_links(*tree),
                n > 0,
                links[0].parent is None,
                forall|c: int| 0 <= c < n && #[trigger] listed@[c] ==> parent_before(links, c, i as int),
                forall|j: int| 0 <= j < i ==> (#[trigger] links[j]).children.no_duplicates(),
                forall|j: int| 0 <= j < i ==> #[trigger] chain(links, j, n as nat) is Some,
                forall|j: int, k: int|
                    #![trigger links[j].children[k]]
                    0 <= j < i && 0 <= k < links[j].children.len() ==> knows_parent(
                        links,
                        links[j].children[k],
                        j,
                    ),
            decreases n - i,
        {
            if !has_chain(&nodes, i) {
                return None;
            }
            let mut k: usize = 0;
            while k < nodes[i].children.len()
                invariant
                    i < n == nodes@.len() == links.len() == listed@.len(),
                    links == nodes@.map_values(|n: DomNode<'a>| n@),
                    links == tree_links(*tree),
                    k <= nodes@[i as int].children@.len(),
                    forall|c: int|
                        0 <= c < n && #[trigger] listed@[c] ==> parent_before(links, c, i as int)
                            || links[i as int].children.take(k as int).contains(c as usize),
                    forall|j: int|
                        0 <= j < k ==> listed@[(#[trigger] links[i as int].children[j]) as int],
                    links[i as int].children.take(k as int).no_duplicates(),
                    forall|j: int|
                        0 <= j < k ==> knows_parent(
                            links,
                            #[trigger] links[i as int].children[j],
                            i as int,
                        ),
                decreases nodes@[i as int].children@.len() - k,
            {
                let c = nodes[i].children[k];
                proof {
                    assert(links[i as int].children[k as int] == c);
                }
                if c >= n {
                    return None;
                }
                let up = match nodes[c].parent {
                    Some(p) => p == i,
                    None => false,
                };
                proof {
                    assert(links[c as int].parent == nodes@[c as int].parent);
                }
                if !up {
                    return None;
                }
                let ghost siblings = links[i as int].children;
                if listed[c] {
                    proof {
                        let m = siblings.take(k as int).index_of(c);
                        assert(siblings[m] == siblings[k as int]);
                    }
                    return None;
                }
                listed.set(c, true);
                k += 1;
                proof {
                    let before = siblings.take(k - 1);
                    let after = siblings.take(k as int);
                    assert(after =~= before.push(c));
                    assert forall|d: int| 0 <= d < n && #[trigger] listed@[d] implies parent_before(
                        links,
                        d,
                        i as int,
                    ) || after.contains(d as usize) by {
                        if d == c {
                            assert(after[k - 1] == c);
                        } else if before.contains(d as usize) {
                            let m = before.index_of(d as usize);
                            assert(after[m] == d as usize);
                        }
                    }
                }
            }
            proof {
                let siblings = links[i as int].children;
                assert(siblings == nodes@[i as int].children@);
                assert(siblings.take(k as int) =~= siblings);
                assert forall|c: int| 0 <= c < n && #[trigger] listed@[c] implies parent_before(
                    links,
                    c,
                    i + 1,
                ) by {
                    if siblings.contains(c as usize) {
                        let m = siblings.index_of(c as usize);
                        assert(knows_parent(links, siblings[m], i as int));
                    }
                }
            }
            i += 1;
        }
        Some(Dom { nodes })
    }

    /// Number of nodes.
    pub fn len(&self) -> (n: usize)
        ensures
            n == self.links().len(),
    {
        self.nodes.len()
    }

    /// The element at node `i`.
    pub fn value(&self, i: usize) -> (v: &'a MizuNode)
        requires
            i < self.links().len(),
        ensures
            *v == self.links()[i as int].value,
    {
        self.nodes[i].value
    }

    /// The parent of node `i`.
    pub fn parent(&self, i: usize) -> (p: Option<usize>)
        requires
            i < self.links().len(),
        ensures
            p == self.links()[i as int].parent,
    {
        self.nodes[i].parent
    }

    /// The children of node `i`, in document order.
    pub fn children(&self, i: usize) -> (c: &Vec<usize>)
        requires
            i < self.links().len(),
        ensures
            c@ == self.links()[i as int].children,
    {
        &self.nodes[i].children
    }
}

/// Whether following parents from node `i` comes to an end.
fn has_chain(nodes: &Vec<DomNode<'_>>, i: usize) -> (r: bool)
    requires
        i < nodes@.len(),
    ensures
        r == (chain(nodes@.map_values(|n: DomNode<'_>| n@), i as int, nodes@.len()) is Some),
{
    let ghost links = nodes@.map_values(|n: DomNode<'_>| n@);
    let mut at: usize = i;
    let mut fuel: usize = nodes.len();
    loop
        invariant
            at < nodes@.len() == links.len(),
            fuel <= nodes@.len(),
            links == nodes@.map_values(|n: DomNode<'_>| n@),
            (chain(links, i as int, nodes@.len()) is Some) == (chain(links, at as int, fuel as nat)
                is Some),
        decreases fuel,
    {
        proof {
            assert(links[at as int].parent == nodes@[at as int].parent);
        }
        match nodes[at].parent {
            None => {
                return true;
            },
            Some(p) => {
                if fuel == 0 || p >= nodes.len() {
                    return false;
                }
                fuel -= 1;
                at = p;
            },
        }
    }
}

} // verus!
