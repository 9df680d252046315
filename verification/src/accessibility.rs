//! The accessibility tree: the document as assistive technology sees it.
//!
//! What assistive technology hears comes from the same attributes and texts
//! that are painted.

use std::collections::HashMap;

use vstd::prelude::*;

use crate::dom::{
    depth, is_document, lemma_child_depth, lemma_parent_depth, Dom, Link, MizuNode, Primitive,
};
use crate::text::{number_of, parse_usize};

pub mod laws;
pub mod node_laws;

verus! {

/// What a node is to assistive technology.
#[derive(Debug, Clone, Copy, PartialEq, Eq, Structural)]
pub enum Role {
    Window,
    GenericContainer,
    StaticText,
    Button,
    TextInput,
    Image,
    Form,
    Heading,
}

/// What assistive technology may ask of a node.
#[derive(Debug, Clone, Copy, PartialEq, Eq, Structural)]
pub enum AccessAction {
    /// To focus it.
    Focus,
    /// To activate it.
    Activate,
}

/// One node of the accessibility tree.
#[derive(Debug, Clone)]
pub struct AccessNode {
    pub role: Role,
    /// What is read out.
    pub name: Option<String>,
    /// The level of a heading.
    pub level: Option<usize>,
    pub actions: Vec<AccessAction>,
    /// Ids of its children.
    pub children: Vec<u64>,
}

/// What an [`AccessNode`] says.
#[verifier::ext_equal]
pub struct AccessView {
    pub role: Role,
    pub name: Option<Seq<char>>,
    pub level: Option<usize>,
    pub actions: Seq<AccessAction>,
    pub children: Seq<u64>,
}

impl View for AccessNode {
    type V = AccessView;

    open spec fn view(&self) -> AccessView {
        AccessView {
            role: self.role,
            name: match self.name {
                Some(s) => Some(s@),
                None => None,
            },
            level: self.level,
            actions: self.actions@,
            children: self.children@,
        }
    }
}

/// A whole accessibility tree.
#[derive(Debug, Clone)]
pub struct TreeUpdate {
    /// The nodes with their ids, children before their parents.
    pub nodes: Vec<(u64, AccessNode)>,
    /// Id of the root.
    pub root: u64,
    /// Id of the node with the focus.
    pub focus: u64,
}

/// Nodes with their ids.
pub open spec fn node_views(s: Seq<(u64, AccessNode)>) -> Seq<(u64, AccessView)> {
    s.map_values(|e: (u64, AccessNode)| (e.0, e.1@))
}

/// The id of node `id` of document generation `epoch`: the generation in the
/// high half, and in the low half the node's number, counted from one.
pub open spec fn id_of(epoch: u32, id: u32) -> u64 {
    ((epoch as u64) << 32) | ((id as u64 + 1) as u64)
}

/// The id of node `u32_id` of document generation `epoch`.
///
/// Nodes are numbered from zero in every document, so without the generation
/// the nodes of a new document would be taken for those of the old one. No id
/// is zero, which some platforms take for no node at all.
pub fn access_id(epoch: u32, u32_id: u32) -> (r: u64)
    ensures
        r == id_of(epoch, u32_id),
{
    ((epoch as u64) << 32) | (u32_id as u64 + 1)
}

/// The number of the node that an id names in document generation `epoch`.
pub open spec fn named_node(epoch: u32, id: u64) -> Option<u32> {
    if (id >> 32) as u32 != epoch || id & 0xffff_ffff == 0 {
        None
    } else {
        Some(((id & 0xffff_ffff) - 1) as u32)
    }
}

/// The node that an id names. An id of another document generation names none.
pub fn resolve_ego_id(epoch: u32, u32_to_node_id: &HashMap<u32, usize>, id: u64) -> (r: Option<usize>)
    ensures
        r == (match named_node(epoch, id) {
            Some(n) => if u32_to_node_id@.contains_key(n) {
                Some(u32_to_node_id@[n])
            } else {
                None
            },
            None => None,
        }),
{
    broadcast use vstd::std_specs::hash::group_hash_axioms;

    if (id >> 32) as u32 != epoch {
        return None;
    }
    let low: u64 = id & 0xffff_ffff;
    proof {
        assert(id & 0xffff_ffff <= 0xffff_ffff) by (bit_vector);
    }
    if low == 0 {
        return None;
    }
    match u32_to_node_id.get(&((low - 1) as u32)) {
        Some(n) => Some(*n),
        None => None,
    }
}

/// The role of an element.
pub open spec fn role_of(primitive: Primitive) -> Role {
    match primitive {
        Primitive::Doc => Role::Window,
        Primitive::Box | Primitive::Each => Role::GenericContainer,
        Primitive::Text | Primitive::Markdown => Role::StaticText,
        Primitive::Button => Role::Button,
        Primitive::Input => Role::TextInput,
        Primitive::Image => Role::Image,
        Primitive::Form => Role::Form,
        Primitive::Heading => Role::Heading,
    }
}

/// The role of an element.
pub fn role_for(primitive: Primitive) -> (r: Role)
    ensures
        r == role_of(primitive),
{
    match primitive {
        Primitive::Doc => Role::Window,
        Primitive::Box | Primitive::Each => Role::GenericContainer,
        Primitive::Text | Primitive::Markdown => Role::StaticText,
        Primitive::Button => Role::Button,
        Primitive::Input => Role::TextInput,
        Primitive::Image => Role::Image,
        Primitive::Form => Role::Form,
        Primitive::Heading => Role::Heading,
    }
}

/// What is read out, unless it is empty.
pub open spec fn nonempty(s: Option<Seq<char>>) -> Option<Seq<char>> {
    match s {
        Some(t) => if t.len() > 0 {
            Some(t)
        } else {
            None
        },
        None => None,
    }
}

/// Whether every text that `f` gives is the one that `g` says.
pub open spec fn interpolates<F: Fn(&str) -> String>(
    f: F,
    g: spec_fn(Seq<char>) -> Seq<char>,
) -> bool {
    forall|s: &str, r: String| #[trigger] call_ensures(f, (s,), r) ==> r@ == g(s@)
}

/// The nodes without what the closures of an [`AccessContext`] say of them:
/// their names and actions.
pub open spec fn bare(nodes: Seq<(u64, AccessView)>) -> Seq<(u64, AccessView)> {
    nodes.map_values(
        |n: (u64, AccessView)|
            (n.0, AccessView { name: None, actions: Seq::empty(), ..n.1 }),
    )
}

proof fn lemma_bare_concat(a: Seq<(u64, AccessView)>, b: Seq<(u64, AccessView)>)
    ensures
        bare(a + b) == bare(a) + bare(b),
{
    assert(bare(a + b) =~= bare(a) + bare(b));
}

/// Whether every answer that `f` gives is the one that `g` says.
pub open spec fn decides<F: Fn(&MizuNode) -> bool>(f: F, g: spec_fn(MizuNode) -> bool) -> bool {
    forall|n: &MizuNode, r: bool| #[trigger] call_ensures(f, (n,), r) ==> r == g(*n)
}

/// What the accessibility tree depends on.
pub struct AccessPicture {
    pub epoch: u32,
    pub links: Seq<Link>,
    /// The numbers of the nodes.
    pub ids: Map<usize, u32>,
    /// What a text says with the document's values filled in.
    pub filled: spec_fn(Seq<char>) -> Seq<char>,
    /// Whether the keyboard can reach an element.
    pub focusable: spec_fn(MizuNode) -> bool,
}

impl AccessPicture {
    /// Whether a node has a number.
    pub open spec fn known(self, i: usize) -> bool {
        self.ids.contains_key(i)
    }

    pub open spec fn id(self, i: usize) -> u64 {
        id_of(self.epoch, self.ids[i])
    }

    /// What is read out for an element.
    pub open spec fn name(self, n: MizuNode) -> Option<Seq<char>> {
        match n.primitive {
            Primitive::Image => nonempty(n.attr("alt"@)),
            Primitive::Text | Primitive::Markdown | Primitive::Button => match n.attr("content"@) {
                Some(s) => nonempty(Some((self.filled)(s))),
                None => None,
            },
            Primitive::Input => nonempty(n.attr("placeholder"@)),
            _ => None,
        }
    }

    /// The level of a heading.
    pub open spec fn level(self, n: MizuNode) -> Option<usize> {
        match (n.primitive, n.attr("level"@)) {
            (Primitive::Heading, Some(s)) => match number_of(s) {
                Some(k) => if k <= usize::MAX {
                    Some(k as usize)
                } else {
                    None
                },
                None => None,
            },
            _ => None,
        }
    }

    /// What may be asked of an element.
    pub open spec fn actions(self, n: MizuNode) -> Seq<AccessAction> {
        if !(self.focusable)(n) {
            Seq::empty()
        } else if n.primitive == Primitive::Button || n.reacts_to("click"@) || n.reacts_to(
            "submit"@,
        ) {
            seq![AccessAction::Focus, AccessAction::Activate]
        } else {
            seq![AccessAction::Focus]
        }
    }

    /// The ids of those of the first `k` children of node `i` that have one.
    pub open spec fn child_ids(self, i: usize, k: nat) -> Seq<u64>
        decreases k,
    {
        if k == 0 {
            Seq::empty()
        } else {
            let c = self.links[i as int].children[k - 1];
            if self.known(c) {
                self.child_ids(i, (k - 1) as nat).push(self.id(c))
            } else {
                self.child_ids(i, (k - 1) as nat)
            }
        }
    }

    /// Node `i` without its descendants.
    pub open spec fn node(self, i: usize) -> AccessView {
        let n = self.links[i as int].value;
        AccessView {
            role: role_of(n.primitive),
            name: self.name(n),
            level: self.level(n),
            actions: self.actions(n),
            children: self.child_ids(i, self.links[i as int].children.len()),
        }
    }

    /// Node `i` with its descendants, children before their parents. A node
    /// without a number is left out with all its descendants.
    pub open spec fn subtree(self, i: usize) -> Seq<(u64, AccessView)>
        decreases self.links.len() - depth(self.links, i as int), 1nat, 0nat,
        when is_document(self.links) && i < self.links.len()
    {
        proof {
            lemma_parent_depth(self.links, i as int);
        }
        if self.known(i) {
            self.kids(i, self.links[i as int].children.len()).push((self.id(i), self.node(i)))
        } else {
            Seq::empty()
        }
    }

    /// The first `k` children of node `i` with their descendants.
    pub open spec fn kids(self, i: usize, k: nat) -> Seq<(u64, AccessView)>
        decreases self.links.len() - depth(self.links, i as int), 0nat, k,
        when is_document(self.links) && i < self.links.len() && k <= self.links[
            i as int
        ].children.len()
    {
        proof {
            lemma_parent_depth(self.links, i as int);
            if k > 0 {
                lemma_child_depth(self.links, i as int, k - 1);
            }
        }
        if k == 0 {
            Seq::empty()
        } else {
            self.kids(i, (k - 1) as nat) + self.subtree(self.links[i as int].children[k - 1])
        }
    }

    /// Id of the root.
    pub open spec fn root_id(self) -> u64 {
        root_id(self.epoch, self.ids)
    }
}

/// Id of the root of a document whose nodes have the numbers `ids`.
pub open spec fn root_id(epoch: u32, ids: Map<usize, u32>) -> u64 {
    if ids.contains_key(0) {
        id_of(epoch, ids[0])
    } else {
        1
    }
}

/// Id of the node with the focus: the root where no known node has it.
pub open spec fn focus_id(epoch: u32, ids: Map<usize, u32>, focused: Option<usize>) -> u64 {
    match focused {
        Some(i) => if ids.contains_key(i) {
            id_of(epoch, ids[i])
        } else {
            root_id(epoch, ids)
        },
        None => root_id(epoch, ids),
    }
}

/// What the accessibility tree is built from.
pub struct AccessContext<'a, I, P> {
    pub epoch: u32,
    pub dom: &'a Dom<'a>,
    /// The numbers of the nodes.
    pub node_id_to_u32: &'a HashMap<usize, u32>,
    /// Fills the document's values into a text.
    pub interpolate: I,
    /// Tells whether the keyboard can reach an element.
    pub is_focusable: P,
}

impl<'a, I: Fn(&str) -> String, P: Fn(&MizuNode) -> bool> AccessContext<'a, I, P> {
    /// What the tree depends on.
    pub open spec fn picture(
        &self,
        filled: spec_fn(Seq<char>) -> Seq<char>,
        focusable: spec_fn(MizuNode) -> bool,
    ) -> AccessPicture {
        AccessPicture {
            epoch: self.epoch,
            links: self.dom.links(),
            ids: self.node_id_to_u32@,
            filled,
            focusable,
        }
    }

    /// Whether the closures do as `filled` and `focusable` say.
    pub open spec fn follows(
        &self,
        filled: spec_fn(Seq<char>) -> Seq<char>,
        focusable: spec_fn(MizuNode) -> bool,
    ) -> bool {
        interpolates(self.interpolate, filled) && decides(self.is_focusable, focusable)
    }

    /// Whether the tree can be built.
    pub open spec fn ready(&self) -> bool {
        &&& self.dom.valid()
        &&& forall|s: &str| #[trigger] call_requires(self.interpolate, (s,))
        &&& forall|n: &MizuNode| #[trigger] call_requires(self.is_focusable, (n,))
    }

    /// The id of node `i`, if it has one.
    fn id_of_node(&self, i: usize) -> (r: Option<u64>)
        ensures
            r == (if self.node_id_to_u32@.contains_key(i) {
                Some(id_of(self.epoch, self.node_id_to_u32@[i]))
            } else {
                None
            }),
    {
        broadcast use vstd::std_specs::hash::group_hash_axioms;

        match self.node_id_to_u32.get(&i) {
            Some(n) => Some(access_id(self.epoch, *n)),
            None => None,
        }
    }

    /// What is read out for an element.
    fn name_of(&self, node: &MizuNode) -> (r: Option<String>)
        requires
            self.ready(),
        ensures
            forall|filled: spec_fn(Seq<char>) -> Seq<char>, focusable: spec_fn(MizuNode) -> bool|
                #[trigger]
                self.follows(filled, focusable) ==> (match r {
                    Some(s) => Some(s@),
                    None => None,
                }) == self.picture(filled, focusable).name(*node),
    {
        let text = match node.primitive {
            Primitive::Image => match node.get("alt") {
                Some(s) => s.to_owned(),
                None => String::new(),
            },
            Primitive::Text | Primitive::Markdown | Primitive::Button => match node.get(
                "content",
            ) {
                Some(s) => (self.interpolate)(s),
                None => String::new(),
            },
            Primitive::Input => match node.get("placeholder") {
                Some(s) => s.to_owned(),
                None => String::new(),
            },
            _ => String::new(),
        };
        if text.as_str().unicode_len() > 0 {
            Some(text)
        } else {
            None
        }
    }

    /// Builds node `i` and its descendants, and adds them to `out`.
    fn build_node(&self, i: usize, out: &mut Vec<(u64, AccessNode)>)
        requires
            self.ready(),
            i < self.dom.links().len(),
        ensures
            forall|filled: spec_fn(Seq<char>) -> Seq<char>, focusable: spec_fn(MizuNode) -> bool|
                #[trigger]
                self.follows(filled, focusable) ==> node_views(final(out)@) == node_views(old(out)@)
                    + self.picture(filled, focusable).subtree(i),
            forall|filled: spec_fn(Seq<char>) -> Seq<char>, focusable: spec_fn(MizuNode) -> bool|
                bare(node_views(final(out)@)) == bare(node_views(old(out)@)) + bare(
                    (#[trigger] self.picture(filled, focusable)).subtree(i),
                ),
        decreases self.dom.links().len() - depth(self.dom.links(), i as int),
    {
        let ghost before = node_views(out@);
        let ghost links = self.dom.links();
        let this_id = match self.id_of_node(i) {
            Some(id) => id,
            None => {
                proof {
                    assert(before + Seq::<(u64, AccessView)>::empty() =~= before);
                    lemma_bare_concat(before, Seq::empty());
                }
                return;
            },
        };
        let node = self.dom.value(i);
        let name = self.name_of(node);
        let level = if node.primitive == Primitive::Heading {
            match node.get("level") {
                Some(s) => parse_usize(s),
                None => None,
            }
        } else {
            None
        };
        let mut actions: Vec<AccessAction> = Vec::new();
        if (self.is_focusable)(node) {
            actions.push(AccessAction::Focus);
            if node.primitive == Primitive::Button || node.has_event("click") || node.has_event(
                "submit",
            ) {
                actions.push(AccessAction::Activate);
            }
        }
        let children = self.dom.children(i);
        let mut child_ids: Vec<u64> = Vec::new();
        let mut k: usize = 0;
        proof {
            assert(before + Seq::<(u64, AccessView)>::empty() =~= before);
            lemma_bare_concat(before, Seq::empty());
        }
        while k < children.len()
            invariant
                self.ready(),
                links == self.dom.links(),
                i < links.len(),
                k <= children@.len(),
                children@ == links[i as int].children,
                forall|filled: spec_fn(Seq<char>) -> Seq<char>, focusable: spec_fn(MizuNode) -> bool|
                    #[trigger]
                    self.follows(filled, focusable) ==> node_views(out@) == before + self.picture(
                        filled,
                        focusable,
                    ).kids(i, k as nat),
                forall|filled: spec_fn(Seq<char>) -> Seq<char>, focusable: spec_fn(MizuNode) -> bool|
                    {
                        let q = #[trigger] self.picture(filled, focusable);
                        &&& bare(node_views(out@)) == bare(before) + bare(q.kids(i, k as nat))
                        &&& child_ids@ == q.child_ids(i, k as nat)
                    },
            decreases children.len() - k,
        {
            let c = children[k];
            let ghost so_far = node_views(out@);
            proof {
                lemma_child_depth(links, i as int, k as int);
                lemma_parent_depth(links, i as int);
            }
            self.build_node(c, out);
            proof {
                assert forall|
                    filled: spec_fn(Seq<char>) -> Seq<char>,
                    focusable: spec_fn(MizuNode) -> bool,
                | #[trigger]
                    self.follows(filled, focusable) implies node_views(out@) == before
                    + self.picture(filled, focusable).kids(i, (k + 1) as nat) by {
                    let q = self.picture(filled, focusable);
                    assert(so_far == before + q.kids(i, k as nat));
                    assert(before + q.kids(i, k as nat) + q.subtree(c) =~= before + (q.kids(
                        i,
                        k as nat,
                    ) + q.subtree(c)));
                }
                assert forall|
                    filled: spec_fn(Seq<char>) -> Seq<char>,
                    focusable: spec_fn(MizuNode) -> bool,
                | bare(node_views(out@)) == bare(before) + bare(
                    (#[trigger] self.picture(filled, focusable)).kids(i, (k + 1) as nat),
                ) by {
                    let q = self.picture(filled, focusable);
                    lemma_bare_concat(q.kids(i, k as nat), q.subtree(c));
                    assert(bare(before) + bare(q.kids(i, k as nat)) + bare(q.subtree(c)) =~= bare(
                        before,
                    ) + (bare(q.kids(i, k as nat)) + bare(q.subtree(c))));
                }
            }
            if let Some(id) = self.id_of_node(c) {
                child_ids.push(id);
            }
            k += 1;
        }
        let built = AccessNode {
            role: role_for(node.primitive),
            name,
            level,
            actions,
            children: child_ids,
        };
        let ghost with_kids = node_views(out@);
        proof {
            assert forall|
                filled: spec_fn(Seq<char>) -> Seq<char>,
                focusable: spec_fn(MizuNode) -> bool,
            | #[trigger]
                self.follows(filled, focusable) implies built@ == self.picture(
                filled,
                focusable,
            ).node(i) by {
                let q = self.picture(filled, focusable);
                assert(built.actions@ =~= q.actions(*node));
                assert(built@ =~= q.node(i));
            }
        }
        out.push((this_id, built));
        proof {
            assert(node_views(out@) =~= with_kids.push((this_id, built@)));
            assert forall|
                filled: spec_fn(Seq<char>) -> Seq<char>,
                focusable: spec_fn(MizuNode) -> bool,
            | #[trigger]
                self.follows(filled, focusable) implies node_views(out@) == before + self.picture(
                filled,
                focusable,
            ).subtree(i) by {
                let q = self.picture(filled, focusable);
                assert(with_kids == before + q.kids(i, children@.len()));
                assert(node_views(out@) =~= before + q.subtree(i));
            }
            assert forall|
                filled: spec_fn(Seq<char>) -> Seq<char>,
                focusable: spec_fn(MizuNode) -> bool,
            | bare(node_views(out@)) == bare(before) + bare(
                (#[trigger] self.picture(filled, focusable)).subtree(i),
            ) by {
                let q = self.picture(filled, focusable);
                let kids = q.kids(i, children@.len());
                let last = seq![(this_id, built@)];
                let own = seq![(q.id(i), q.node(i))];
                assert(node_views(out@) =~= with_kids + last);
                assert(q.subtree(i) =~= kids + own);
                lemma_bare_concat(with_kids, last);
                lemma_bare_concat(kids, own);
                assert(bare(last) =~= bare(own));
                assert(bare(before) + bare(kids) + bare(own) =~= bare(before) + (bare(kids) + bare(
                    own,
                )));
            }
        }
    }
}

/// Builds the accessibility tree of a document. Names and actions follow the
/// context's closures; all else is the same whatever they say.
pub fn build_a11y_tree<I: Fn(&str) -> String, P: Fn(&MizuNode) -> bool>(
    ctx: &AccessContext<'_, I, P>,
    focused_node: Option<usize>,
) -> (r: TreeUpdate)
    requires
        ctx.ready(),
    ensures
        forall|filled: spec_fn(Seq<char>) -> Seq<char>, focusable: spec_fn(MizuNode) -> bool|
            #[trigger]
            ctx.follows(filled, focusable) ==> node_views(r.nodes@) == ctx.picture(
                filled,
                focusable,
            ).subtree(0),
        forall|filled: spec_fn(Seq<char>) -> Seq<char>, focusable: spec_fn(MizuNode) -> bool|
            bare(node_views(r.nodes@)) == bare(
                (#[trigger] ctx.picture(filled, focusable)).subtree(0),
            ),
        r.root == root_id(ctx.epoch, ctx.node_id_to_u32@),
        r.focus == focus_id(ctx.epoch, ctx.node_id_to_u32@, focused_node),
{
    let mut nodes: Vec<(u64, AccessNode)> = Vec::new();
    let root = match ctx.id_of_node(0) {
        Some(id) => id,
        None => 1,
    };
    proof {
        assert(node_views(nodes@) =~= Seq::<(u64, AccessView)>::empty());
    }
    ctx.build_node(0, &mut nodes);
    let focus = match focused_node {
        Some(i) => match ctx.id_of_node(i) {
            Some(id) => id,
            None => root,
        },
        None => root,
    };
    proof {
        assert forall|filled: spec_fn(Seq<char>) -> Seq<char>, focusable: spec_fn(MizuNode) -> bool|
            #[trigger]
            ctx.follows(filled, focusable) implies node_views(nodes@) == ctx.picture(
            filled,
            focusable,
        ).subtree(0) by {
            let q = ctx.picture(filled, focusable);
            assert(Seq::<(u64, AccessView)>::empty() + q.subtree(0) =~= q.subtree(0));
        }
        let none = bare(Seq::<(u64, AccessView)>::empty());
        assert forall|filled: spec_fn(Seq<char>) -> Seq<char>, focusable: spec_fn(MizuNode) -> bool|
            bare(node_views(nodes@)) == bare(
                (#[trigger] ctx.picture(filled, focusable)).subtree(0),
            ) by {
            let q = ctx.picture(filled, focusable);
            assert(none + bare(q.subtree(0)) =~= bare(q.subtree(0)));
        }
    }
    TreeUpdate { nodes, root, focus }
}

} // verus!
