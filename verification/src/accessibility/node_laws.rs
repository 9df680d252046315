//! What holds of each entry of the accessibility tree.

use vstd::prelude::*;

use crate::accessibility::{
    focus_id, id_of, root_id, AccessAction, AccessContext, AccessPicture, Role,
};
use crate::accessibility::laws::{
    numbered, numbers_differ, stands_for, law_every_node_is_in_the_tree_once,
};
use crate::dom::{is_document, MizuNode, Primitive};
use crate::text::number_of;

verus! {

/// The node at position `i`.
pub open spec fn element(q: AccessPicture, i: usize) -> MizuNode {
    q.links[i as int].value
}

/// A text, a piece of Markdown or a button is read out as its content with the
/// document's values filled in; only where that is empty, or there is no
/// content, is nothing read out.
pub proof fn law_contents_are_read_out(q: AccessPicture, i: usize, s: Seq<char>)
    requires
        ({
            let p = element(q, i).primitive;
            p == Primitive::Text || p == Primitive::Markdown || p == Primitive::Button
        }),
    ensures
        element(q, i).attr("content"@) == Some(s) && (q.filled)(s).len() > 0 ==> q.node(i).name
            == Some((q.filled)(s)),
        element(q, i).attr("content"@) == Some(s) && (q.filled)(s).len() == 0 ==> q.node(i).name
            is None,
        element(q, i).attr("content"@) is None ==> q.node(i).name is None,
{
}

/// An image is read out as its `alt` text and an input field as its
/// placeholder, each as it is written; only where that is empty, or there is
/// none, is nothing read out.
pub proof fn law_images_and_fields_are_read_out(q: AccessPicture, i: usize, s: Seq<char>)
    ensures
        element(q, i).primitive == Primitive::Image && element(q, i).attr("alt"@) == Some(s) ==> (
        q.node(i).name == if s.len() > 0 {
            Some(s)
        } else {
            None
        }),
        element(q, i).primitive == Primitive::Image && element(q, i).attr("alt"@) is None
            ==> q.node(i).name is None,
        element(q, i).primitive == Primitive::Input && element(q, i).attr("placeholder"@) == Some(s)
            ==> (q.node(i).name == if s.len() > 0 {
            Some(s)
        } else {
            None
        }),
        element(q, i).primitive == Primitive::Input && element(q, i).attr("placeholder"@) is None
            ==> q.node(i).name is None,
{
}

/// Nothing is read out for what only holds other elements.
pub proof fn law_containers_are_silent(q: AccessPicture, i: usize)
    requires
        ({
            let p = element(q, i).primitive;
            p == Primitive::Doc || p == Primitive::Box || p == Primitive::Each || p
                == Primitive::Form || p == Primitive::Heading
        }),
    ensures
        q.node(i).name is None,
{
}

/// Every node that has a number, as all above it have, is in the tree with what
/// is read out for it.
pub proof fn law_the_tree_reads_out_contents(q: AccessPicture, i: usize, s: Seq<char>)
    requires
        is_document(q.links),
        numbers_differ(q),
        i < q.links.len(),
        numbered(q, i),
        ({
            let p = element(q, i).primitive;
            p == Primitive::Text || p == Primitive::Markdown || p == Primitive::Button
        }),
        element(q, i).attr("content"@) == Some(s),
        (q.filled)(s).len() > 0,
    ensures
        exists|m: int|
            0 <= m < q.subtree(0).len() && (#[trigger] q.subtree(0)[m]).0 == id_of(
                q.epoch,
                q.ids[i],
            ) && q.subtree(0)[m].1.name == Some((q.filled)(s)),
{
    law_every_node_is_in_the_tree_once(q);
    let m = choose|m: int| stands_for(q, q.subtree(0), m, i);
    assert(stands_for(q, q.subtree(0), m, i));
    assert(q.subtree(0)[m].1.name == Some((q.filled)(s)));
}

/// Each kind of element has the role that its name says; the document is the
/// window, and what only holds other elements is a plain container.
pub proof fn law_roles_follow_the_kind(q: AccessPicture, i: usize)
    ensures
        element(q, i).primitive == Primitive::Button <==> q.node(i).role == Role::Button,
        element(q, i).primitive == Primitive::Input <==> q.node(i).role == Role::TextInput,
        element(q, i).primitive == Primitive::Image <==> q.node(i).role == Role::Image,
        element(q, i).primitive == Primitive::Form <==> q.node(i).role == Role::Form,
        element(q, i).primitive == Primitive::Heading <==> q.node(i).role == Role::Heading,
        element(q, i).primitive == Primitive::Doc <==> q.node(i).role == Role::Window,
        (element(q, i).primitive == Primitive::Text || element(q, i).primitive
            == Primitive::Markdown) <==> q.node(i).role == Role::StaticText,
        (element(q, i).primitive == Primitive::Box || element(q, i).primitive == Primitive::Each)
            <==> q.node(i).role == Role::GenericContainer,
{
}

/// A heading has the level that it names where that is a number the machine can
/// hold; nothing else has a level.
pub proof fn law_headings_have_their_level(q: AccessPicture, i: usize, k: nat)
    ensures
        element(q, i).primitive != Primitive::Heading ==> q.node(i).level is None,
        element(q, i).attr("level"@) is None ==> q.node(i).level is None,
        element(q, i).primitive == Primitive::Heading && k <= usize::MAX ==> (q.node(i).level
            == Some(k as usize) <==> (element(q, i).attr("level"@) matches Some(s) && number_of(s)
            == Some(k))),
{
}

/// What the keyboard cannot reach offers nothing. What it can reach can be
/// focused, and if it is a button or reacts to a click or to being sent, it can
/// be activated too.
pub proof fn law_actions_follow_the_keyboard(q: AccessPicture, i: usize)
    ensures
        q.node(i).actions.contains(AccessAction::Focus) <==> (q.focusable)(element(q, i)),
        q.node(i).actions.contains(AccessAction::Activate) <==> (q.focusable)(element(q, i)) && (
        element(q, i).primitive == Primitive::Button || element(q, i).reacts_to("click"@)
            || element(q, i).reacts_to("submit"@)),
        !(q.focusable)(element(q, i)) ==> q.node(i).actions.len() == 0,
        q.node(i).actions.len() <= 2,
        q.node(i).actions.no_duplicates(),
{
    let a = q.node(i).actions;
    if a.len() > 0 {
        assert(a[0] == AccessAction::Focus);
        assert(a.contains(a[0]));
        if a.len() > 1 {
            assert(a[1] == AccessAction::Activate);
            assert(a.contains(a[1]));
        }
    }
}

proof fn lemma_all_children(q: AccessPicture, i: usize, k: nat)
    requires
        k <= q.links[i as int].children.len(),
        forall|j: int| 0 <= j < k ==> q.ids.contains_key(#[trigger] q.links[i as int].children[j]),
    ensures
        q.child_ids(i, k).len() == k,
        forall|j: int|
            0 <= j < k ==> #[trigger] q.child_ids(i, k)[j] == id_of(
                q.epoch,
                q.ids[q.links[i as int].children[j]],
            ),
    decreases k,
{
    if k > 0 {
        lemma_all_children(q, i, (k - 1) as nat);
        assert(q.known(q.links[i as int].children[k - 1]));
    }
}

proof fn lemma_known_children(q: AccessPicture, i: usize, k: nat)
    ensures
        q.child_ids(i, k).len() <= k,
    decreases k,
{
    if k > 0 {
        lemma_known_children(q, i, (k - 1) as nat);
    }
}

/// A node whose children all have numbers names exactly them, in their order;
/// no node names more than it has.
pub proof fn law_children_keep_their_order(q: AccessPicture, i: usize)
    ensures
        q.node(i).children.len() <= q.links[i as int].children.len(),
        (forall|j: int|
            0 <= j < q.links[i as int].children.len() ==> q.ids.contains_key(
                #[trigger] q.links[i as int].children[j],
            )) ==> q.node(i).children == Seq::new(
            q.links[i as int].children.len(),
            |j: int| id_of(q.epoch, q.ids[q.links[i as int].children[j]]),
        ),
{
    let all = q.links[i as int].children;
    lemma_known_children(q, i, all.len());
    if forall|j: int| 0 <= j < all.len() ==> q.ids.contains_key(#[trigger] all[j]) {
        lemma_all_children(q, i, all.len());
        assert(q.node(i).children =~= Seq::new(
            all.len(),
            |j: int| id_of(q.epoch, q.ids[q.links[i as int].children[j]]),
        ));
    }
}

/// A node stands behind all its descendants: the last entry of its subtree is
/// its own.
pub proof fn law_a_node_follows_its_descendants(q: AccessPicture, i: usize)
    requires
        is_document(q.links),
        i < q.links.len(),
    ensures
        q.ids.contains_key(i) ==> q.subtree(i).len() > 0 && q.subtree(i).last() == (
            id_of(q.epoch, q.ids[i]),
            q.node(i),
        ),
        !q.ids.contains_key(i) ==> q.subtree(i).len() == 0,
{
}

/// An id holds the generation in its high half and the node's number, counted
/// from one, in its low half.
pub proof fn law_ids_hold_generation_and_number(epoch: u32, id: u32)
    requires
        id < u32::MAX,
    ensures
        id_of(epoch, id) == epoch * 0x1_0000_0000 + id + 1,
{
    let e = epoch as u64;
    let n = (id as u64 + 1) as u64;
    assert((e << 32) | n == e * 0x1_0000_0000 + n) by (bit_vector)
        requires
            e <= 0xffff_ffff,
            1 <= n <= 0xffff_ffff,
    ;
}

/// The focus is on the focused node where that has a number, else on the root;
/// the root is node zero.
pub proof fn law_the_focus_is_on_a_known_node(
    epoch: u32,
    ids: Map<usize, u32>,
    focused: Option<usize>,
)
    ensures
        ids.contains_key(0) ==> root_id(epoch, ids) == id_of(epoch, ids[0]),
        !ids.contains_key(0) ==> root_id(epoch, ids) == 1,
        focused matches Some(i) && ids.contains_key(i) ==> focus_id(epoch, ids, focused) == id_of(
            epoch,
            ids[focused->0],
        ),
        !(focused matches Some(i) && ids.contains_key(i)) ==> focus_id(epoch, ids, focused)
            == root_id(epoch, ids),
{
}

/// The tree is that of the document, the numbers and the generation that were
/// given.
pub proof fn law_the_given_document_is_described<
    I: Fn(&str) -> String,
    P: Fn(&MizuNode) -> bool,
>(
    ctx: AccessContext<'_, I, P>,
    filled: spec_fn(Seq<char>) -> Seq<char>,
    focusable: spec_fn(MizuNode) -> bool,
)
    ensures
        ({
            let q = ctx.picture(filled, focusable);
            &&& q.epoch == ctx.epoch && q.links == ctx.dom.links() && q.ids == ctx.node_id_to_u32@
            &&& q.filled == filled && q.focusable == focusable
        }),
{
}

/// In front of a node stand all its descendants: those of its first child, then
/// those of the next.
pub proof fn law_descendants_stand_in_order(q: AccessPicture, i: usize, k: nat)
    requires
        is_document(q.links),
        i < q.links.len(),
        q.ids.contains_key(i),
    ensures
        q.subtree(i).drop_last() == q.kids(i, q.links[i as int].children.len()),
        q.kids(i, 0).len() == 0,
        k < q.links[i as int].children.len() ==> q.kids(i, k + 1) == q.kids(i, k) + q.subtree(
            q.links[i as int].children[k as int],
        ),
{
    assert(q.subtree(i).drop_last() =~= q.kids(i, q.links[i as int].children.len()));
}

} // verus!
