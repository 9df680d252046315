//! Finding the element under the pointer, and the place of an element on
//! screen.
//!
//! Layout gives each element a place relative to its parent. A scrolled
//! element moves its children up.

use std::collections::HashMap;

use vstd::prelude::*;

use crate::dom::{
    depth, is_document, lemma_child_depth, lemma_parent_depth, lemma_within_parent, within, Dom,
    Link,
};
use crate::px::Rect;

verus! {

/// Most nodes of a document that is laid out.
pub const MAX_NODES: usize = 0xffff_ffff;

/// Where layout puts an element in its parent, and how large it is.
#[derive(Debug, Clone, Copy, PartialEq, Eq, Structural)]
pub struct LayoutBox {
    pub x: i64,
    pub y: i64,
    pub width: i64,
    pub height: i64,
}

/// A laid-out document.
pub struct Layout {
    pub links: Seq<Link>,
    pub boxes: Map<usize, LayoutBox>,
    pub scrolls: Map<usize, i64>,
}

impl Layout {
    /// The box of node `i`; one without a box takes no room.
    pub open spec fn cell(self, i: usize) -> LayoutBox {
        if self.boxes.contains_key(i) {
            self.boxes[i]
        } else {
            LayoutBox { x: 0, y: 0, width: 0, height: 0 }
        }
    }

    /// How far node `i` is scrolled.
    pub open spec fn scroll(self, i: usize) -> int {
        if self.scrolls.contains_key(i) {
            self.scrolls[i] as int
        } else {
            0
        }
    }

    /// Whether the links are a document with not too many nodes.
    pub open spec fn sane(self) -> bool {
        is_document(self.links) && self.links.len() <= MAX_NODES
    }

    /// Left edge of node `i`.
    pub open spec fn left(self, i: usize) -> int
        decreases depth(self.links, i as int),
        when is_document(self.links) && i < self.links.len()
    {
        proof {
            lemma_parent_depth(self.links, i as int);
        }
        self.cell(i).x + (match self.links[i as int].parent {
            Some(p) => self.left(p),
            None => 0,
        })
    }

    /// Top of node `i`, where the document starts at zero.
    pub open spec fn top(self, i: usize) -> int
        decreases depth(self.links, i as int),
        when is_document(self.links) && i < self.links.len()
    {
        proof {
            lemma_parent_depth(self.links, i as int);
        }
        self.cell(i).y + (match self.links[i as int].parent {
            Some(p) => self.top(p) - self.scroll(p),
            None => 0,
        })
    }

    /// Whether a point lies on node `i`, its edges included.
    pub open spec fn on(self, i: usize, x: int, y: int) -> bool {
        &&& self.left(i) <= x <= self.left(i) + self.cell(i).width
        &&& self.top(i) <= y <= self.top(i) + self.cell(i).height
    }

    /// The node that a point hits in the subtree of node `i`: what it hits in
    /// the first child in which it hits something, or else the node itself.
    pub open spec fn hit(self, i: usize, x: int, y: int) -> Option<usize>
        decreases self.links.len() - depth(self.links, i as int), 1nat, 0nat,
        when is_document(self.links) && i < self.links.len()
    {
        proof {
            lemma_parent_depth(self.links, i as int);
        }
        if !self.on(i, x, y) {
            None
        } else {
            match self.hit_child(i, 0, x, y) {
                Some(c) => Some(c),
                None => Some(i),
            }
        }
    }

    /// What a point hits in the children of node `i` from the `k`-th on.
    pub open spec fn hit_child(self, i: usize, k: nat, x: int, y: int) -> Option<usize>
        decreases
                self.links.len() - depth(self.links, i as int),
                0nat,
                self.links[i as int].children.len() - k,
        when is_document(self.links) && i < self.links.len()
    {
        proof {
            lemma_parent_depth(self.links, i as int);
            if k < self.links[i as int].children.len() {
                lemma_child_depth(self.links, i as int, k as int);
            }
        }
        if k >= self.links[i as int].children.len() {
            None
        } else {
            match self.hit(self.links[i as int].children[k as int], x, y) {
                Some(c) => Some(c),
                None => self.hit_child(i, k + 1, x, y),
            }
        }
    }

    /// Where node `i` is on screen, below the chrome and scrolled.
    pub open spec fn screen_rect(self, i: usize, root_scroll: int, chrome_height: int) -> Rect {
        let top = self.top(i) + chrome_height - root_scroll;
        Rect {
            x0: self.left(i) as i64,
            y0: top as i64,
            x1: (self.left(i) + self.cell(i).width) as i64,
            y1: (top + self.cell(i).height) as i64,
        }
    }

    /// Whether the edges of node `i` on screen can be given.
    pub open spec fn fits_screen(self, i: usize, root_scroll: int, chrome_height: int) -> bool {
        let top = self.top(i) + chrome_height - root_scroll;
        &&& i64::MIN <= self.left(i) <= i64::MAX
        &&& i64::MIN <= self.left(i) + self.cell(i).width <= i64::MAX
        &&& i64::MIN <= top <= i64::MAX
        &&& i64::MIN <= top + self.cell(i).height <= i64::MAX
    }

    /// No place is further away than depth allows.
    proof fn lemma_bounded(self, i: usize)
        requires
            self.sane(),
            i < self.links.len(),
        ensures
            -(depth(self.links, i as int) + 1) * 0x8000_0000_0000_0000 <= self.left(i) <= (depth(
                self.links,
                i as int,
            ) + 1) * 0x8000_0000_0000_0000,
            -(depth(self.links, i as int) + 1) * 0x1_0000_0000_0000_0000 <= self.top(i) <= (depth(
                self.links,
                i as int,
            ) + 1) * 0x1_0000_0000_0000_0000,
            depth(self.links, i as int) <= MAX_NODES,
        decreases depth(self.links, i as int),
    {
        lemma_parent_depth(self.links, i as int);
        if let Some(p) = self.links[i as int].parent {
            self.lemma_bounded(p);
        }
    }
}

/// The box of node `i`.
fn box_of(boxes: &HashMap<usize, LayoutBox>, i: usize) -> (b: LayoutBox)
    ensures
        b == (if boxes@.contains_key(i) {
            boxes@[i]
        } else {
            (LayoutBox { x: 0, y: 0, width: 0, height: 0 })
        }),
{
    broadcast use vstd::std_specs::hash::group_hash_axioms;

    match boxes.get(&i) {
        Some(b) => *b,
        None => LayoutBox { x: 0, y: 0, width: 0, height: 0 },
    }
}

/// How far node `i` is scrolled.
fn scroll_of(scrolls: &HashMap<usize, i64>, i: usize) -> (s: i64)
    ensures
        s == (if scrolls@.contains_key(i) {
            scrolls@[i] as int
        } else {
            0
        }),
{
    broadcast use vstd::std_specs::hash::group_hash_axioms;

    match scrolls.get(&i) {
        Some(s) => *s,
        None => 0,
    }
}

/// What a hit test goes by.
pub struct HitTestContext<'a> {
    pub dom: &'a Dom<'a>,
    pub boxes: &'a HashMap<usize, LayoutBox>,
    pub scroll_offsets: &'a HashMap<usize, i64>,
    pub mouse_x: i64,
    pub mouse_y: i64,
}

impl<'a> HitTestContext<'a> {
    /// The laid-out document.
    pub open spec fn layout(&self) -> Layout {
        Layout {
            links: self.dom.links(),
            boxes: self.boxes@,
            scrolls: self.scroll_offsets@,
        }
    }

    /// The node under the pointer in the subtree of node `i`, whose parent puts
    /// its contents at an offset.
    fn hit_test_node(&self, i: usize, offset_x: i128, offset_y: i128) -> (r: Option<usize>)
        requires
            self.layout().sane(),
            i < self.dom.links().len(),
            offset_x == self.layout().left(i) - self.layout().cell(i).x,
            offset_y == self.layout().top(i) - self.layout().cell(i).y,
        ensures
            r == self.layout().hit(i, self.mouse_x as int, self.mouse_y as int),
        decreases self.dom.links().len() - depth(self.dom.links(), i as int),
    {
        let ghost l = self.layout();
        proof {
            l.lemma_bounded(i);
        }
        let cell = box_of(self.boxes, i);
        let left: i128 = offset_x + cell.x as i128;
        let top: i128 = offset_y + cell.y as i128;
        let x: i128 = self.mouse_x as i128;
        let y: i128 = self.mouse_y as i128;
        let inside = x >= left && x <= left + cell.width as i128 && y >= top && y <= top
            + cell.height as i128;
        if !inside {
            return None;
        }
        let scroll = scroll_of(self.scroll_offsets, i);
        let children = self.dom.children(i);
        let mut k: usize = 0;
        while k < children.len()
            invariant
                l == self.layout(),
                l.sane(),
                i < l.links.len(),
                children@ == l.links[i as int].children,
                k <= children@.len(),
                left == l.left(i),
                top == l.top(i),
                scroll == l.scroll(i),
                -0x4000_0000_0000_0000_0000_0000_0000_0000 <= top
                    <= 0x4000_0000_0000_0000_0000_0000_0000_0000,
                l.hit_child(i, 0, self.mouse_x as int, self.mouse_y as int) == l.hit_child(
                    i,
                    k as nat,
                    self.mouse_x as int,
                    self.mouse_y as int,
                ),
                l.on(i, self.mouse_x as int, self.mouse_y as int),
            decreases children.len() - k,
        {
            let c = children[k];
            proof {
                lemma_child_depth(l.links, i as int, k as int);
                assert(crate::dom::knows_parent(
                    l.links,
                    l.links[i as int].children[k as int],
                    i as int,
                ));
            }
            let hit = self.hit_test_node(c, left, top - scroll as i128);
            if hit.is_some() {
                return hit;
            }
            k += 1;
        }
        Some(i)
    }
}

/// The deepest node under the pointer.
pub fn hit_test(
    dom: &Dom<'_>,
    boxes: &HashMap<usize, LayoutBox>,
    scroll_offsets: &HashMap<usize, i64>,
    mouse_x: i64,
    mouse_y: i64,
) -> (r: Option<usize>)
    requires
        (Layout { links: dom.links(), boxes: boxes@, scrolls: scroll_offsets@ }).sane(),
    ensures
        r == (Layout { links: dom.links(), boxes: boxes@, scrolls: scroll_offsets@ }).hit(
            0,
            mouse_x as int,
            mouse_y as int,
        ),
{
    let ctx = HitTestContext { dom, boxes, scroll_offsets, mouse_x, mouse_y };
    ctx.hit_test_node(0, 0, 0)
}

/// Where a node is on screen; none where it has no box.
pub fn node_screen_rect(
    dom: &Dom<'_>,
    boxes: &HashMap<usize, LayoutBox>,
    scroll_offsets: &HashMap<usize, i64>,
    root_scroll_offset_y: i64,
    chrome_height: i64,
    node: usize,
) -> (r: Option<Rect>)
    requires
        (Layout { links: dom.links(), boxes: boxes@, scrolls: scroll_offsets@ }).sane(),
        boxes@.contains_key(node) && node < dom.links().len() ==> (Layout {
            links: dom.links(),
            boxes: boxes@,
            scrolls: scroll_offsets@,
        }).fits_screen(node, root_scroll_offset_y as int, chrome_height as int),
    ensures
        r == (if boxes@.contains_key(node) && node < dom.links().len() {
            Some(
                (Layout {
                    links: dom.links(),
                    boxes: boxes@,
                    scrolls: scroll_offsets@,
                }).screen_rect(node, root_scroll_offset_y as int, chrome_height as int),
            )
        } else {
            None
        }),
{
    broadcast use vstd::std_specs::hash::group_hash_axioms;

    let ghost l = Layout { links: dom.links(), boxes: boxes@, scrolls: scroll_offsets@ };
    let cell = match boxes.get(&node) {
        Some(b) => *b,
        None => {
            return None;
        },
    };
    if node >= dom.len() {
        return None;
    }
    let mut x: i128 = cell.x as i128;
    let mut y: i128 = cell.y as i128;
    let mut at: usize = node;
    proof {
        l.lemma_bounded(node);
    }
    let mut up = dom.parent(node);
    while up.is_some()
        invariant
            l == (Layout { links: dom.links(), boxes: boxes@, scrolls: scroll_offsets@ }),
            l.sane(),
            at < l.links.len(),
            node < l.links.len(),
            up == l.links[at as int].parent,
            l.left(node) == x + (match up {
                Some(p) => l.left(p),
                None => 0,
            }),
            l.top(node) == y + (match up {
                Some(p) => l.top(p) - l.scroll(p),
                None => 0,
            }),
            -(depth(l.links, node as int) + 1 - depth(l.links, at as int)) * 0x8000_0000_0000_0000
                <= x <= (depth(l.links, node as int) + 1 - depth(l.links, at as int))
                * 0x8000_0000_0000_0000,
            -(depth(l.links, node as int) + 1 - depth(l.links, at as int))
                * 0x1_0000_0000_0000_0000 <= y <= (depth(l.links, node as int) + 1 - depth(
                l.links,
                at as int,
            )) * 0x1_0000_0000_0000_0000,
            depth(l.links, at as int) <= depth(l.links, node as int) <= MAX_NODES,
        decreases depth(l.links, at as int),
    {
        if let Some(p) = up {
            proof {
                lemma_parent_depth(l.links, at as int);
            }
            let above = box_of(boxes, p);
            let scroll = scroll_of(scroll_offsets, p);
            x = x + above.x as i128;
            y = y + above.y as i128 - scroll as i128;
            at = p;
            up = dom.parent(p);
        }
    }
    let top: i128 = y + chrome_height as i128 - root_scroll_offset_y as i128;
    Some(
        Rect {
            x0: x as i64,
            y0: top as i64,
            x1: (x + cell.width as i128) as i64,
            y1: (top + cell.height as i128) as i64,
        },
    )
}

proof fn lemma_hit(l: Layout, i: usize, x: int, y: int, r: usize)
    requires
        is_document(l.links),
        i < l.links.len(),
        l.hit(i, x, y) == Some(r),
    ensures
        r < l.links.len(),
        l.on(r, x, y),
        l.hit_child(r, 0, x, y) is None,
        within(l.links, r, i),
    decreases l.links.len() - depth(l.links, i as int), 1nat, 0nat,
{
    lemma_parent_depth(l.links, i as int);
    if l.hit_child(i, 0, x, y) is Some {
        lemma_hit_child(l, i, 0, x, y, r);
    }
}

proof fn lemma_hit_child(l: Layout, i: usize, k: nat, x: int, y: int, r: usize)
    requires
        is_document(l.links),
        i < l.links.len(),
        l.hit_child(i, k, x, y) == Some(r),
    ensures
        r < l.links.len(),
        l.on(r, x, y),
        l.hit_child(r, 0, x, y) is None,
        within(l.links, r, i),
    decreases
            l.links.len() - depth(l.links, i as int),
            0nat,
            l.links[i as int].children.len() - k,
{
    lemma_parent_depth(l.links, i as int);
    if k < l.links[i as int].children.len() {
        lemma_child_depth(l.links, i as int, k as int);
        let c = l.links[i as int].children[k as int];
        assert(crate::dom::knows_parent(l.links, c, i as int));
        if l.hit(c, x, y) is Some {
            lemma_hit(l, c, x, y, r);
            lemma_within_parent(l.links, r, i, k as int);
        } else {
            lemma_hit_child(l, i, k + 1, x, y, r);
        }
    }
}

/// What is hit lies under the pointer, and nothing in it does: it is the
/// deepest node on its way down.
pub proof fn law_the_deepest_node_is_hit(l: Layout, x: int, y: int, r: usize)
    requires
        is_document(l.links),
        l.hit(0, x, y) == Some(r),
    ensures
        r < l.links.len(),
        within(l.links, r, 0),
        l.on(r, x, y),
        forall|k: int|
            0 <= k < l.links[r as int].children.len() ==> l.hit(
                #[trigger] l.links[r as int].children[k],
                x,
                y,
            ) is None,
{
    lemma_hit(l, 0, x, y, r);
    assert forall|k: int| 0 <= k < l.links[r as int].children.len() implies l.hit(
        #[trigger] l.links[r as int].children[k],
        x,
        y,
    ) is None by {
        lemma_no_child_hit(l, r, 0, k, x, y);
    }
}

proof fn lemma_no_child_hit(l: Layout, i: usize, k: nat, j: int, x: int, y: int)
    requires
        is_document(l.links),
        i < l.links.len(),
        k <= j < l.links[i as int].children.len(),
        l.hit_child(i, k, x, y) is None,
    ensures
        l.hit(l.links[i as int].children[j], x, y) is None,
    decreases j - k,
{
    lemma_parent_depth(l.links, i as int);
    lemma_child_depth(l.links, i as int, k as int);
    if k < j {
        lemma_no_child_hit(l, i, k + 1, j, x, y);
    }
}

/// The highlight of the node that is hit lies under the pointer.
pub proof fn law_the_highlight_covers_what_is_hit(
    l: Layout,
    x: int,
    y: int,
    r: usize,
    root_scroll: int,
    chrome_height: int,
)
    requires
        is_document(l.links),
        l.hit(0, x, y) == Some(r),
        l.fits_screen(r, root_scroll, chrome_height),
    ensures
        ({
            let rect = l.screen_rect(r, root_scroll, chrome_height);
            let on_screen = y + chrome_height - root_scroll;
            rect.x0 <= x <= rect.x1 && rect.y0 <= on_screen <= rect.y1
        }),
{
    lemma_hit(l, 0, x, y, r);
}

/// Nothing is hit outside the root.
pub proof fn law_nothing_is_hit_outside(l: Layout, x: int, y: int)
    requires
        is_document(l.links),
    ensures
        l.hit(0, x, y) is None <==> !l.on(0, x, y),
{
    lemma_parent_depth(l.links, 0);
}

/// A box is placed from the corner of its parent's box, less how far the parent
/// is scrolled; the root from the corner of the page.
pub proof fn law_boxes_are_placed_in_their_parent(l: Layout, i: usize)
    requires
        is_document(l.links),
        i < l.links.len(),
    ensures
        ({
            let x = if l.boxes.contains_key(i) {
                l.boxes[i].x as int
            } else {
                0
            };
            let y = if l.boxes.contains_key(i) {
                l.boxes[i].y as int
            } else {
                0
            };
            match l.links[i as int].parent {
                None => l.left(i) == x && l.top(i) == y,
                Some(p) => {
                    &&& l.left(i) - l.left(p) == x
                    &&& l.scrolls.contains_key(p) ==> l.top(i) - l.top(p) == y - l.scrolls[p]
                    &&& !l.scrolls.contains_key(p) ==> l.top(i) - l.top(p) == y
                },
            }
        }),
{
    lemma_parent_depth(l.links, i as int);
}

/// A point is on a box from edge to edge, both included; a node without a box
/// is a point.
pub proof fn law_boxes_reach_from_edge_to_edge(l: Layout, i: usize, x: int, y: int)
    ensures
        l.boxes.contains_key(i) ==> (l.on(i, x, y) <==> l.left(i) <= x <= l.left(i)
            + l.boxes[i].width && l.top(i) <= y <= l.top(i) + l.boxes[i].height),
        !l.boxes.contains_key(i) ==> (l.on(i, x, y) <==> x == l.left(i) && y == l.top(i)),
{
}

proof fn lemma_passed_children(l: Layout, i: usize, j: nat, k: int, x: int, y: int)
    requires
        is_document(l.links),
        i < l.links.len(),
        j <= k < l.links[i as int].children.len(),
        forall|m: int| j <= m < k ==> l.hit(#[trigger] l.links[i as int].children[m], x, y) is None,
    ensures
        l.hit_child(i, j, x, y) == l.hit_child(i, k as nat, x, y),
    decreases k - j,
{
    if j < k {
        assert(l.hit(l.links[i as int].children[j as int], x, y) is None);
        lemma_passed_children(l, i, j + 1, k, x, y);
    }
}

/// Of several children under the pointer the first is hit, and in it what it
/// holds there; a node that is not under the pointer is not hit, nor is what it
/// holds.
pub proof fn law_the_first_child_is_hit(l: Layout, i: usize, k: int, x: int, y: int)
    requires
        is_document(l.links),
        i < l.links.len(),
    ensures
        !l.on(i, x, y) ==> l.hit(i, x, y) is None,
        l.on(i, x, y) && 0 <= k < l.links[i as int].children.len() && l.hit(
            l.links[i as int].children[k],
            x,
            y,
        ) is Some && (forall|m: int|
            0 <= m < k ==> l.hit(#[trigger] l.links[i as int].children[m], x, y) is None) ==> l.hit(
            i,
            x,
            y,
        ) == l.hit(l.links[i as int].children[k], x, y),
{
    if l.on(i, x, y) && 0 <= k < l.links[i as int].children.len() && (forall|m: int|
        0 <= m < k ==> l.hit(#[trigger] l.links[i as int].children[m], x, y) is None) {
        lemma_passed_children(l, i, 0, k, x, y);
    }
}

/// The highlight of a node is its box, moved below the bar and up by how far the
/// page is scrolled.
pub proof fn law_the_highlight_is_the_box_on_screen(
    l: Layout,
    i: usize,
    root_scroll: int,
    chrome_height: int,
)
    requires
        l.fits_screen(i, root_scroll, chrome_height),
        l.boxes.contains_key(i),
    ensures
        ({
            let r = l.screen_rect(i, root_scroll, chrome_height);
            &&& r.x0 == l.left(i)
            &&& r.y0 == l.top(i) + chrome_height - root_scroll
            &&& r.x1 - r.x0 == l.boxes[i].width
            &&& r.y1 - r.y0 == l.boxes[i].height
        }),
{
}

/// A hit is looked for in the document, the boxes and the offsets that were
/// given.
pub proof fn law_the_given_layout_is_searched(ctx: HitTestContext<'_>)
    ensures
        ctx.layout().links == ctx.dom.links(),
        ctx.layout().boxes == ctx.boxes@,
        ctx.layout().scrolls == ctx.scroll_offsets@,
{
}

} // verus!
