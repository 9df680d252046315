//! Sorting by name.

use vstd::prelude::*;

use crate::text::{chars_of, text_views};

verus! {

/// Whether `a` comes before `b` in the order of their characters.
pub open spec fn before(a: Seq<char>, b: Seq<char>) -> bool
    decreases a.len(),
{
    if b.len() == 0 {
        false
    } else if a.len() == 0 {
        true
    } else {
        a[0] < b[0] || (a[0] == b[0] && before(a.drop_first(), b.drop_first()))
    }
}

/// Where `i` goes among `order`, positions of names that are sorted: behind
/// all those that it does not come before.
pub open spec fn placed(order: Seq<int>, names: Seq<Seq<char>>, i: int) -> Seq<int>
    decreases order.len(),
{
    if order.len() > 0 && before(names[i], names[order.last()]) {
        placed(order.drop_last(), names, i).push(order.last())
    } else {
        order.push(i)
    }
}

/// The positions of the first `n` names, sorted by name; equal names keep
/// their order.
pub open spec fn order_of(names: Seq<Seq<char>>, n: nat) -> Seq<int>
    decreases n,
{
    if n == 0 {
        Seq::empty()
    } else {
        placed(order_of(names, (n - 1) as nat), names, n - 1)
    }
}

/// The positions of the names, sorted by name.
pub open spec fn name_order(names: Seq<Seq<char>>) -> Seq<int> {
    order_of(names, names.len())
}

/// Of two different names, one comes before the other, and only one.
pub proof fn lemma_before_total(a: Seq<char>, b: Seq<char>)
    ensures
        !(before(a, b) && before(b, a)),
        !before(a, b) && !before(b, a) ==> a == b,
    decreases a.len(),
{
    if a.len() > 0 && b.len() > 0 {
        lemma_before_total(a.drop_first(), b.drop_first());
        if a[0] == b[0] && a.drop_first() == b.drop_first() {
            assert(a =~= seq![a[0]] + a.drop_first());
            assert(b =~= seq![b[0]] + b.drop_first());
        }
    } else if a.len() == 0 && b.len() == 0 {
        assert(a =~= b);
    }
}

proof fn lemma_before_transitive(a: Seq<char>, b: Seq<char>, c: Seq<char>)
    requires
        !before(b, a),
        !before(c, b),
    ensures
        !before(c, a),
    decreases a.len(),
{
    if a.len() > 0 && b.len() > 0 && c.len() > 0 {
        if !before(b.drop_first(), a.drop_first()) && !before(c.drop_first(), b.drop_first()) {
            lemma_before_transitive(a.drop_first(), b.drop_first(), c.drop_first());
        }
    }
}

/// Whether the names stand in order.
pub open spec fn in_order(order: Seq<int>, names: Seq<Seq<char>>) -> bool {
    forall|i: int, j: int|
        0 <= i <= j < order.len() ==> !before(
            names[#[trigger] order[j]],
            names[#[trigger] order[i]],
        )
}

proof fn lemma_placed(order: Seq<int>, names: Seq<Seq<char>>, i: int)
    requires
        in_order(order, names),
    ensures
        in_order(placed(order, names, i), names),
        placed(order, names, i).len() == order.len() + 1,
        placed(order, names, i).to_multiset() == order.push(i).to_multiset(),
        forall|k: int|
            0 <= k < placed(order, names, i).len() ==> (#[trigger] placed(order, names, i)[k]) == i
                || order.contains(placed(order, names, i)[k]),
    decreases order.len(),
{
    broadcast use vstd::seq_lib::group_to_multiset_ensures;

    lemma_before_total(names[i], names[i]);
    if order.len() > 0 && before(names[i], names[order.last()]) {
        let init = order.drop_last();
        assert(in_order(init, names));
        lemma_placed(init, names, i);
        let p = placed(init, names, i);
        let r = p.push(order.last());
        assert(init.push(order.last()) =~= order);
        assert forall|x: int, y: int| 0 <= x <= y < r.len() implies !before(
            names[#[trigger] r[y]],
            names[#[trigger] r[x]],
        ) by {
            lemma_before_total(names[order.last()], names[order.last()]);
            if y == r.len() - 1 && x < y {
                assert(r[x] == p[x]);
                if p[x] == i {
                    lemma_before_total(names[i], names[order.last()]);
                } else {
                    let k = choose|k: int| 0 <= k < init.len() && init[k] == p[x];
                    assert(order[k] == p[x]);
                    assert(order[order.len() - 1] == order.last());
                }
            } else if x < y {
                assert(r[x] == p[x] && r[y] == p[y]);
            }
        }
        assert(r.to_multiset() =~= order.push(i).to_multiset());
        assert forall|k: int| 0 <= k < r.len() implies #[trigger] r[k] == i || order.contains(
            r[k],
        ) by {
            if k < p.len() {
                assert(r[k] == p[k]);
                if p[k] != i {
                    let m = choose|m: int| 0 <= m < init.len() && init[m] == p[k];
                    assert(order[m] == p[k]);
                }
            } else {
                assert(order[order.len() - 1] == r[k]);
            }
        }
    } else {
        let r = order.push(i);
        assert forall|x: int, y: int| 0 <= x <= y < r.len() implies !before(
            names[#[trigger] r[y]],
            names[#[trigger] r[x]],
        ) by {
            if y == r.len() - 1 && x < y {
                assert(order[order.len() - 1] == order.last());
                assert(r[x] == order[x]);
                assert(!before(names[order.last()], names[order[x]]));
                lemma_before_transitive(names[order[x]], names[order.last()], names[i]);
            } else if x < y {
                assert(r[x] == order[x] && r[y] == order[y]);
            }
        }
        assert forall|k: int| 0 <= k < r.len() implies #[trigger] r[k] == i || order.contains(
            r[k],
        ) by {
            if k < order.len() {
                assert(order[k] == r[k]);
            }
        }
    }
}

/// Sorting by name puts the names in order, and is a rearrangement: every
/// position occurs exactly once.
pub proof fn law_sorting_orders_the_names(names: Seq<Seq<char>>, n: nat)
    requires
        n <= names.len(),
    ensures
        in_order(order_of(names, n), names),
        order_of(names, n).len() == n,
        order_of(names, n).to_multiset() == Seq::new(n, |i: int| i).to_multiset(),
        forall|k: int| 0 <= k < n ==> 0 <= #[trigger] order_of(names, n)[k] < n,
    decreases n,
{
    broadcast use vstd::seq_lib::group_to_multiset_ensures;

    if n > 0 {
        let m = (n - 1) as nat;
        law_sorting_orders_the_names(names, m);
        let prev = order_of(names, m);
        lemma_placed(prev, names, m as int);
        assert(Seq::new(n, |i: int| i) =~= Seq::new(m, |i: int| i).push(m as int));
        assert(order_of(names, n).to_multiset() =~= Seq::new(n, |i: int| i).to_multiset());
        assert forall|k: int| 0 <= k < n implies 0 <= #[trigger] order_of(names, n)[k] < n by {
            let v = order_of(names, n)[k];
            if v != m {
                let j = choose|j: int| 0 <= j < prev.len() && prev[j] == v;
                assert(0 <= prev[j] < m);
            }
        }
    } else {
        assert(Seq::new(n, |i: int| i) =~= Seq::<int>::empty());
    }
}

/// Whether `a` comes before `b`.
pub fn comes_before(a: &str, b: &str) -> (r: bool)
    ensures
        r == before(a@, b@),
{
    let x = chars_of(a);
    let y = chars_of(b);
    let mut i: usize = 0;
    proof {
        assert(a@.skip(0) =~= a@);
        assert(b@.skip(0) =~= b@);
    }
    loop
        invariant
            i <= x@.len(),
            i <= y@.len(),
            x@ == a@,
            y@ == b@,
            before(a@, b@) == before(a@.skip(i as int), b@.skip(i as int)),
        decreases x@.len() - i,
    {
        if i >= y.len() {
            return false;
        }
        if i >= x.len() {
            return true;
        }
        if x[i] < y[i] {
            return true;
        }
        if x[i] > y[i] {
            return false;
        }
        proof {
            assert(a@.skip(i as int).drop_first() =~= a@.skip(i + 1));
            assert(b@.skip(i as int).drop_first() =~= b@.skip(i + 1));
        }
        i += 1;
    }
}

/// The positions as mathematical integers.
pub open spec fn ints(v: Seq<usize>) -> Seq<int> {
    v.map_values(|i: usize| i as int)
}

/// The positions of the names, sorted by name; equal names keep their order.
pub fn sort_names(names: &Vec<String>) -> (order: Vec<usize>)
    ensures
        ints(order@) == name_order(text_views(names@)),
        order@.len() == names@.len(),
        forall|k: int| 0 <= k < order@.len() ==> (#[trigger] order@[k]) < names@.len(),
{
    let ghost texts = text_views(names@);
    let mut order: Vec<usize> = Vec::new();
    let mut i: usize = 0;
    proof {
        assert(ints(order@) =~= Seq::<int>::empty());
    }
    while i < names.len()
        invariant
            i <= names@.len(),
            texts == text_views(names@),
            ints(order@) == order_of(texts, i as nat),
            order@.len() == i,
            forall|k: int| 0 <= k < order@.len() ==> (#[trigger] order@[k]) < names@.len(),
        decreases names@.len() - i,
    {
        let ghost all = order@;
        let mut k: usize = order.len();
        let ghost mut tail = Seq::<int>::empty();
        proof {
            assert(ints(all).take(k as int) =~= ints(all));
            assert(placed(ints(all), texts, i as int) + tail =~= placed(ints(all), texts, i as int));
        }
        while k > 0 && comes_before(names[i].as_str(), names[order[k - 1]].as_str())
            invariant
                i < names@.len(),
                k <= order@.len(),
                order@ == all,
                texts == text_views(names@),
                forall|j: int| 0 <= j < order@.len() ==> (#[trigger] order@[j]) < names@.len(),
                tail == ints(all).skip(k as int),
                placed(ints(all), texts, i as int) == placed(
                    ints(all).take(k as int),
                    texts,
                    i as int,
                ) + tail,
            decreases k,
        {
            proof {
                let head = ints(all).take(k as int);
                assert(head.last() == order@[k - 1]);
                assert(head.drop_last() =~= ints(all).take(k - 1));
                assert(placed(head, texts, i as int) == placed(
                    head.drop_last(),
                    texts,
                    i as int,
                ).push(head.last()));
                assert(placed(head, texts, i as int) + tail =~= placed(
                    ints(all).take(k - 1),
                    texts,
                    i as int,
                ) + ints(all).skip(k - 1));
                tail = ints(all).skip(k - 1);
            }
            k -= 1;
        }
        proof {
            let head = ints(all).take(k as int);
            assert(placed(head, texts, i as int) == head.push(i as int)) by {
                if k > 0 {
                    assert(head.last() == order@[k - 1]);
                }
            }
        }
        order.insert(k, i);
        proof {
            assert(ints(order@) =~= ints(all).take(k as int).push(i as int) + ints(all).skip(
                k as int,
            ));
            assert forall|j: int| 0 <= j < order@.len() implies (#[trigger] order@[j])
                < names@.len() by {
                if j < k {
                    assert(order@[j] == all[j]);
                } else if j > k {
                    assert(order@[j] == all[j - 1]);
                }
            }
        }
        i += 1;
    }
    order
}

} // verus!
