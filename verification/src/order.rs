//! Ordering of lists by insertion.

use vstd::prelude::*;

verus! {

/// A list with one more item, behind the last of those that may stand before
/// it.
pub open spec fn placed<T>(list: Seq<T>, x: T, before: spec_fn(T, T) -> bool) -> Seq<T>
    decreases list.len(),
{
    if list.len() == 0 {
        seq![x]
    } else if before(list.last(), x) {
        list.push(x)
    } else {
        placed(list.drop_last(), x, before).push(list.last())
    }
}

/// A list in order; items that may stand either way keep their order.
pub open spec fn ordered<T>(items: Seq<T>, before: spec_fn(T, T) -> bool) -> Seq<T>
    decreases items.len(),
{
    if items.len() == 0 {
        Seq::empty()
    } else {
        placed(ordered(items.drop_last(), before), items.last(), before)
    }
}

/// Placing an item is inserting it behind the last item that may stand before
/// it.
pub proof fn lemma_placed_is_insert<T>(
    list: Seq<T>,
    x: T,
    before: spec_fn(T, T) -> bool,
    k: int,
)
    requires
        0 <= k <= list.len(),
        k > 0 ==> before(list[k - 1], x),
        forall|j: int| k <= j < list.len() ==> !before(#[trigger] list[j], x),
    ensures
        placed(list, x, before) == list.insert(k, x),
    decreases list.len(),
{
    if list.len() == 0 {
        assert(list.insert(0, x) =~= seq![x]);
    } else if k == list.len() {
        assert(list.insert(k, x) =~= list.push(x));
    } else {
        assert(!before(list[list.len() - 1], x));
        let init = list.drop_last();
        lemma_placed_is_insert(init, x, before, k);
        assert(init.insert(k, x).push(list.last()) =~= list.insert(k, x));
    }
}

/// A relation by which a list can be put in order: transitive and total.
pub open spec fn is_order<T>(before: spec_fn(T, T) -> bool) -> bool {
    &&& forall|a: T, b: T| #[trigger] before(a, b) || before(b, a)
    &&& forall|a: T, b: T, c: T|
        #![trigger before(a, b), before(b, c)]
        before(a, b) && before(b, c) ==> before(a, c)
}

/// Whether every item may stand before those behind it.
pub open spec fn in_order<T>(list: Seq<T>, before: spec_fn(T, T) -> bool) -> bool {
    forall|i: int, j: int| 0 <= i < j < list.len()
        ==> before(#[trigger] list[i], #[trigger] list[j])
}

proof fn lemma_placed<T>(list: Seq<T>, x: T, before: spec_fn(T, T) -> bool)
    requires
        is_order(before),
        in_order(list, before),
    ensures
        in_order(placed(list, x, before), before),
        placed(list, x, before).to_multiset() == list.to_multiset().insert(x),
        placed(list, x, before).len() == list.len() + 1,
    decreases list.len(),
{
    broadcast use vstd::seq_lib::group_to_multiset_ensures;

    if list.len() == 0 {
        assert(seq![x] =~= list.push(x));
    } else if before(list.last(), x) {
        let r = list.push(x);
        assert forall|i: int, j: int| 0 <= i < j < r.len() implies before(
            #[trigger] r[i],
            #[trigger] r[j],
        ) by {
            if j == list.len() && i < list.len() - 1 {
                assert(before(list[i], list[list.len() - 1]));
            }
        }
    } else {
        let init = list.drop_last();
        assert(in_order(init, before)) by {
            assert forall|i: int, j: int| 0 <= i < j < init.len() implies before(
                #[trigger] init[i],
                #[trigger] init[j],
            ) by {
                assert(before(list[i], list[j]));
            }
        }
        lemma_placed(init, x, before);
        let p = placed(init, x, before);
        let r = p.push(list.last());
        assert(before(x, list.last()));
        assert forall|i: int| 0 <= i < p.len() implies before(#[trigger] p[i], list.last()) by {
            assert(p.contains(p[i]));
            assert(p.to_multiset().count(p[i]) > 0);
            assert(init.to_multiset().insert(x).count(p[i]) > 0);
            if p[i] != x {
                assert(init.to_multiset().count(p[i]) > 0);
                assert(init.contains(p[i]));
                let w = choose|w: int| 0 <= w < init.len() && init[w] == p[i];
                assert(before(list[w], list[list.len() - 1]));
            }
        }
        assert forall|i: int, j: int| 0 <= i < j < r.len() implies before(
            #[trigger] r[i],
            #[trigger] r[j],
        ) by {
            if j < p.len() {
                assert(before(p[i], p[j]));
            }
        }
        assert(list =~= init.push(list.last()));
        assert(r.to_multiset() =~= list.to_multiset().insert(x));
    }
}

/// An ordered list is in order and has the same items.
pub proof fn law_ordered<T>(items: Seq<T>, before: spec_fn(T, T) -> bool)
    requires
        is_order(before),
    ensures
        in_order(ordered(items, before), before),
        ordered(items, before).to_multiset() == items.to_multiset(),
        ordered(items, before).len() == items.len(),
    decreases items.len(),
{
    broadcast use vstd::seq_lib::group_to_multiset_ensures;

    if items.len() > 0 {
        let init = items.drop_last();
        law_ordered(init, before);
        lemma_placed(ordered(init, before), items.last(), before);
        assert(items =~= init.push(items.last()));
    } else {
        assert(items =~= Seq::<T>::empty());
    }
}

} // verus!
