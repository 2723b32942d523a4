//! Filtering and ordering of sequences.

use vstd::prelude::*;
use vstd::seq_lib::group_to_multiset_ensures;

verus! {

/// The items that satisfy `f`, in order.
pub open spec fn survivors<T>(items: Seq<T>, f: spec_fn(T) -> bool) -> Seq<T>
    decreases items.len(),
{
    if items.len() == 0 {
        Seq::empty()
    } else {
        let head = survivors(items.drop_last(), f);
        if f(items.last()) {
            head.push(items.last())
        } else {
            head
        }
    }
}

/// The items whose flag is set.
pub open spec fn masked<T>(items: Seq<T>, keep: Seq<bool>) -> Seq<T>
    decreases items.len(),
{
    if items.len() == 0 {
        Seq::empty()
    } else {
        let head = masked(items.drop_last(), keep);
        if keep[items.len() - 1] {
            head.push(items.last())
        } else {
            head
        }
    }
}

/// The items at the given places.
pub open spec fn picked<T>(items: Seq<T>, places: Seq<usize>) -> Seq<T> {
    Seq::new(places.len(), |i: int| items[places[i] as int])
}

/// `item` put into an ordered sequence, behind its equals.
pub open spec fn placed<T>(l: Seq<T>, item: T, before: spec_fn(T, T) -> bool) -> Seq<T>
    decreases l.len(),
{
    if l.len() > 0 && before(item, l.last()) {
        placed(l.drop_last(), item, before).push(l.last())
    } else {
        l.push(item)
    }
}

/// The items in order; equals stay as they stood.
pub open spec fn ordered<T>(items: Seq<T>, before: spec_fn(T, T) -> bool) -> Seq<T>
    decreases items.len(),
{
    if items.len() == 0 {
        Seq::empty()
    } else {
        placed(ordered(items.drop_last(), before), items.last(), before)
    }
}

/// No item stands behind one that it comes before.
pub open spec fn in_order<T>(l: Seq<T>, before: spec_fn(T, T) -> bool) -> bool {
    forall|i: int, j: int| 0 <= i < j < l.len() ==> !before(#[trigger] l[j], #[trigger] l[i])
}

/// `before` compares by some rank.
pub open spec fn is_ranking<T>(before: spec_fn(T, T) -> bool) -> bool {
    &&& forall|a: T, b: T| #[trigger] before(a, b) ==> !before(b, a)
    &&& forall|a: T, b: T, c: T|
        !(#[trigger] before(a, b)) && !(#[trigger] before(b, c)) ==> !before(a, c)
}

pub proof fn lemma_masked_is_survivors<T>(items: Seq<T>, keep: Seq<bool>, f: spec_fn(T) -> bool)
    requires
        keep.len() >= items.len(),
        forall|i: int| 0 <= i < items.len() ==> keep[i] == f(#[trigger] items[i]),
    ensures
        masked(items, keep) == survivors(items, f),
    decreases items.len(),
{
    if items.len() > 0 {
        let head = items.drop_last();
        assert forall|i: int| 0 <= i < head.len() implies keep[i] == f(#[trigger] head[i]) by {
            assert(head[i] == items[i]);
        }
        lemma_masked_is_survivors(head, keep, f);
        assert(keep[items.len() - 1] == f(items[items.len() - 1]));
    }
}

/// Survivors come from the items, and every item that satisfies `f` survives.
pub proof fn lemma_survivors<T>(items: Seq<T>, f: spec_fn(T) -> bool)
    ensures
        survivors(items, f).len() <= items.len(),
        forall|i: int|
            0 <= i < survivors(items, f).len() ==> f(#[trigger] survivors(items, f)[i])
                && items.contains(survivors(items, f)[i]),
        forall|i: int|
            0 <= i < items.len() && f(#[trigger] items[i]) ==> survivors(items, f).contains(
                items[i],
            ),
    decreases items.len(),
{
    if items.len() > 0 {
        let head = items.drop_last();
        let s = survivors(head, f);
        lemma_survivors(head, f);
        let t = survivors(items, f);
        assert forall|i: int| 0 <= i < t.len() implies f(#[trigger] t[i]) && items.contains(
            t[i],
        ) by {
            if i < s.len() {
                assert(t[i] == s[i]);
                let k = choose|k: int| 0 <= k < head.len() && head[k] == s[i];
                assert(items[k] == t[i]);
            } else {
                assert(items[items.len() - 1] == t[i]);
            }
        }
        assert forall|i: int| 0 <= i < items.len() && f(#[trigger] items[i]) implies t.contains(
            items[i],
        ) by {
            if i < head.len() {
                assert(head[i] == items[i]);
                assert(s.contains(head[i]));
                let k = choose|k: int| 0 <= k < s.len() && s[k] == head[i];
                assert(t[k] == items[i]);
            } else {
                assert(t[t.len() - 1] == items[i]);
            }
        }
    }
}

/// Where every item satisfies `f`, nothing is left out.
pub proof fn lemma_all_survive<T>(items: Seq<T>, f: spec_fn(T) -> bool)
    requires
        forall|i: int| 0 <= i < items.len() ==> f(#[trigger] items[i]),
    ensures
        survivors(items, f) == items,
    decreases items.len(),
{
    if items.len() > 0 {
        let init = items.drop_last();
        assert forall|i: int| 0 <= i < init.len() implies f(#[trigger] init[i]) by {
            assert(init[i] == items[i]);
        }
        lemma_all_survive(init, f);
        assert(f(items[items.len() - 1]));
        assert(init.push(items.last()) == items);
    }
}

/// Where an item goes in an ordered sequence: in front of the run at its end
/// that it comes before.
pub proof fn lemma_placed_at<T>(l: Seq<T>, item: T, before: spec_fn(T, T) -> bool, k: int)
    requires
        0 <= k <= l.len(),
        forall|j: int| k <= j < l.len() ==> before(item, #[trigger] l[j]),
        k > 0 ==> !before(item, l[k - 1]),
    ensures
        placed(l, item, before) == l.insert(k, item),
    decreases l.len(),
{
    if k < l.len() {
        let init = l.drop_last();
        assert forall|j: int| k <= j < init.len() implies before(item, #[trigger] init[j]) by {
            assert(init[j] == l[j]);
        }
        assert(before(item, l[l.len() - 1]));
        lemma_placed_at(init, item, before, k);
        assert(init.insert(k, item).push(l.last()) == l.insert(k, item));
    } else {
        assert(l.insert(k, item) == l.push(item));
    }
}

proof fn lemma_placed_len<T>(l: Seq<T>, item: T, before: spec_fn(T, T) -> bool)
    ensures
        placed(l, item, before).len() == l.len() + 1,
    decreases l.len(),
{
    if l.len() > 0 && before(item, l.last()) {
        lemma_placed_len(l.drop_last(), item, before);
    }
}

pub proof fn lemma_ordered_len<T>(items: Seq<T>, before: spec_fn(T, T) -> bool)
    ensures
        ordered(items, before).len() == items.len(),
    decreases items.len(),
{
    if items.len() > 0 {
        lemma_ordered_len(items.drop_last(), before);
        lemma_placed_len(ordered(items.drop_last(), before), items.last(), before);
    }
}

proof fn lemma_placed_in_order<T>(l: Seq<T>, item: T, before: spec_fn(T, T) -> bool)
    requires
        is_ranking(before),
        in_order(l, before),
    ensures
        in_order(placed(l, item, before), before),
        placed(l, item, before).to_multiset() == l.to_multiset().insert(item),
    decreases l.len(),
{
    broadcast use group_to_multiset_ensures;

    if l.len() > 0 && before(item, l.last()) {
        let init = l.drop_last();
        let last = l.last();
        lemma_placed_in_order(init, item, before);
        let p = placed(init, item, before);
        assert(init.push(last) == l);
        assert(l.to_multiset() == init.to_multiset().insert(last));
        assert forall|i: int| 0 <= i < p.len() implies !before(last, #[trigger] p[i]) by {
            assert(p.to_multiset().count(p[i]) > 0) by {
                assert(p.contains(p[i]));
            }
            if p[i] != item {
                assert(init.to_multiset().count(p[i]) > 0);
                assert(init.contains(p[i]));
                let k = choose|k: int| 0 <= k < init.len() && init[k] == p[i];
                assert(l[k] == p[i]);
                assert(!before(l[l.len() - 1], l[k]));
            }
        }
        assert(placed(l, item, before) == p.push(last));
        assert(p.push(last).to_multiset() == p.to_multiset().insert(last));
        assert(l.to_multiset().insert(item) =~= p.to_multiset().insert(last));
    } else {
        assert(placed(l, item, before) == l.push(item));
        let p = l.push(item);
        assert forall|i: int, j: int| 0 <= i < j < p.len() implies !before(
            #[trigger] p[j],
            #[trigger] p[i],
        ) by {
            if j == l.len() {
                if i < l.len() - 1 {
                    assert(!before(l[l.len() - 1], l[i]));
                    assert(!before(item, l[l.len() - 1]));
                }
            } else {
                assert(!before(l[j], l[i]));
            }
        }
    }
}

/// Ordering keeps the same items: it loses and invents none.
pub proof fn ordering_sorts<T>(items: Seq<T>, before: spec_fn(T, T) -> bool)
    requires
        is_ranking(before),
    ensures
        in_order(ordered(items, before), before),
        ordered(items, before).to_multiset() == items.to_multiset(),
        ordered(items, before).len() == items.len(),
    decreases items.len(),
{
    broadcast use group_to_multiset_ensures;

    if items.len() > 0 {
        let init = items.drop_last();
        ordering_sorts(init, before);
        lemma_placed_in_order(ordered(init, before), items.last(), before);
        lemma_placed_len(ordered(init, before), items.last(), before);
        assert(init.push(items.last()) == items);
    } else {
        assert(ordered(items, before) == items);
    }
}

/// An item stands in the ordered sequence exactly where it is an item.
pub proof fn lemma_ordered_contains<T>(items: Seq<T>, before: spec_fn(T, T) -> bool, item: T)
    requires
        is_ranking(before),
    ensures
        ordered(items, before).contains(item) <==> items.contains(item),
{
    broadcast use group_to_multiset_ensures;

    ordering_sorts(items, before);
    let l = ordered(items, before);
    assert(l.contains(item) <==> l.to_multiset().count(item) > 0);
    assert(items.contains(item) <==> items.to_multiset().count(item) > 0);
}

/// Conditions that agree on every item keep the same items.
pub proof fn lemma_same_survivors<T>(items: Seq<T>, f: spec_fn(T) -> bool, g: spec_fn(T) -> bool)
    requires
        forall|i: int| 0 <= i < items.len() ==> (f(#[trigger] items[i]) <==> g(items[i])),
    ensures
        survivors(items, f) == survivors(items, g),
    decreases items.len(),
{
    if items.len() > 0 {
        let init = items.drop_last();
        assert forall|i: int| 0 <= i < init.len() implies (f(#[trigger] init[i]) <==> g(
            init[i],
        )) by {
            assert(init[i] == items[i]);
        }
        lemma_same_survivors(init, f, g);
        assert(f(items[items.len() - 1]) <==> g(items[items.len() - 1]));
    }
}

} // verus!
