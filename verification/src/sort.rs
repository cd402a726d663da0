//! Sorting that keeps the order of items that are alike.

use vstd::prelude::*;

verus! {

/// Items that can be put in order.
pub trait Ranked: Sized {
    /// Whether an item does not come after another.
    spec fn not_behind(self, other: Self) -> bool;

    /// Of two items, one does not come after the other.
    proof fn total(left: Self, right: Self)
        ensures
            left.not_behind(right) || right.not_behind(left),
    ;

    /// The order carries over.
    proof fn transitive(first: Self, second: Self, third: Self)
        requires
            first.not_behind(second),
            second.not_behind(third),
        ensures
            first.not_behind(third),
    ;

    /// Decides whether an item does not come after another.
    fn is_not_behind(&self, other: &Self) -> (yes: bool)
        ensures
            yes == self.not_behind(*other),
    ;
}

/// Whether no item comes before one that stands ahead of it.
pub open spec fn in_order<T: Ranked>(items: Seq<T>) -> bool {
    forall|left: int, right: int|
        0 <= left <= right < items.len() ==> (#[trigger] items[left]).not_behind(
            #[trigger] items[right],
        )
}

/// Whether two items have the same place in the order.
pub open spec fn alike<T: Ranked>(left: T, right: T) -> bool {
    left.not_behind(right) && right.not_behind(left)
}

/// The items that have the same place in the order as a given one.
pub open spec fn likes_of<T: Ranked>(items: Seq<T>, pivot: T) -> Seq<T> {
    items.filter(|item: T| alike(item, pivot))
}

/// Whether items are others put in order: items that are alike stay in the order
/// in which they stood, and none is lost or added.
pub open spec fn sorted_from<T: Ranked>(sorted: Seq<T>, items: Seq<T>) -> bool {
    &&& in_order(sorted)
    &&& sorted.len() == items.len()
    &&& forall|pivot: T| #[trigger] likes_of(sorted, pivot) == likes_of(items, pivot)
}

/// One more item is one of those alike, or not.
proof fn lemma_likes_push<T: Ranked>(items: Seq<T>, item: T, pivot: T)
    ensures
        likes_of(items.push(item), pivot) == if alike(item, pivot) {
            likes_of(items, pivot).push(item)
        } else {
            likes_of(items, pivot)
        },
{
    reveal(Seq::filter);
    assert(items.push(item).drop_last() == items);
}

/// An item goes behind those that it does not come before: what is alike keeps its
/// order.
proof fn lemma_insert<T: Ranked>(sorted: Seq<T>, item: T, at: int, pivot: T)
    requires
        0 <= at <= sorted.len(),
        forall|index: int| at <= index < sorted.len() ==> !(#[trigger] sorted[index]).not_behind(item),
    ensures
        likes_of(sorted.insert(at, item), pivot) == if alike(item, pivot) {
            likes_of(sorted, pivot).push(item)
        } else {
            likes_of(sorted, pivot)
        },
{
    let test = |other: T| alike(other, pivot);
    let head = sorted.take(at);
    let tail = sorted.skip(at);
    assert(sorted == head + tail);
    assert(sorted.insert(at, item) == head.push(item) + tail);
    Seq::filter_distributes_over_add(head.push(item), tail, test);
    Seq::filter_distributes_over_add(head, tail, test);
    lemma_likes_push(head, item, pivot);
    if alike(item, pivot) {
        assert forall|index: int| 0 <= index < tail.len() implies !test(#[trigger] tail[index]) by {
            assert(tail[index] == sorted[at + index]);
            if alike(tail[index], pivot) {
                T::transitive(tail[index], pivot, item);
            }
        }
        lemma_keeps_none(tail, test);
        assert(head.filter(test).push(item) + tail.filter(test) == (head.filter(test) + tail.filter(
            test,
        )).push(item));
    }
}

/// Nothing is kept where nothing passes.
proof fn lemma_keeps_none<T>(items: Seq<T>, test: spec_fn(T) -> bool)
    requires
        forall|index: int| 0 <= index < items.len() ==> !test(#[trigger] items[index]),
    ensures
        items.filter(test) == Seq::<T>::empty(),
    decreases items.len(),
{
    reveal(Seq::filter);
    if items.len() > 0 {
        assert(!test(items[items.len() - 1]));
        lemma_keeps_none(items.drop_last(), test);
    }
}

/// Puts items in order.
pub fn sort<T: Ranked>(items: Vec<T>) -> (sorted: Vec<T>)
    ensures
        sorted_from(sorted@, items@),
{
    let mut sorted: Vec<T> = Vec::new();
    assert(items@.take(0) == sorted@);
    for item in iter: items
        invariant
            iter.seq() == items@,
            sorted_from(sorted@, items@.take(iter.index())),
    {
        let ghost before = sorted@;
        let ghost done = items@.take(iter.index());
        let mut at: usize = sorted.len();
        while at > 0 && !sorted[at - 1].is_not_behind(&item)
            invariant
                at <= sorted.len(),
                sorted@ == before,
                forall|index: int|
                    at <= index < before.len() ==> !(#[trigger] before[index]).not_behind(item),
            decreases at,
        {
            at -= 1;
        }
        sorted.insert(at, item);
        proof {
            assert(items@.take(iter.index() + 1) == done.push(item));
            assert forall|pivot: T| #[trigger]
                likes_of(sorted@, pivot) == likes_of(done.push(item), pivot) by {
                lemma_insert(before, item, at as int, pivot);
                lemma_likes_push(done, item, pivot);
                assert(likes_of(before, pivot) == likes_of(done, pivot));
            }
            assert forall|left: int, right: int| 0 <= left <= right < sorted@.len() implies (
            #[trigger] sorted@[left]).not_behind(#[trigger] sorted@[right]) by {
                let old_left = if left < at {
                    left
                } else {
                    left - 1
                };
                let old_right = if right < at {
                    right
                } else {
                    right - 1
                };
                if left == at && right == at {
                    T::total(item, item);
                } else if right == at {
                    assert(before[left].not_behind(before[at - 1]));
                    T::transitive(before[left], before[at - 1], item);
                } else if left == at {
                    assert(!before[old_right].not_behind(item));
                    T::total(item, before[old_right]);
                } else {
                    assert(before[old_left].not_behind(before[old_right]));
                }
            }
        }
    }
    assert(items@.take(items@.len() as int) == items@);
    sorted
}

/// Sorting keeps every item: what is among the items is among the sorted ones, and
/// nothing else is.
pub proof fn law_sort_keeps_items<T: Ranked>(sorted: Seq<T>, items: Seq<T>, item: T)
    requires
        sorted_from(sorted, items),
    ensures
        sorted.contains(item) <==> items.contains(item),
{
    T::total(item, item);
    let test = |other: T| alike(other, item);
    assert(likes_of(sorted, item) == likes_of(items, item));
    if items.contains(item) {
        let index = items.index_of(item);
        items.lemma_filter_contains(test, index);
        sorted.lemma_filter_contains_rev(test, item);
    }
    if sorted.contains(item) {
        let index = sorted.index_of(item);
        sorted.lemma_filter_contains(test, index);
        items.lemma_filter_contains_rev(test, item);
    }
}

} // verus!
