//! Stable sorting: in rank order, and items of one rank in the order they came in.

use vstd::multiset::*;
use vstd::prelude::*;
use vstd::seq_lib::*;

use crate::capacity;

verus! {

/// A type whose values stand in a rank order; values that neither comes before the other share a
/// rank.
pub trait Ranked: View + Sized {
    /// Whether a value comes before another.
    spec fn before(a: Self::V, b: Self::V) -> bool;

    /// Of two values at most one comes before the other.
    proof fn lemma_before_one_way(a: Self::V, b: Self::V)
        requires
            Self::before(a, b),
        ensures
            !Self::before(b, a),
    ;

    /// Not coming after is transitive.
    proof fn lemma_before_ranks(a: Self::V, b: Self::V, c: Self::V)
        requires
            !Self::before(b, a),
            !Self::before(c, b),
        ensures
            !Self::before(c, a),
    ;

    /// Whether this value comes before another.
    fn goes_before(&self, other: &Self) -> (before: bool)
        ensures
            before == Self::before(self@, other@),
    ;
}

/// The views of a list.
pub open spec fn views<T: View>(items: Seq<T>) -> Seq<T::V> {
    Seq::new(items.len(), |i: int| items[i]@)
}

/// A sorted list with one more item, put behind all that it does not come before.
pub open spec fn placed<T: Ranked>(sorted: Seq<T::V>, item: T::V) -> Seq<T::V>
    decreases sorted.len(),
{
    if sorted.len() == 0 || !T::before(item, sorted.last()) {
        sorted.push(item)
    } else {
        placed::<T>(sorted.drop_last(), item).push(sorted.last())
    }
}

/// A list in rank order, items of one rank in the order they came in.
pub open spec fn stable_sorted<T: Ranked>(items: Seq<T::V>) -> Seq<T::V>
    decreases items.len(),
{
    if items.len() == 0 {
        items
    } else {
        placed::<T>(stable_sorted::<T>(items.drop_last()), items.last())
    }
}

/// Whether no item of a list comes before an earlier one.
pub open spec fn in_rank_order<T: Ranked>(items: Seq<T::V>) -> bool {
    forall|i: int, j: int| 0 <= i < j < items.len() ==> !T::before(items[j], items[i])
}

/// Where an item is put: behind every item that it does not come before.
proof fn lemma_placed_at<T: Ranked>(sorted: Seq<T::V>, item: T::V, at: int)
    requires
        0 <= at <= sorted.len(),
        at > 0 ==> !T::before(item, sorted[at - 1]),
        forall|i: int| at <= i < sorted.len() ==> T::before(item, #[trigger] sorted[i]),
    ensures
        placed::<T>(sorted, item) == sorted.insert(at, item),
    decreases sorted.len(),
{
    if at == sorted.len() {
        assert(sorted.insert(at, item) =~= sorted.push(item));
    } else {
        let rest = sorted.drop_last();
        assert(T::before(item, sorted[sorted.len() - 1]));
        lemma_placed_at::<T>(rest, item, at);
        assert(sorted.insert(at, item) =~= rest.insert(at, item).push(sorted.last()));
    }
}

/// The place of an item in a sorted list.
spec fn place_of<T: Ranked>(sorted: Seq<T::V>, item: T::V) -> int
    decreases sorted.len(),
{
    if sorted.len() == 0 || !T::before(item, sorted.last()) {
        sorted.len() as int
    } else {
        place_of::<T>(sorted.drop_last(), item)
    }
}

proof fn lemma_place_of<T: Ranked>(sorted: Seq<T::V>, item: T::V)
    ensures
        0 <= place_of::<T>(sorted, item) <= sorted.len(),
        place_of::<T>(sorted, item) > 0 ==> !T::before(
            item,
            sorted[place_of::<T>(sorted, item) - 1],
        ),
        forall|i: int|
            place_of::<T>(sorted, item) <= i < sorted.len() ==> T::before(
                item,
                #[trigger] sorted[i],
            ),
        placed::<T>(sorted, item) == sorted.insert(place_of::<T>(sorted, item), item),
    decreases sorted.len(),
{
    if sorted.len() > 0 && T::before(item, sorted.last()) {
        let rest = sorted.drop_last();
        lemma_place_of::<T>(rest, item);
        assert forall|i: int| place_of::<T>(sorted, item) <= i < sorted.len() implies T::before(
            item,
            #[trigger] sorted[i],
        ) by {
            if i < rest.len() {
                assert(sorted[i] == rest[i]);
            }
        }
    }
    lemma_placed_at::<T>(sorted, item, place_of::<T>(sorted, item));
}

proof fn lemma_placed_order<T: Ranked>(sorted: Seq<T::V>, item: T::V)
    requires
        in_rank_order::<T>(sorted),
    ensures
        in_rank_order::<T>(placed::<T>(sorted, item)),
{
    lemma_place_of::<T>(sorted, item);
    let at = place_of::<T>(sorted, item);
    let longer = placed::<T>(sorted, item);
    assert forall|i: int, j: int| 0 <= i < j < longer.len() implies !T::before(
        longer[j],
        longer[i],
    ) by {
        if i == at {
            assert(longer[j] == sorted[j - 1]);
            T::lemma_before_one_way(item, sorted[j - 1]);
        } else if j == at {
            assert(longer[i] == sorted[i]);
            if i < at - 1 {
                T::lemma_before_ranks(sorted[i], sorted[at - 1], item);
            }
        } else {
            let p = if i < at { i } else { i - 1 };
            let q = if j < at { j } else { j - 1 };
            assert(longer[i] == sorted[p]);
            assert(longer[j] == sorted[q]);
        }
    }
}

/// The items of a list that share a rank with a value.
pub open spec fn of_rank<T: Ranked>(items: Seq<T::V>, value: T::V) -> Seq<T::V> {
    items.filter(|item: T::V| !T::before(item, value) && !T::before(value, item))
}

proof fn lemma_filter_insert<A>(items: Seq<A>, at: int, item: A, keep: spec_fn(A) -> bool)
    requires
        0 <= at <= items.len(),
        keep(item) ==> forall|i: int| at <= i < items.len() ==> !keep(#[trigger] items[i]),
    ensures
        items.insert(at, item).filter(keep) == if keep(item) {
            items.filter(keep).push(item)
        } else {
            items.filter(keep)
        },
    decreases items.len() - at,
{
    reveal(Seq::filter);
    let longer = items.insert(at, item);
    if at == items.len() {
        assert(longer =~= items.push(item));
        assert(longer.drop_last() =~= items);
    } else {
        let rest = items.drop_last();
        assert(longer.drop_last() =~= rest.insert(at, item));
        assert(longer.last() == items.last());
        lemma_filter_insert(rest, at, item, keep);
        if keep(item) {
            assert(!keep(items[items.len() - 1]));
        }
    }
}

/// A stably sorted list is in rank order, holds the same items, and keeps the items of each rank in
/// the order they came in.
pub proof fn lemma_stable_sorted<T: Ranked>(items: Seq<T::V>)
    ensures
        in_rank_order::<T>(stable_sorted::<T>(items)),
        stable_sorted::<T>(items).to_multiset() == items.to_multiset(),
        stable_sorted::<T>(items).len() == items.len(),
        forall|value: T::V| #[trigger]
            of_rank::<T>(stable_sorted::<T>(items), value) == of_rank::<T>(items, value),
    decreases items.len(),
{
    broadcast use group_to_multiset_ensures;

    if items.len() > 0 {
        let rest = items.drop_last();
        let item = items.last();
        lemma_stable_sorted::<T>(rest);
        let sorted = stable_sorted::<T>(rest);
        lemma_placed_order::<T>(sorted, item);
        lemma_place_of::<T>(sorted, item);
        let at = place_of::<T>(sorted, item);
        assert(items =~= rest.push(item));
        to_multiset_insert(sorted, at, item);
        to_multiset_build(rest, item);
        assert forall|value: T::V| #[trigger]
            of_rank::<T>(stable_sorted::<T>(items), value) == of_rank::<T>(items, value) by {
            let keep = |v: T::V| !T::before(v, value) && !T::before(value, v);
            if keep(item) {
                assert forall|i: int| at <= i < sorted.len() implies !keep(#[trigger] sorted[i]) by {
                    assert(T::before(item, sorted[i]));
                    if keep(sorted[i]) {
                        T::lemma_before_ranks(sorted[i], value, item);
                    }
                }
            }
            lemma_filter_insert(sorted, at, item, keep);
            reveal(Seq::filter);
            assert(items.drop_last() =~= rest);
            assert(of_rank::<T>(sorted, value) == of_rank::<T>(rest, value));
        }
    }
}

/// Sorts a list stably. The sorted list has the room that the list had.
pub fn stable_sort<T: Ranked>(items: Vec<T>) -> (sorted: Vec<T>)
    ensures
        views(sorted@) == stable_sorted::<T>(views(items@)),
{
    let ghost all = items@;
    let mut sorted: Vec<T> = Vec::with_capacity(capacity::vec_capacity(&items));
    let mut left = reversed(items);
    let ghost mut done: int = 0;
    proof {
        assert(views(sorted@) =~= stable_sorted::<T>(views(all).subrange(0, 0)));
    }
    while left.len() > 0
        invariant
            0 <= done,
            done + left@.len() == all.len(),
            forall|i: int|
                0 <= i < left@.len() ==> #[trigger] left@[i] == all[all.len() - 1 - i],
            views(sorted@) == stable_sorted::<T>(views(all).subrange(0, done)),
        decreases left@.len(),
    {
        match left.pop() {
            Some(item) => {
                let ghost value = item@;
                let mut at: usize = sorted.len();
                while at > 0 && item.goes_before(&sorted[at - 1])
                    invariant
                        at <= sorted@.len(),
                        item@ == value,
                        forall|i: int|
                            at <= i < sorted@.len() ==> T::before(value, #[trigger] views(sorted@)[i]),
                    decreases at,
                {
                    at = at - 1;
                }
                proof {
                    assert(item == all[done]);
                    lemma_placed_at::<T>(views(sorted@), value, at as int);
                    assert(views(sorted@.insert(at as int, item)) =~= views(sorted@).insert(
                        at as int,
                        value,
                    ));
                    let longer = views(all).subrange(0, done + 1);
                    assert(longer.drop_last() =~= views(all).subrange(0, done));
                    assert(longer.last() == value);
                    done = done + 1;
                }
                sorted.insert(at, item);
            },
            None => {},
        }
    }
    proof {
        assert(views(all).subrange(0, done) =~= views(all));
    }
    sorted
}

/// A list turned round, so that its items can be taken from the front one by one.
pub fn reversed<T>(items: Vec<T>) -> (turned: Vec<T>)
    ensures
        turned@ == items@.reverse(),
        turned@.len() == items@.len(),
        forall|i: int|
            0 <= i < items@.len() ==> #[trigger] turned@[i] == items@[items@.len() - 1 - i],
{
    let ghost all = items@;
    let mut turned: Vec<T> = Vec::with_capacity(items.len());
    let mut left: Vec<T> = items;
    while left.len() > 0
        invariant
            left@.len() + turned@.len() == all.len(),
            left@ == all.subrange(0, left@.len() as int),
            forall|i: int|
                0 <= i < turned@.len() ==> #[trigger] turned@[i] == all[all.len() - 1 - i],
        decreases left@.len(),
    {
        match left.pop() {
            Some(item) => {
                turned.push(item);
            },
            None => {},
        }
    }
    assert(turned@ =~= all.reverse());
    turned
}

} // verus!
