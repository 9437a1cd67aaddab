//! A stable sort, and what is known of its result.

use vstd::prelude::*;

verus! {

/// Values with a rank: a total preorder, in which distinct values may tie.
pub trait Ranked: Sized {
    /// Whether `self` ranks no later than `other`.
    spec fn ranks_by(self, other: Self) -> bool;

    /// Of any two values, one ranks no later than the other.
    proof fn lemma_total(a: Self, b: Self)
        ensures
            a.ranks_by(b) || b.ranks_by(a),
    ;

    /// Ranks chain.
    proof fn lemma_transitive(a: Self, b: Self, c: Self)
        requires
            a.ranks_by(b),
            b.ranks_by(c),
        ensures
            a.ranks_by(c),
    ;
}

/// Ranked values that executable code can compare.
pub trait Sortable: Ranked {
    /// Whether `self` ranks no later than `other`.
    fn comes_by(&self, other: &Self) -> (holds: bool)
        ensures
            holds == self.ranks_by(*other),
    ;
}

/// Whether two values share a rank.
pub open spec fn ties<T: Ranked>(a: T, b: T) -> bool {
    a.ranks_by(b) && b.ranks_by(a)
}

/// Whether the ranks ascend.
pub open spec fn in_rank_order<T: Ranked>(items: Seq<T>) -> bool {
    forall|i: int, j: int|
        0 <= i <= j < items.len() ==> (#[trigger] items[i]).ranks_by(#[trigger] items[j])
}

/// `items` with `item` placed behind everything that ranks no later than it.
pub open spec fn placed<T: Ranked>(items: Seq<T>, item: T) -> Seq<T>
    decreases items.len(),
{
    if items.len() == 0 || items.last().ranks_by(item) {
        items.push(item)
    } else {
        placed(items.drop_last(), item).push(items.last())
    }
}

/// `items` in rank order, where items that tie keep their order.
pub open spec fn stable_sorted<T: Ranked>(items: Seq<T>) -> Seq<T>
    decreases items.len(),
{
    if items.len() == 0 {
        items
    } else {
        placed(stable_sorted(items.drop_last()), items.last())
    }
}

/// The items that share a rank with `pivot`, in their order.
pub open spec fn tied_with<T: Ranked>(items: Seq<T>, pivot: T) -> Seq<T>
    decreases items.len(),
{
    if items.len() == 0 {
        items
    } else if ties(items.last(), pivot) {
        tied_with(items.drop_last(), pivot).push(items.last())
    } else {
        tied_with(items.drop_last(), pivot)
    }
}

proof fn lemma_placed<T: Ranked>(items: Seq<T>, item: T)
    requires
        in_rank_order(items),
    ensures
        in_rank_order(placed(items, item)),
        placed(items, item).to_multiset() == items.to_multiset().insert(item),
        placed(items, item).len() == items.len() + 1,
        forall|bound: T|
            #![trigger item.ranks_by(bound)]
            item.ranks_by(bound) && (forall|i: int|
                0 <= i < items.len() ==> (#[trigger] items[i]).ranks_by(bound)) ==> forall|i: int|
                0 <= i < items.len() + 1 ==> (#[trigger] placed(items, item)[i]).ranks_by(bound),
    decreases items.len(),
{
    broadcast use vstd::seq_lib::group_to_multiset_ensures;

    T::lemma_total(item, item);
    if items.len() == 0 {
    } else if items.last().ranks_by(item) {
        assert forall|i: int| 0 <= i < items.len() implies (#[trigger] items[i]).ranks_by(item) by {
            T::lemma_transitive(items[i], items.last(), item);
        }
    } else {
        let rest = items.drop_last();
        let last = items.last();
        lemma_placed(rest, item);
        T::lemma_total(item, last);
        T::lemma_total(last, last);
        assert forall|i: int| 0 <= i < rest.len() implies (#[trigger] rest[i]).ranks_by(last) by {
            assert(items[i].ranks_by(items[items.len() - 1]));
        }
        assert(item.ranks_by(last));
        assert(items =~= rest.push(last));
        assert(placed(items, item).to_multiset() =~= items.to_multiset().insert(item));
        assert forall|bound: T|
            #![trigger item.ranks_by(bound)]
            item.ranks_by(bound) && (forall|i: int|
                0 <= i < items.len() ==> (#[trigger] items[i]).ranks_by(bound)) implies forall|i: int|

            0 <= i < items.len() + 1 ==> (#[trigger] placed(items, item)[i]).ranks_by(bound) by {
            assert(forall|i: int| 0 <= i < rest.len() ==> (#[trigger] rest[i]) == items[i]);
            assert(items[items.len() - 1].ranks_by(bound));
        }
    }
}

/// The sorted sequence ascends in rank and holds the same items, each as often.
pub proof fn stable_sorted_is_an_ordered_permutation<T: Ranked>(items: Seq<T>)
    ensures
        in_rank_order(stable_sorted(items)),
        stable_sorted(items).to_multiset() == items.to_multiset(),
        stable_sorted(items).len() == items.len(),
    decreases items.len(),
{
    broadcast use vstd::seq_lib::group_to_multiset_ensures;

    if items.len() > 0 {
        stable_sorted_is_an_ordered_permutation(items.drop_last());
        lemma_placed(stable_sorted(items.drop_last()), items.last());
        assert(items =~= items.drop_last().push(items.last()));
    }
}

proof fn lemma_placed_tied<T: Ranked>(items: Seq<T>, item: T, pivot: T)
    requires
        in_rank_order(items),
    ensures
        tied_with(placed(items, item), pivot) == if ties(item, pivot) {
            tied_with(items, pivot).push(item)
        } else {
            tied_with(items, pivot)
        },
    decreases items.len(),
{
    if items.len() == 0 || items.last().ranks_by(item) {
        assert(items.push(item).drop_last() =~= items);
    } else {
        let rest = items.drop_last();
        let last = items.last();
        lemma_placed_tied(rest, item, pivot);
        assert(placed(rest, item).push(last).drop_last() =~= placed(rest, item));
        T::lemma_total(item, last);
        if ties(item, pivot) && ties(last, pivot) {
            T::lemma_transitive(last, pivot, item);
        }
    }
}

/// Items that tie keep their order.
pub proof fn stable_sorted_keeps_the_order_of_ties<T: Ranked>(items: Seq<T>, pivot: T)
    ensures
        tied_with(stable_sorted(items), pivot) == tied_with(items, pivot),
    decreases items.len(),
{
    if items.len() > 0 {
        stable_sorted_keeps_the_order_of_ties(items.drop_last(), pivot);
        stable_sorted_is_an_ordered_permutation(items.drop_last());
        lemma_placed_tied(stable_sorted(items.drop_last()), items.last(), pivot);
    }
}

/// Whether no two items tie.
pub open spec fn no_ties<T: Ranked>(items: Seq<T>) -> bool {
    forall|i: int, j: int|
        0 <= i < j < items.len() ==> !ties(#[trigger] items[i], #[trigger] items[j])
}

proof fn lemma_ties_are_an_equivalence<T: Ranked>(a: T, b: T, c: T)
    requires
        ties(a, b),
        ties(b, c),
    ensures
        ties(a, c),
        ties(b, a),
{
    T::lemma_transitive(a, b, c);
    T::lemma_transitive(c, b, a);
}

proof fn lemma_untied_items_stand_alone<T: Ranked>(items: Seq<T>, pivot: T)
    requires
        no_ties(items),
    ensures
        tied_with(items, pivot).len() <= 1,
        tied_with(items, pivot).len() == 1 ==> exists|i: int|
            0 <= i < items.len() && ties(#[trigger] items[i], pivot),
    decreases items.len(),
{
    if items.len() > 0 {
        let rest = items.drop_last();
        assert forall|i: int, j: int| 0 <= i < j < rest.len() implies !ties(
            #[trigger] rest[i],
            #[trigger] rest[j],
        ) by {
            assert(rest[i] == items[i] && rest[j] == items[j]);
        }
        lemma_untied_items_stand_alone(rest, pivot);
        if tied_with(rest, pivot).len() == 1 {
            let i = choose|i: int| 0 <= i < rest.len() && ties(#[trigger] rest[i], pivot);
            assert(ties(items[i], pivot));
            if ties(items.last(), pivot) {
                lemma_ties_are_an_equivalence(items[i], pivot, items.last());
                assert(!ties(items[i], items[items.len() - 1]));
            }
        } else if ties(items.last(), pivot) {
            assert(ties(items[items.len() - 1], pivot));
        }
    }
}

proof fn lemma_tied_items_are_found<T: Ranked>(items: Seq<T>, i: int, pivot: T)
    requires
        0 <= i < items.len(),
        ties(items[i], pivot),
    ensures
        tied_with(items, pivot).len() >= 1,
    decreases items.len(),
{
    if i < items.len() - 1 {
        lemma_tied_items_are_found(items.drop_last(), i, pivot);
    }
}

proof fn lemma_two_tied_items_are_found<T: Ranked>(items: Seq<T>, i: int, j: int, pivot: T)
    requires
        0 <= i < j < items.len(),
        ties(items[i], pivot),
        ties(items[j], pivot),
    ensures
        tied_with(items, pivot).len() >= 2,
    decreases items.len(),
{
    if j < items.len() - 1 {
        lemma_two_tied_items_are_found(items.drop_last(), i, j, pivot);
    } else {
        lemma_tied_items_are_found(items.drop_last(), i, pivot);
    }
}

/// Where no two items tie, no two of the sorted items do.
pub proof fn stable_sorted_keeps_items_apart<T: Ranked>(items: Seq<T>)
    requires
        no_ties(items),
    ensures
        no_ties(stable_sorted(items)),
{
    let sorted = stable_sorted(items);
    assert forall|i: int, j: int| 0 <= i < j < sorted.len() implies !ties(
        #[trigger] sorted[i],
        #[trigger] sorted[j],
    ) by {
        if ties(sorted[i], sorted[j]) {
            T::lemma_total(sorted[j], sorted[j]);
            lemma_two_tied_items_are_found(sorted, i, j, sorted[j]);
            stable_sorted_keeps_the_order_of_ties(items, sorted[j]);
            lemma_untied_items_stand_alone(items, sorted[j]);
        }
    }
}

/// What is in rank order already stays as it is.
pub proof fn stable_sorted_keeps_ordered_items<T: Ranked>(items: Seq<T>)
    requires
        in_rank_order(items),
    ensures
        stable_sorted(items) == items,
    decreases items.len(),
{
    if items.len() > 0 {
        let rest = items.drop_last();
        assert forall|i: int, j: int| 0 <= i <= j < rest.len() implies (
        #[trigger] rest[i]).ranks_by(#[trigger] rest[j]) by {
            assert(items[i].ranks_by(items[j]));
        }
        stable_sorted_keeps_ordered_items(rest);
        if rest.len() > 0 {
            assert(items[items.len() - 2].ranks_by(items[items.len() - 1]));
        }
        assert(rest.push(items.last()) =~= items);
    }
}

/// Whether items that tie are equal.
pub open spec fn only_equals_tie<T: Ranked>(items: Seq<T>) -> bool {
    forall|i: int, j: int|
        0 <= i < items.len() && 0 <= j < items.len() && ties(
            #[trigger] items[i],
            #[trigger] items[j],
        ) ==> items[i] == items[j]
}

proof fn lemma_ordered_permutations_agree<T: Ranked>(a: Seq<T>, b: Seq<T>)
    requires
        in_rank_order(a),
        in_rank_order(b),
        a.to_multiset() == b.to_multiset(),
        only_equals_tie(a),
    ensures
        a == b,
    decreases a.len(),
{
    broadcast use vstd::seq_lib::group_to_multiset_ensures;

    assert(a.len() == a.to_multiset().len());
    assert(b.len() == b.to_multiset().len());
    if a.len() > 0 {
        let x = a.last();
        let y = b.last();
        assert(a.to_multiset().count(x) > 0 && b.to_multiset().count(y) > 0) by {
            assert(a.contains(x) && b.contains(y)) by {
                assert(a[a.len() - 1] == x && b[b.len() - 1] == y);
            }
        }
        assert(b.contains(x) && a.contains(y));
        let i = choose|i: int| 0 <= i < b.len() && b[i] == x;
        let j = choose|j: int| 0 <= j < a.len() && a[j] == y;
        assert(b[i].ranks_by(b[b.len() - 1]));
        assert(a[j].ranks_by(a[a.len() - 1]));
        assert(ties(a[j], a[a.len() - 1]));
        assert(x == y);
        assert(a =~= a.drop_last().push(x));
        assert(b =~= b.drop_last().push(y));
        assert(a.drop_last().to_multiset() =~= a.to_multiset().remove(x));
        assert(b.drop_last().to_multiset() =~= b.to_multiset().remove(x));
        lemma_ordered_permutations_agree(a.drop_last(), b.drop_last());
    } else {
        assert(a =~= b);
    }
}

/// The order in which the items come does not matter, unless two different
/// items share a rank.
pub proof fn stable_sorted_ignores_input_order<T: Ranked>(a: Seq<T>, b: Seq<T>)
    requires
        a.to_multiset() == b.to_multiset(),
        only_equals_tie(a),
    ensures
        stable_sorted(a) == stable_sorted(b),
{
    broadcast use vstd::seq_lib::group_to_multiset_ensures;

    stable_sorted_is_an_ordered_permutation(a);
    stable_sorted_is_an_ordered_permutation(b);
    let s = stable_sorted(a);
    assert forall|i: int, j: int|
        0 <= i < s.len() && 0 <= j < s.len() && ties(
            #[trigger] s[i],
            #[trigger] s[j],
        ) implies s[i] == s[j] by {
        assert(s.contains(s[i]) && s.contains(s[j]));
        assert(a.to_multiset().count(s[i]) > 0 && a.to_multiset().count(s[j]) > 0);
        assert(a.contains(s[i]) && a.contains(s[j]));
    }
    lemma_ordered_permutations_agree(s, stable_sorted(b));
}

/// What is made of the items of two permutations, item by item, is a permutation
/// again.
pub proof fn permutations_map_to_permutations<A, B>(a: Seq<A>, b: Seq<A>, f: spec_fn(A) -> B)
    requires
        a.to_multiset() == b.to_multiset(),
    ensures
        a.map_values(f).to_multiset() == b.map_values(f).to_multiset(),
    decreases a.len(),
{
    broadcast use vstd::seq_lib::group_to_multiset_ensures;

    assert(a.to_multiset().len() == a.len() && b.to_multiset().len() == b.len());
    if a.len() == 0 {
        assert(a =~= b);
    } else {
        let last = a.last();
        assert(a.contains(last));
        assert(b.to_multiset().count(last) > 0);
        assert(b.contains(last));
        let index = choose|index: int| 0 <= index < b.len() && b[index] == last;
        let (s, t) = (a.drop_last(), b.remove(index));
        assert(a =~= s.push(last));
        assert(s.to_multiset() =~= a.to_multiset().remove(last));
        assert(t.to_multiset() =~= b.to_multiset().remove(last));
        permutations_map_to_permutations(s, t, f);
        assert(a.map_values(f) =~= s.map_values(f).push(f(last)));
        assert(b.map_values(f) =~= t.map_values(f).insert(index, f(last)));
    }
}

proof fn lemma_placed_commutes<A: Ranked, B: Ranked>(items: Seq<A>, item: A, f: spec_fn(A) -> B)
    requires
        forall|a: A, b: A| #[trigger] f(a).ranks_by(f(b)) == a.ranks_by(b),
    ensures
        placed(items, item).map_values(f) == placed(items.map_values(f), f(item)),
    decreases items.len(),
{
    let mapped = items.map_values(f);
    if items.len() == 0 {
        assert(placed(items, item).map_values(f) =~= placed(mapped, f(item)));
    } else {
        assert(mapped.last() == f(items.last()));
        assert(f(items.last()).ranks_by(f(item)) == items.last().ranks_by(item));
        lemma_placed_commutes(items.drop_last(), item, f);
        assert(mapped.drop_last() =~= items.drop_last().map_values(f));
        assert(placed(items, item).map_values(f) =~= placed(mapped, f(item)));
    }
}

/// Sorting commutes with a map that keeps ranks.
pub proof fn stable_sorted_commutes<A: Ranked, B: Ranked>(items: Seq<A>, f: spec_fn(A) -> B)
    requires
        forall|a: A, b: A| #[trigger] f(a).ranks_by(f(b)) == a.ranks_by(b),
    ensures
        stable_sorted(items).map_values(f) == stable_sorted(items.map_values(f)),
    decreases items.len(),
{
    if items.len() == 0 {
        assert(items.map_values(f) =~= stable_sorted(items.map_values(f)));
    } else {
        stable_sorted_commutes(items.drop_last(), f);
        lemma_placed_commutes(stable_sorted(items.drop_last()), items.last(), f);
        assert(items.map_values(f).drop_last() =~= items.drop_last().map_values(f));
    }
}

proof fn lemma_placed_at<T: Ranked>(items: Seq<T>, item: T, at: int)
    requires
        0 <= at <= items.len(),
        at > 0 ==> items[at - 1].ranks_by(item),
        forall|i: int| at <= i < items.len() ==> !(#[trigger] items[i]).ranks_by(item),
    ensures
        placed(items, item) == items.insert(at, item),
    decreases items.len() - at,
{
    if at == items.len() {
        assert(items.insert(at, item) =~= items.push(item));
    } else {
        assert(!items[items.len() - 1].ranks_by(item));
        lemma_placed_at(items.drop_last(), item, at);
        assert(items.insert(at, item) =~= items.drop_last().insert(at, item).push(items.last()));
    }
}

/// Sorts by rank; items that tie keep their order.
pub fn sort_stably<T: Sortable>(items: Vec<T>) -> (sorted: Vec<T>)
    ensures
        sorted@ == stable_sorted(items@),
{
    let mut sorted: Vec<T> = Vec::with_capacity(items.len());
    let ghost all = items@;
    for item in it: items
        invariant
            it.seq() == all,
            sorted@ == stable_sorted(all.take(it.index() as int)),
    {
        let mut at: usize = sorted.len();
        while at > 0 && !sorted[at - 1].comes_by(&item)
            invariant
                at <= sorted.len(),
                forall|i: int| at <= i < sorted.len() ==> !(#[trigger] sorted@[i]).ranks_by(item),
            decreases at,
        {
            at -= 1;
        }
        proof {
            lemma_placed_at(sorted@, item, at as int);
            let done = all.take(it.index() as int + 1);
            assert(done.drop_last() =~= all.take(it.index() as int));
        }
        sorted.insert(at, item);
    }
    assert(all.take(all.len() as int) =~= all);
    sorted
}

} // verus!
