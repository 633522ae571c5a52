//! Lists put in order.

use vstd::prelude::*;

use crate::order::{comes_before, is_stable_order, stable_order, SortKey};
use crate::text::{chars_of, text_at_most, TextKey};

verus! {

/// Whether `order` lists every position of `items` once, as a stable sort by `at_most` does: the
/// smaller item comes first, and of two equal ones the earlier.
pub open spec fn is_stable_listing<A>(
    items: Seq<A>,
    order: Seq<usize>,
    at_most: spec_fn(A, A) -> bool,
) -> bool {
    &&& order.len() == items.len()
    &&& order.no_duplicates()
    &&& forall|place: int| 0 <= place < order.len() ==> #[trigger] order[place] < items.len()
    &&& forall|left: int, right: int|
        0 <= left < right < order.len() ==> {
            let before = #[trigger] order[left];
            let behind = #[trigger] order[right];
            at_most(items[before as int], items[behind as int]) && (at_most(
                items[behind as int],
                items[before as int],
            ) ==> before < behind)
        }
}

/// Whether `sorted` holds the items in the given order.
pub open spec fn is_arranged<A>(items: Seq<A>, order: Seq<usize>, sorted: Seq<A>) -> bool {
    &&& sorted.len() == order.len()
    &&& forall|place: int|
        0 <= place < order.len() ==> #[trigger] sorted[place] == items[order[place] as int]
}

/// Whether `sorted` is what a stable sort by `at_most` makes of `items`.
pub open spec fn is_sorted_copy<A>(
    items: Seq<A>,
    sorted: Seq<A>,
    at_most: spec_fn(A, A) -> bool,
) -> bool {
    exists|order: Seq<usize>|
        is_stable_listing(items, order, at_most) && is_arranged(items, order, sorted)
}

/// A stable order by keys that compare as the items do is a stable listing of the items.
pub proof fn lemma_listing_by_keys<A, K: SortKey>(
    items: Seq<A>,
    keys: Seq<K>,
    order: Seq<usize>,
    at_most: spec_fn(A, A) -> bool,
)
    requires
        is_stable_order(keys, order),
        keys.len() == items.len(),
        forall|left: int, right: int|
            0 <= left < keys.len() && 0 <= right < keys.len() ==> #[trigger] keys[left].at_most(
                keys[right],
            ) == at_most(items[left], items[right]),
    ensures
        is_stable_listing(items, order, at_most),
{
    assert forall|left: int, right: int| 0 <= left < right < order.len() implies {
        let before = #[trigger] order[left];
        let behind = #[trigger] order[right];
        at_most(items[before as int], items[behind as int]) && (at_most(
            items[behind as int],
            items[before as int],
        ) ==> before < behind)
    } by {
        assert(comes_before(keys, order[left] as int, order[right] as int));
    }
}

/// Puts items into the given order.
pub fn arrange<T>(items: Vec<T>, order: &Vec<usize>) -> (sorted: Vec<T>)
    requires
        order@.len() == items@.len(),
        order@.no_duplicates(),
        forall|place: int| 0 <= place < order@.len() ==> #[trigger] order@[place] < items@.len(),
    ensures
        is_arranged(items@, order@, sorted@),
{
    let ghost all = items@;
    let count: usize = items.len();
    let mut rest = items;
    let mut slots: Vec<Option<T>> = Vec::new();
    while slots.len() < count
        invariant
            all.len() == count,
            slots@.len() + rest@.len() == count,
            forall|at: int| 0 <= at < rest@.len() ==> #[trigger] rest@[at] == all[at],
            forall|at: int|
                0 <= at < slots@.len() ==> #[trigger] slots@[at] == Some(all[count - 1 - at]),
        decreases rest@.len(),
    {
        let last = rest.pop();
        slots.push(last);
    }
    let mut sorted: Vec<T> = Vec::new();
    while sorted.len() < count
        invariant
            all.len() == count,
            order@.len() == count,
            order@.no_duplicates(),
            slots@.len() == count,
            sorted@.len() <= count,
            forall|place: int| 0 <= place < order@.len() ==> #[trigger] order@[place] < count,
            forall|at: int|
                0 <= at < sorted@.len() ==> #[trigger] sorted@[at] == all[order@[at] as int],
            forall|later: int|
                sorted@.len() <= later < count ==> slots@[count - 1 - (#[trigger] order@[later])]
                    == Some(all[order@[later] as int]),
        decreases count - sorted@.len(),
    {
        let ghost place = sorted@.len() as int;
        let ghost before = slots@;
        let wanted: usize = order[sorted.len()];
        assert(slots@[count - 1 - order@[place]] == Some(all[order@[place] as int]));
        let taken = slots[count - 1 - wanted].take();
        assert forall|later: int| place < later < count implies slots@[count - 1 - (
        #[trigger] order@[later])] == Some(all[order@[later] as int]) by {
            assert(order@[later] != order@[place]);
            assert(before[count - 1 - order@[later]] == Some(all[order@[later] as int]));
        }
        match taken {
            Some(item) => {
                sorted.push(item);
            },
            None => {},
        }
    }
    sorted
}

/// The order of texts, as a function.
pub open spec fn text_order() -> spec_fn(Seq<char>, Seq<char>) -> bool {
    |left: Seq<char>, right: Seq<char>| text_at_most(left, right)
}

/// The order in which a stable sort by text puts `texts`.
pub fn text_sorting(texts: &Vec<String>) -> (order: Vec<usize>)
    ensures
        is_stable_listing(crate::text::views(texts@), order@, text_order()),
{
    let mut keys: Vec<TextKey> = Vec::new();
    let mut at: usize = 0;
    while at < texts.len()
        invariant
            at <= texts@.len(),
            keys@.len() == at,
            forall|done: int|
                0 <= done < at ==> (#[trigger] keys@[done]).chars@ == texts@[done]@,
        decreases texts@.len() - at,
    {
        keys.push(TextKey { chars: chars_of(texts[at].as_str()) });
        at += 1;
    }
    let order = stable_order(&keys);
    proof {
        lemma_listing_by_keys(crate::text::views(texts@), keys@, order@, text_order());
    }
    order
}

/// Sorting loses nothing and adds nothing, and puts no item before a smaller one.
pub proof fn law_sorting_keeps_all<A>(
    items: Seq<A>,
    sorted: Seq<A>,
    at_most: spec_fn(A, A) -> bool,
)
    requires
        is_sorted_copy(items, sorted, at_most),
    ensures
        sorted.to_multiset() == items.to_multiset(),
        sorted.len() == items.len(),
        forall|left: int, right: int|
            0 <= left < right < sorted.len() ==> at_most(
                #[trigger] sorted[left],
                #[trigger] sorted[right],
            ),
{
    let order = choose|order: Seq<usize>|
        is_stable_listing(items, order, at_most) && is_arranged(items, order, sorted);
    assert forall|left: int, right: int| 0 <= left < right < sorted.len() implies at_most(
        #[trigger] sorted[left],
        #[trigger] sorted[right],
    ) by {
        assert(sorted[left] == items[order[left] as int]);
        assert(sorted[right] == items[order[right] as int]);
        assert(order[left] < items.len() && order[right] < items.len());
    }
    lemma_arranged_multiset(items, order, sorted);
}

/// An arrangement of all items holds each as often as they do.
proof fn lemma_arranged_multiset<A>(items: Seq<A>, order: Seq<usize>, sorted: Seq<A>)
    requires
        order.len() == items.len(),
        order.no_duplicates(),
        forall|place: int| 0 <= place < order.len() ==> #[trigger] order[place] < items.len(),
        is_arranged(items, order, sorted),
    ensures
        sorted.to_multiset() == items.to_multiset(),
    decreases items.len(),
{
    broadcast use vstd::seq_lib::group_to_multiset_ensures;

    if items.len() == 0 {
        assert(sorted =~= items);
    } else {
        let count = items.len();
        let last = (count - 1) as int;
        crate::order::lemma_place_fits(order, count, last);
        let spot = choose|spot: int| 0 <= spot < order.len() && order[spot] == last;
        let fewer = items.drop_last();
        let rest = order.remove(spot);
        let less = sorted.remove(spot);
        assert forall|place: int| 0 <= place < rest.len() implies #[trigger] rest[place]
            < fewer.len() by {
            let old = if place < spot {
                place
            } else {
                place + 1
            };
            assert(rest[place] == order[old]);
            assert(order[old] != order[spot]);
        }
        assert(rest.no_duplicates()) by {
            assert forall|left: int, right: int|
                0 <= left < rest.len() && 0 <= right < rest.len() && left != right implies rest[left]
                != rest[right] by {
                let old_left = if left < spot {
                    left
                } else {
                    left + 1
                };
                let old_right = if right < spot {
                    right
                } else {
                    right + 1
                };
                assert(order[old_left] != order[old_right]);
            }
        }
        assert(is_arranged(fewer, rest, less)) by {
            assert forall|place: int| 0 <= place < rest.len() implies #[trigger] less[place]
                == fewer[rest[place] as int] by {
                let old = if place < spot {
                    place
                } else {
                    place + 1
                };
                assert(less[place] == sorted[old]);
                assert(rest[place] == order[old]);
            }
        }
        lemma_arranged_multiset(fewer, rest, less);
        assert(items =~= fewer.push(items.last()));
        assert(sorted[spot] == items[last]);
        assert(sorted =~= less.insert(spot, sorted[spot]));
        assert(less.insert(spot, sorted[spot]).to_multiset() =~= less.to_multiset().insert(
            sorted[spot],
        ));
    }
}

/// Of two items that may stand in either order, the one that came first comes first: the places
/// that the sorted items had before tell so.
pub proof fn law_sorting_is_stable<A>(
    items: Seq<A>,
    sorted: Seq<A>,
    at_most: spec_fn(A, A) -> bool,
) -> (places: Seq<int>)
    requires
        is_sorted_copy(items, sorted, at_most),
    ensures
        places.len() == sorted.len(),
        places.no_duplicates(),
        forall|at: int|
            0 <= at < places.len() ==> 0 <= #[trigger] places[at] < items.len() && sorted[at]
                == items[places[at]],
        forall|place: int| 0 <= place < items.len() ==> #[trigger] places.contains(place),
        forall|left: int, right: int|
            0 <= left < right < places.len() && at_most(sorted[right], sorted[left])
                ==> #[trigger] places[left] < #[trigger] places[right],
{
    let order = choose|order: Seq<usize>|
        is_stable_listing(items, order, at_most) && is_arranged(items, order, sorted);
    let places = order.map_values(|place: usize| place as int);
    assert forall|at: int| 0 <= at < places.len() implies 0 <= #[trigger] places[at] < items.len()
        && sorted[at] == items[places[at]] by {
        assert(places[at] == order[at]);
    }
    assert forall|place: int| 0 <= place < items.len() implies #[trigger] places.contains(
        place,
    ) by {
        crate::order::lemma_place_fits(order, items.len(), place);
        let spot = choose|spot: int| 0 <= spot < order.len() && order[spot] == place;
        assert(places[spot] == place);
    }
    assert forall|left: int, right: int|
        0 <= left < right < places.len() && at_most(sorted[right], sorted[left]) implies
        #[trigger] places[left] < #[trigger] places[right] by {
        assert(places[left] == order[left] && places[right] == order[right]);
        assert(sorted[left] == items[order[left] as int]);
        assert(sorted[right] == items[order[right] as int]);
    }
    places
}

} // verus!
