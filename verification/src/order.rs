//! Stable sorting by keys.

use vstd::prelude::*;

verus! {

/// A key by which items are put in order.
pub trait SortKey: Sized {
    /// Whether this key may stand before `other`.
    spec fn at_most(self, other: Self) -> bool;

    /// Any two keys can be compared.
    proof fn lemma_total(left: Self, right: Self)
        ensures
            left.at_most(right) || right.at_most(left),
    ;

    /// The comparison chains.
    proof fn lemma_transitive(left: Self, middle: Self, right: Self)
        requires
            left.at_most(middle),
            middle.at_most(right),
        ensures
            left.at_most(right),
    ;

    /// Decides `at_most`.
    fn is_at_most(&self, other: &Self) -> (answer: bool)
        ensures
            answer == self.at_most(*other),
    ;
}

/// Whether the item at `left` comes before the item at `right` in a stable sort by `keys`:
/// the smaller key comes first, and of two equal keys the earlier position.
pub open spec fn comes_before<K: SortKey>(keys: Seq<K>, left: int, right: int) -> bool {
    keys[left].at_most(keys[right]) && (keys[right].at_most(keys[left]) ==> left < right)
}

/// Whether `order` lists every position of `keys` once, in the order of a stable sort.
pub open spec fn is_stable_order<K: SortKey>(keys: Seq<K>, order: Seq<usize>) -> bool {
    &&& order.len() == keys.len()
    &&& order.no_duplicates()
    &&& forall|place: int| 0 <= place < order.len() ==> #[trigger] order[place] < keys.len()
    &&& forall|left: int, right: int|
        0 <= left < right < order.len() ==> comes_before(
            keys,
            #[trigger] order[left] as int,
            #[trigger] order[right] as int,
        )
}

/// The positions of `keys` in the order of a stable sort.
pub fn stable_order<K: SortKey>(keys: &Vec<K>) -> (order: Vec<usize>)
    ensures
        is_stable_order(keys@, order@),
{
    let mut order: Vec<usize> = Vec::new();
    let mut next: usize = 0;
    while next < keys.len()
        invariant
            next <= keys@.len(),
            order@.len() == next,
            order@.no_duplicates(),
            forall|place: int| 0 <= place < order@.len() ==> #[trigger] order@[place] < next,
            forall|left: int, right: int|
                0 <= left < right < order@.len() ==> comes_before(
                    keys@,
                    #[trigger] order@[left] as int,
                    #[trigger] order@[right] as int,
                ),
        decreases keys@.len() - next,
    {
        let mut place: usize = order.len();
        while place > 0 && !keys[order[place - 1]].is_at_most(&keys[next])
            invariant
                next < keys@.len(),
                place <= order@.len(),
                forall|at: int| 0 <= at < order@.len() ==> #[trigger] order@[at] < next,
                forall|at: int|
                    place <= at < order@.len() ==> !keys@[#[trigger] order@[at] as int].at_most(
                        keys@[next as int],
                    ),
            decreases place,
        {
            place -= 1;
        }
        let ghost before = order@;
        order.insert(place, next);
        proof {
            lemma_inserted(keys@, before, place as int, next);
        }
        next += 1;
    }
    order
}

/// Putting position `item` after the positions whose key may stand before its own keeps the order.
proof fn lemma_inserted<K: SortKey>(keys: Seq<K>, order: Seq<usize>, place: int, item: usize)
    requires
        item < keys.len(),
        0 <= place <= order.len(),
        order.no_duplicates(),
        forall|at: int| 0 <= at < order.len() ==> #[trigger] order[at] < item,
        forall|left: int, right: int|
            0 <= left < right < order.len() ==> comes_before(
                keys,
                #[trigger] order[left] as int,
                #[trigger] order[right] as int,
            ),
        place > 0 ==> keys[order[place - 1] as int].at_most(keys[item as int]),
        forall|at: int|
            place <= at < order.len() ==> !keys[#[trigger] order[at] as int].at_most(
                keys[item as int],
            ),
    ensures
        order.insert(place, item).no_duplicates(),
        forall|at: int|
            0 <= at <= order.len() ==> #[trigger] order.insert(place, item)[at] <= item,
        forall|left: int, right: int|
            0 <= left < right <= order.len() ==> comes_before(
                keys,
                #[trigger] order.insert(place, item)[left] as int,
                #[trigger] order.insert(place, item)[right] as int,
            ),
{
    let after = order.insert(place, item);
    order.insert_ensures(place, item);
    assert forall|left: int, right: int| 0 <= left < right < after.len() implies comes_before(
        keys,
        #[trigger] after[left] as int,
        #[trigger] after[right] as int,
    ) by {
        if right == place {
            let last = order[place - 1] as int;
            assert(after[left] == order[left]);
            if left < place - 1 {
                assert(comes_before(keys, order[left] as int, order[place - 1] as int));
                K::lemma_transitive(keys[order[left] as int], keys[last], keys[item as int]);
            }
        } else if left == place {
            assert(after[right] == order[right - 1]);
            K::lemma_total(keys[item as int], keys[order[right - 1] as int]);
        } else {
            let old_left = if left < place {
                left
            } else {
                left - 1
            };
            let old_right = if right < place {
                right
            } else {
                right - 1
            };
            assert(after[left] == order[old_left]);
            assert(after[right] == order[old_right]);
        }
    }
}

/// There is one stable order of a list of keys only.
pub proof fn law_stable_order_is_unique<K: SortKey>(
    keys: Seq<K>,
    first: Seq<usize>,
    second: Seq<usize>,
)
    requires
        is_stable_order(keys, first),
        is_stable_order(keys, second),
    ensures
        first == second,
{
    lemma_covers_all(first, keys.len());
    lemma_covers_all(second, keys.len());
    lemma_orders_agree(keys, first, second, first.len());
    assert(first.take(first.len() as int) =~= first);
    assert(second.take(second.len() as int) =~= second);
}

/// A place below the length of a list of positions is itself a position.
pub proof fn lemma_place_fits(order: Seq<usize>, count: nat, place: int)
    requires
        order.len() == count,
        order.no_duplicates(),
        forall|at: int| 0 <= at < order.len() ==> #[trigger] order[at] < count,
        0 <= place < count,
    ensures
        exists|spot: int| 0 <= spot < order.len() && order[spot] == place,
{
    let held = order.map_values(|value: usize| value as int);
    let all = vstd::set_lib::set_int_range(0, count as int);
    vstd::set_lib::lemma_int_range(0, count as int);
    held.unique_seq_to_set();
    assert(held.to_set().subset_of(all)) by {
        assert forall|value: int| held.to_set().contains(value) implies all.contains(value) by {
            let spot = choose|spot: int| 0 <= spot < held.len() && held[spot] == value;
            assert(held[spot] == order[spot] as int);
        }
    }
    vstd::set_lib::lemma_subset_equality(held.to_set(), all);
    assert(held.to_set().contains(place));
    let spot = choose|spot: int| 0 <= spot < held.len() && held[spot] == place;
    assert(order[spot] == place);
}

/// A list of `count` different positions below `count` holds each of them.
pub proof fn lemma_covers_all(order: Seq<usize>, count: nat)
    requires
        order.len() == count,
        order.no_duplicates(),
        forall|place: int| 0 <= place < order.len() ==> #[trigger] order[place] < count,
    ensures
        forall|item: usize| item < count ==> #[trigger] order.contains(item),
{
    let all = Set::new(|value: int| 0 <= value < count);
    let held = order.map_values(|value: usize| value as int);
    assert(held.no_duplicates());
    held.unique_seq_to_set();
    vstd::set_lib::lemma_int_range(0, count as int);
    assert(all =~= vstd::set_lib::set_int_range(0, count as int));
    assert(held.to_set().subset_of(all)) by {
        assert forall|value: int| held.to_set().contains(value) implies all.contains(value) by {
            let place = choose|place: int| 0 <= place < held.len() && held[place] == value;
            assert(held[place] == order[place] as int);
        }
    }
    vstd::set_lib::lemma_subset_equality(held.to_set(), all);
    assert forall|item: usize| item < count implies #[trigger] order.contains(item) by {
        assert(all.contains(item as int));
        assert(held.to_set().contains(item as int));
        let place = choose|place: int| 0 <= place < held.len() && held[place] == item as int;
        assert(order[place] == item);
    }
}

proof fn lemma_orders_agree<K: SortKey>(
    keys: Seq<K>,
    first: Seq<usize>,
    second: Seq<usize>,
    count: nat,
)
    requires
        is_stable_order(keys, first),
        is_stable_order(keys, second),
        forall|item: usize| item < keys.len() ==> #[trigger] first.contains(item),
        forall|item: usize| item < keys.len() ==> #[trigger] second.contains(item),
        count <= first.len(),
    ensures
        first.take(count as int) == second.take(count as int),
    decreases count,
{
    if count > 0 {
        let last = count - 1;
        lemma_orders_agree(keys, first, second, last as nat);
        if first[last] != second[last] {
            assert(second.contains(first[last]));
            assert(first.contains(second[last]));
            let in_second = choose|place: int|
                0 <= place < second.len() && second[place] == first[last];
            let in_first = choose|place: int|
                0 <= place < first.len() && first[place] == second[last];
            if in_second < last {
                assert(second.take(last)[in_second] == first.take(last)[in_second]);
                assert(first[in_second] == first[last]);
            }
            if in_first < last {
                assert(second.take(last)[in_first] == first.take(last)[in_first]);
                assert(second[in_first] == second[last]);
            }
            assert(comes_before(keys, second[last] as int, second[in_second] as int));
            assert(comes_before(keys, first[last] as int, first[in_first] as int));
        }
        assert(first.take(count as int) =~= first.take(last).push(first[last]));
        assert(second.take(count as int) =~= second.take(last).push(second[last]));
    } else {
        assert(first.take(0) =~= second.take(0));
    }
}

} // verus!
