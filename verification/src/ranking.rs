//! Depth and reach of the nodes of a graph given by lists of successors.

use vstd::prelude::*;

use crate::graph::{
    is_acyclic, is_depth, is_edge, is_reach, is_reachable, is_walk, law_depth_goes_step_by_step,
    law_reach_goes_step_by_step, lemma_depth_is, reachable_from, Graph,
};
use crate::graph::{
    lemma_acyclic_walk_is_short, lemma_pigeonhole, lemma_walk_append, lemma_walk_part,
    lemma_walk_prepend,
};

use crate::order::lemma_covers_all;
use crate::planner::PlanError;

verus! {

/// The graph whose node `i` has the successors `lists[i]`.
pub open spec fn graph_of(lists: Seq<Vec<usize>>) -> Graph {
    Seq::new(
        lists.len(),
        |node: int|
            Set::new(|to: int| exists|at: int| 0 <= at < lists[node]@.len() && lists[node]@[at] == to),
    )
}

/// Whether every listed successor is a node.
pub open spec fn lists_are_closed(lists: Seq<Vec<usize>>) -> bool {
    forall|node: int, at: int|
        0 <= node < lists.len() && 0 <= at < lists[node]@.len() ==> #[trigger] lists[node]@[at]
            < lists.len()
}

/// How often the first `upto` items of a list are `to`.
spec fn times(list: Seq<usize>, upto: nat, to: usize) -> nat
    decreases upto,
{
    if upto == 0 {
        0
    } else {
        let earlier = times(list, (upto - 1) as nat, to);
        if list[upto - 1] == to {
            earlier + 1
        } else {
            earlier
        }
    }
}

/// An item occurs exactly where it is counted, at most once for each place, and no less often in a
/// longer part of the list.
proof fn lemma_times(list: Seq<usize>, upto: nat, to: usize)
    requires
        upto <= list.len(),
    ensures
        times(list, upto, to) <= upto,
        times(list, upto, to) <= times(list, list.len(), to),
        times(list, list.len(), to) > 0 <==> list.contains(to),
    decreases list.len() - upto,
{
    lemma_times_of_front(list, upto, to);
    if upto < list.len() {
        lemma_times(list, upto + 1, to);
    }
}

proof fn lemma_times_of_front(list: Seq<usize>, upto: nat, to: usize)
    requires
        upto <= list.len(),
    ensures
        times(list, upto, to) <= upto,
        times(list, upto, to) > 0 <==> exists|place: int| 0 <= place < upto && list[place] == to,
    decreases upto,
{
    if upto > 0 {
        lemma_times_of_front(list, (upto - 1) as nat, to);
        if list[upto - 1] == to {
            assert(exists|place: int| 0 <= place < upto && list[place] == to);
        }
    }
}

/// How often the lists of those of the first `upto` nodes that are not done yet name `to`.
spec fn open_sources(lists: Seq<Vec<usize>>, done: Seq<bool>, upto: nat, to: usize) -> nat
    decreases upto,
{
    if upto == 0 {
        0
    } else {
        let node = upto - 1;
        let earlier = open_sources(lists, done, node as nat, to);
        if !done[node] {
            earlier + times(lists[node]@, lists[node]@.len(), to)
        } else {
            earlier
        }
    }
}

proof fn lemma_open_sources_bounded(lists: Seq<Vec<usize>>, done: Seq<bool>, upto: nat, to: usize)
    ensures
        open_sources(lists, done, upto, to) <= upto * usize::MAX,
    decreases upto,
{
    if upto > 0 {
        let before = (upto - 1) as nat;
        lemma_open_sources_bounded(lists, done, before, to);
        let last = lists[upto - 1];
        assert(last@.len() == last.len());
        lemma_times(last@, last@.len(), to);
        assert(upto * usize::MAX == before * usize::MAX + usize::MAX) by (nonlinear_arith)
            requires
                upto == before + 1,
        ;
    }
}

/// Finishing a node takes it from the open sources of its successors and of no other node.
proof fn lemma_open_sources_finish(
    lists: Seq<Vec<usize>>,
    done: Seq<bool>,
    upto: nat,
    node: int,
    to: usize,
)
    requires
        upto <= lists.len(),
        lists.len() == done.len(),
        0 <= node < lists.len(),
        !done[node],
    ensures
        open_sources(lists, done, upto, to) == open_sources(
            lists,
            done.update(node, true),
            upto,
            to,
        ) + if node < upto {
            times(lists[node]@, lists[node]@.len(), to)
        } else {
            0nat
        },
    decreases upto,
{
    if upto > 0 {
        lemma_open_sources_finish(lists, done, (upto - 1) as nat, node, to);
    }
}

/// A node has no open sources exactly when all nodes that lead to it are done.
proof fn lemma_no_open_sources(lists: Seq<Vec<usize>>, done: Seq<bool>, upto: nat, to: usize)
    ensures
        open_sources(lists, done, upto, to) == 0 <==> forall|node: int|
            0 <= node < upto && #[trigger] lists[node]@.contains(to) ==> done[node],
    decreases upto,
{
    if upto > 0 {
        lemma_no_open_sources(lists, done, (upto - 1) as nat, to);
        let node = upto - 1;
        lemma_times(lists[node]@, lists[node]@.len(), to);
        if open_sources(lists, done, upto, to) > 0 && open_sources(lists, done, node as nat, to)
            == 0 {
            assert(lists[node]@.contains(to));
        }
    }
}

/// The edges are the listed ones.
pub proof fn lemma_edge_is_listed(lists: Seq<Vec<usize>>, from: int, to: int)
    requires
        lists.len() <= usize::MAX,
        lists_are_closed(lists),
    ensures
        is_edge(graph_of(lists), from, to) <==> 0 <= from < lists.len() && 0 <= to < lists.len()
            && lists[from]@.contains(to as usize),
{
    if is_edge(graph_of(lists), from, to) {
        let at = choose|at: int| 0 <= at < lists[from]@.len() && lists[from]@[at] == to;
        assert(lists[from]@[at] == to as usize);
    }
    if 0 <= from < lists.len() && 0 <= to < lists.len() && lists[from]@.contains(to as usize) {
        let at = choose|at: int| 0 <= at < lists[from]@.len() && lists[from]@[at] == to as usize;
        assert(lists[from]@[at] < lists.len());
        assert(lists[from]@[at] == to);
    }
}

/// The successors are the listed ones, nodes or not.
proof fn lemma_successor_is_listed(lists: Seq<Vec<usize>>, from: int, to: int)
    requires
        0 <= from < lists.len(),
    ensures
        graph_of(lists)[from].contains(to) <==> 0 <= to <= usize::MAX && lists[from]@.contains(
            to as usize,
        ),
{
    if graph_of(lists)[from].contains(to) {
        let at = choose|at: int| 0 <= at < lists[from]@.len() && lists[from]@[at] == to;
        assert(lists[from]@[at] == to as usize);
    }
    if 0 <= to <= usize::MAX && lists[from]@.contains(to as usize) {
        let at = choose|at: int| 0 <= at < lists[from]@.len() && lists[from]@[at] == to as usize;
        assert(lists[from]@[at] == to);
    }
}

/// What is listed is a node.
pub proof fn lemma_listed_is_node(lists: Seq<Vec<usize>>, from: int, to: int)
    requires
        lists_are_closed(lists),
        0 <= from < lists.len(),
    ensures
        graph_of(lists)[from].contains(to) ==> 0 <= to < lists.len(),
{
    if graph_of(lists)[from].contains(to) {
        let at = choose|at: int| 0 <= at < lists[from]@.len() && lists[from]@[at] == to;
        assert(lists[from]@[at] < lists.len());
    }
}

/// The first listed successor that is no node, if there is one.
fn find_unknown_dependent(lists: &Vec<Vec<usize>>) -> (unknown: Option<usize>)
    ensures
        unknown is None <==> lists_are_closed(lists@),
        unknown matches Some(to) ==> to >= lists@.len() && exists|node: int|
            0 <= node < lists@.len() && #[trigger] lists@[node]@.contains(to),
{
    let mut node: usize = 0;
    while node < lists.len()
        invariant
            node <= lists@.len(),
            forall|earlier: int, at: int|
                0 <= earlier < node && 0 <= at < lists@[earlier]@.len()
                    ==> #[trigger] lists@[earlier]@[at] < lists@.len(),
        decreases lists@.len() - node,
    {
        let mut at: usize = 0;
        while at < lists[node].len()
            invariant
                node < lists@.len(),
                at <= lists@[node as int]@.len(),
                forall|before: int| 0 <= before < at ==> #[trigger] lists@[node as int]@[before]
                    < lists@.len(),
            decreases lists@[node as int]@.len() - at,
        {
            let to: usize = lists[node][at];
            if to >= lists.len() {
                assert(lists@[node as int]@[at as int] == to);
                assert(lists@[node as int]@.contains(to));
                assert(exists|node: int|
                    0 <= node < lists@.len() && #[trigger] lists@[node]@.contains(to));
                return Some(to);
            }
            at += 1;
        }
        node += 1;
    }
    None
}

/// Whether every node of `topo` stands behind all nodes that lead to it.
spec fn sources_stand_before(lists: Seq<Vec<usize>>, topo: Seq<usize>) -> bool {
    forall|place: int, node: int|
        0 <= place < topo.len() && 0 <= node < lists.len() && #[trigger] lists[node]@.contains(
            #[trigger] topo[place],
        ) ==> exists|before: int| 0 <= before < place && topo[before] == node
}

/// For each node how often the lists name it.
fn count_sources(lists: &Vec<Vec<usize>>) -> (counts: Vec<u128>)
    requires
        lists_are_closed(lists@),
    ensures
        counts@.len() == lists@.len(),
        forall|to: usize|
            to < lists@.len() ==> #[trigger] counts@[to as int] == open_sources(
                lists@,
                Seq::new(lists@.len(), |node: int| false),
                lists@.len(),
                to,
            ),
{
    let ghost none = Seq::new(lists@.len(), |node: int| false);
    let mut counts: Vec<u128> = Vec::new();
    while counts.len() < lists.len()
        invariant
            counts@.len() <= lists@.len(),
            forall|at: int| 0 <= at < counts@.len() ==> #[trigger] counts@[at] == 0,
        decreases lists@.len() - counts@.len(),
    {
        counts.push(0);
    }
    let mut node: usize = 0;
    while node < lists.len()
        invariant
            node <= lists@.len(),
            counts@.len() == lists@.len(),
            lists_are_closed(lists@),
            none == Seq::new(lists@.len(), |node: int| false),
            forall|to: usize|
                to < lists@.len() ==> #[trigger] counts@[to as int] == open_sources(
                    lists@,
                    none,
                    node as nat,
                    to,
                ),
        decreases lists@.len() - node,
    {
        let ghost list = lists@[node as int]@;
        let mut at: usize = 0;
        while at < lists[node].len()
            invariant
                node < lists@.len(),
                at <= list.len(),
                list == lists@[node as int]@,
                counts@.len() == lists@.len(),
                lists_are_closed(lists@),
                forall|to: usize|
                    to < lists@.len() ==> #[trigger] counts@[to as int] == open_sources(
                        lists@,
                        none,
                        node as nat,
                        to,
                    ) + times(list, at as nat, to),
            decreases list.len() - at,
        {
            let to: usize = lists[node][at];
            proof {
                assert(lists@[node as int]@[at as int] == to);
                lemma_open_sources_bounded(lists@, none, node as nat, to);
                lemma_times(list, at as nat, to);
                assert(lists@.len() == lists.len());
                lemma_count_fits(node, at);
            }
            counts.set(to, counts[to] + 1);
            at += 1;
        }
        proof {
            assert(none[node as int] == false);
        }
        node += 1;
    }
    counts
}

/// There is room to count what all lists before `node` and the first `at` items of its own name.
proof fn lemma_count_fits(node: usize, at: usize)
    requires
        node < usize::MAX,
        at < usize::MAX,
    ensures
        node * usize::MAX + at < u128::MAX,
{
    assert(node * usize::MAX + at < 0x1_0000_0000_0000_0000 * 0x1_0000_0000_0000_0000)
        by (nonlinear_arith)
        requires
            0 <= node < 0xffff_ffff_ffff_ffff,
            0 <= at < 0xffff_ffff_ffff_ffff,
            0 <= usize::MAX <= 0xffff_ffff_ffff_ffff,
    ;
}

/// What one more element adds to the members of the front of a list.
proof fn lemma_take_next(list: Seq<usize>, at: int)
    requires
        0 <= at < list.len(),
    ensures
        forall|value: usize| #[trigger]
            list.take(at + 1).contains(value) <==> list.take(at).contains(value) || value
                == list[at],
        list.no_duplicates() ==> !list.take(at).contains(list[at]),
{
    let front = list.take(at);
    let longer = list.take(at + 1);
    assert(longer =~= front.push(list[at]));
    assert forall|value: usize| #[trigger] longer.contains(value) <==> front.contains(value)
        || value == list[at] by {
        if front.contains(value) {
            let place = choose|place: int| 0 <= place < front.len() && front[place] == value;
            assert(longer[place] == value);
        }
        if value == list[at] {
            assert(longer[at] == value);
        }
        if longer.contains(value) && value != list[at] {
            let place = choose|place: int| 0 <= place < longer.len() && longer[place] == value;
            assert(front[place] == value);
        }
    }
}

/// The nodes in an order in which every node stands behind all nodes that lead to it, as far as
/// there is one: the nodes that a cycle leads to are left out.
fn topological_order(lists: &Vec<Vec<usize>>) -> (topo: Vec<usize>)
    requires
        lists_are_closed(lists@),
    ensures
        topo@.no_duplicates(),
        forall|place: int| 0 <= place < topo@.len() ==> #[trigger] topo@[place] < lists@.len(),
        sources_stand_before(lists@, topo@),
        topo@.len() <= lists@.len(),
        topo@.len() == lists@.len() <==> is_acyclic(graph_of(lists@)),
{
    let mut counts = count_sources(lists);
    let ghost mut done: Seq<bool> = Seq::new(lists@.len(), |node: int| false);
    let mut topo: Vec<usize> = Vec::new();
    let mut node: usize = 0;
    while node < lists.len()
        invariant
            node <= lists@.len(),
            counts@.len() == lists@.len(),
            done == Seq::new(lists@.len(), |node: int| false),
            forall|to: usize|
                to < lists@.len() ==> #[trigger] counts@[to as int] == open_sources(
                    lists@,
                    done,
                    lists@.len(),
                    to,
                ),
            topo@.no_duplicates(),
            forall|place: int| 0 <= place < topo@.len() ==> #[trigger] topo@[place] < node,
            forall|to: usize|
                to < node ==> (#[trigger] topo@.contains(to) <==> counts@[to as int] == 0),
        decreases lists@.len() - node,
    {
        let ghost before = topo@;
        if counts[node] == 0 {
            topo.push(node);
            proof {
                lemma_push_member(before, node);
            }
        }
        node += 1;
    }
    proof {
        assert forall|place: int, node: int|
            0 <= place < topo@.len() && 0 <= node < lists@.len() && #[trigger] lists@[node]@.contains(
                #[trigger] topo@[place],
            ) implies exists|before: int| 0 <= before < place && topo@[before] == node by {
            assert(topo@.contains(topo@[place]));
            lemma_no_open_sources(lists@, done, lists@.len(), topo@[place]);
            assert(done[node]);
        }
    }
    let mut head: usize = 0;
    while head < topo.len()
        invariant
            lists_are_closed(lists@),
            head <= topo@.len(),
            counts@.len() == lists@.len(),
            done.len() == lists@.len(),
            topo@.no_duplicates(),
            forall|place: int| 0 <= place < topo@.len() ==> #[trigger] topo@[place] < lists@.len(),
            forall|node: usize|
                node < lists@.len() ==> (done[node as int] <==> #[trigger] topo@.take(
                    head as int,
                ).contains(node)),
            forall|to: usize|
                to < lists@.len() ==> #[trigger] counts@[to as int] == open_sources(
                    lists@,
                    done,
                    lists@.len(),
                    to,
                ),
            forall|to: usize|
                to < lists@.len() ==> (#[trigger] topo@.contains(to) <==> counts@[to as int] == 0),
            sources_stand_before(lists@, topo@),
        decreases lists@.len() - head,
    {
        proof {
            lemma_list_is_short(topo@, lists@.len());
        }
        let from: usize = topo[head];
        let ghost old_topo = topo@;
        let ghost list = lists@[from as int]@;
        let ghost old_done = done;
        proof {
            lemma_take_next(topo@, head as int);
            assert(!old_done[from as int]);
            done = done.update(from as int, true);
            assert forall|to: usize| to < lists@.len() implies #[trigger] counts@[to as int]
                == open_sources(lists@, done, lists@.len(), to) + times(list, list.len(), to) by {
                lemma_open_sources_finish(lists@, old_done, lists@.len(), from as int, to);
            }
        }
        let mut at: usize = 0;
        while at < lists[from].len()
            invariant
                lists_are_closed(lists@),
                from < lists@.len(),
                list == lists@[from as int]@,
                at <= list.len(),
                counts@.len() == lists@.len(),
                done.len() == lists@.len(),
                head < old_topo.len(),
                old_topo.len() <= topo@.len(),
                topo@.take(old_topo.len() as int) == old_topo,
                topo@.no_duplicates(),
                forall|place: int|
                    0 <= place < topo@.len() ==> #[trigger] topo@[place] < lists@.len(),
                forall|node: usize|
                    node < lists@.len() ==> (done[node as int] <==> #[trigger] old_topo.take(
                        head + 1,
                    ).contains(node)),
                forall|to: usize|
                    to < lists@.len() ==> #[trigger] counts@[to as int] == open_sources(
                        lists@,
                        done,
                        lists@.len(),
                        to,
                    ) + times(list, list.len(), to) - times(list, at as nat, to),
                forall|to: usize|
                    to < lists@.len() ==> (#[trigger] topo@.contains(to) <==> counts@[to as int]
                        == 0),
                sources_stand_before(lists@, topo@),
            decreases list.len() - at,
        {
            let to: usize = lists[from][at];
            let ghost before = topo@;
            proof {
                assert(lists@[from as int]@[at as int] == to);
                lemma_times(list, at as nat + 1, to);
                assert(!before.contains(to));
            }
            counts.set(to, counts[to] - 1);
            if counts[to] == 0 {
                topo.push(to);
                proof {
                    lemma_push_member(before, to);
                    assert(topo@.take(old_topo.len() as int) =~= before.take(
                        old_topo.len() as int,
                    ));
                    lemma_no_open_sources(lists@, done, lists@.len(), to);
                    assert(lists@.len() == lists.len());
                    lemma_pushed_behind_sources(lists@, before, done, old_topo.take(head + 1), to);
                }
            }
            at += 1;
        }
        proof {
            assert(topo@.take(head + 1) =~= old_topo.take(head + 1)) by {
                assert(old_topo =~= topo@.take(old_topo.len() as int));
            }
        }
        head += 1;
    }
    proof {
        lemma_list_is_short(topo@, lists@.len());
        assert(topo@.take(head as int) =~= topo@);
        if topo@.len() == lists@.len() {
            lemma_ordered_is_acyclic(lists@, topo@);
        } else {
            lemma_unordered_has_cycle(lists@, topo@, done);
        }
    }
    topo
}

/// What a pushed item adds to the members of a list.
pub proof fn lemma_push_member(list: Seq<usize>, item: usize)
    ensures
        forall|value: usize| #[trigger]
            list.push(item).contains(value) <==> list.contains(value) || value == item,
        list.no_duplicates() && !list.contains(item) ==> list.push(item).no_duplicates(),
{
    let longer = list.push(item);
    assert forall|value: usize| #[trigger] longer.contains(value) <==> list.contains(value)
        || value == item by {
        if list.contains(value) {
            let place = choose|place: int| 0 <= place < list.len() && list[place] == value;
            assert(longer[place] == value);
        }
        if value == item {
            assert(longer[list.len() as int] == value);
        }
    }
}

/// A list of different nodes is no longer than there are nodes.
proof fn lemma_list_is_short(list: Seq<usize>, count: nat)
    requires
        list.no_duplicates(),
        forall|place: int| 0 <= place < list.len() ==> #[trigger] list[place] < count,
    ensures
        list.len() <= count,
{
    let numbers = list.map_values(|value: usize| value as int);
    assert forall|at: int| 0 <= at < numbers.len() implies 0 <= #[trigger] numbers[at]
        < count by {
        assert(numbers[at] == list[at]);
    }
    lemma_pigeonhole(numbers, count);
}

/// A node whose sources are all done may stand behind them.
proof fn lemma_pushed_behind_sources(
    lists: Seq<Vec<usize>>,
    topo: Seq<usize>,
    done: Seq<bool>,
    finished: Seq<usize>,
    to: usize,
)
    requires
        lists.len() <= usize::MAX,
        sources_stand_before(lists, topo),
        forall|node: int|
            0 <= node < lists.len() && #[trigger] lists[node]@.contains(to) ==> done[node],
        forall|node: usize|
            node < lists.len() ==> (done[node as int] <==> #[trigger] finished.contains(node)),
        finished.len() <= topo.len(),
        finished =~= topo.take(finished.len() as int),
    ensures
        sources_stand_before(lists, topo.push(to)),
{
    let longer = topo.push(to);
    assert forall|place: int, node: int|
        0 <= place < longer.len() && 0 <= node < lists.len() && #[trigger] lists[node]@.contains(
            #[trigger] longer[place],
        ) implies exists|before: int| 0 <= before < place && longer[before] == node by {
        if place < topo.len() {
            assert(longer[place] == topo[place]);
            assert(lists[node]@.contains(topo[place]));
            let before = choose|before: int| 0 <= before < place && topo[before] == node;
            assert(longer[before] == node);
        } else {
            assert(done[node]);
            assert(finished.contains(node as usize));
            let before = choose|before: int|
                0 <= before < finished.len() && finished[before] == node as usize;
            assert(longer[before] == node);
        }
    }
}

/// Along a walk the places of the nodes in such an order grow.
proof fn lemma_walk_places_grow(lists: Seq<Vec<usize>>, topo: Seq<usize>, walk: Seq<int>) -> (places:
    Seq<int>)
    requires
        lists.len() <= usize::MAX,
        lists_are_closed(lists),
        topo.no_duplicates(),
        sources_stand_before(lists, topo),
        forall|node: usize| node < lists.len() ==> #[trigger] topo.contains(node),
        is_walk(graph_of(lists), walk),
    ensures
        places.len() == walk.len(),
        forall|at: int|
            0 <= at < places.len() ==> 0 <= #[trigger] places[at] < topo.len()
                && topo[places[at]] == walk[at],
        places.first() + walk.len() - 1 <= places.last(),
    decreases walk.len(),
{
    let last = walk.last();
    assert(walk[walk.len() - 1] == last);
    assert(topo.contains(last as usize));
    let place = choose|place: int| 0 <= place < topo.len() && topo[place] == last as usize;
    if walk.len() == 1 {
        seq![place]
    } else {
        lemma_walk_part(graph_of(lists), walk, 0, walk.len() - 1);
        let front = walk.subrange(0, walk.len() - 1);
        let places = lemma_walk_places_grow(lists, topo, front);
        let from = walk[walk.len() - 2];
        assert(is_edge(graph_of(lists), walk[walk.len() - 2], walk[walk.len() - 1]));
        lemma_edge_is_listed(lists, from, last);
        assert(lists[from]@.contains(topo[place]));
        let before = choose|before: int| 0 <= before < place && topo[before] == from;
        assert(topo[places.last()] == front[front.len() - 1]);
        assert(before == places.last());
        let all = places.push(place);
        assert(all.first() == places.first());
        all
    }
}

proof fn lemma_ordered_is_acyclic(lists: Seq<Vec<usize>>, topo: Seq<usize>)
    requires
        lists.len() <= usize::MAX,
        lists_are_closed(lists),
        topo.no_duplicates(),
        forall|place: int| 0 <= place < topo.len() ==> #[trigger] topo[place] < lists.len(),
        sources_stand_before(lists, topo),
        topo.len() == lists.len(),
    ensures
        is_acyclic(graph_of(lists)),
{
    lemma_covers_all(topo, lists.len());
    assert forall|walk: Seq<int>| #[trigger]
        is_walk(graph_of(lists), walk) && walk.len() >= 2 implies walk.first() != walk.last() by {
        let places = lemma_walk_places_grow(lists, topo, walk);
        assert(topo[places[0]] == walk[0]);
        assert(topo[places[places.len() - 1]] == walk[walk.len() - 1]);
    }
}

/// Where every node that is not done has a source that is not done, walks of any length end at
/// such a node.
proof fn lemma_long_walk(
    lists: Seq<Vec<usize>>,
    done: Seq<bool>,
    end: int,
    length: nat,
) -> (walk: Seq<int>)
    requires
        lists.len() <= usize::MAX,
        lists_are_closed(lists),
        forall|to: usize|
            to < lists.len() && !done[to as int] ==> #[trigger] open_sources(
                lists,
                done,
                lists.len(),
                to,
            ) > 0,
        0 <= end < lists.len(),
        !done[end],
        length >= 1,
    ensures
        is_walk(graph_of(lists), walk),
        walk.len() == length,
        walk.last() == end,
    decreases length,
{
    if length == 1 {
        seq![end]
    } else {
        assert(open_sources(lists, done, lists.len(), end as usize) > 0);
        lemma_no_open_sources(lists, done, lists.len(), end as usize);
        let from = choose|from: int|
            0 <= from < lists.len() && #[trigger] lists[from]@.contains(end as usize)
                && !done[from];
        let front = lemma_long_walk(lists, done, from, (length - 1) as nat);
        lemma_edge_is_listed(lists, from, end);
        lemma_walk_append(graph_of(lists), front, end);
        front.push(end)
    }
}

proof fn lemma_unordered_has_cycle(lists: Seq<Vec<usize>>, topo: Seq<usize>, done: Seq<bool>)
    requires
        lists.len() <= usize::MAX,
        lists_are_closed(lists),
        done.len() == lists.len(),
        topo.len() < lists.len(),
        topo.no_duplicates(),
        forall|place: int| 0 <= place < topo.len() ==> #[trigger] topo[place] < lists.len(),
        forall|node: usize|
            node < lists.len() ==> (done[node as int] <==> #[trigger] topo.contains(node)),
        forall|to: usize|
            to < lists.len() ==> (#[trigger] topo.contains(to) <==> open_sources(
                lists,
                done,
                lists.len(),
                to,
            ) == 0),
    ensures
        !is_acyclic(graph_of(lists)),
{
    assert(exists|node: usize| node < lists.len() && !#[trigger] topo.contains(node)) by {
        if forall|node: usize| node < lists.len() ==> #[trigger] topo.contains(node) {
            let all = Seq::new(lists.len(), |at: int| at as usize);
            let held = topo.to_set();
            topo.unique_seq_to_set();
            assert(all.no_duplicates());
            all.unique_seq_to_set();
            assert(all.to_set().subset_of(held)) by {
                assert forall|node: usize| all.to_set().contains(node) implies held.contains(
                    node,
                ) by {
                    let at = choose|at: int| 0 <= at < all.len() && all[at] == node;
                    assert(topo.contains(node));
                }
            }
            vstd::set_lib::lemma_len_subset(all.to_set(), held);
        }
    }
    let node = choose|node: usize| node < lists.len() && !#[trigger] topo.contains(node);
    assert forall|to: usize| to < lists.len() && !done[to as int] implies #[trigger] open_sources(
        lists,
        done,
        lists.len(),
        to,
    ) > 0 by {
        assert(!topo.contains(to));
    }
    let walk = lemma_long_walk(lists, done, node as int, lists.len() + 1);
    if is_acyclic(graph_of(lists)) {
        lemma_acyclic_walk_is_short(graph_of(lists), walk);
    }
}

/// The depth of every node: the number of edges of the longest walk that starts there.
///
/// Fails where a list names a node that does not exist, and where the graph has a cycle.
pub fn compute_downstream_depth(downstreams: &Vec<Vec<usize>>) -> (result: Result<
    Vec<usize>,
    PlanError,
>)
    ensures
        match result {
            Ok(depths) => {
                &&& lists_are_closed(downstreams@)
                &&& is_acyclic(graph_of(downstreams@))
                &&& depths@.len() == downstreams@.len()
                &&& forall|node: int|
                    0 <= node < depths@.len() ==> is_depth(
                        graph_of(downstreams@),
                        node,
                        #[trigger] depths@[node] as nat,
                    )
            },
            Err(PlanError::UnknownDependent(to)) => {
                &&& to >= downstreams@.len()
                &&& exists|node: int|
                    0 <= node < downstreams@.len() && #[trigger] downstreams@[node]@.contains(to)
            },
            Err(error) => {
                &&& error == PlanError::Cycle
                &&& lists_are_closed(downstreams@)
                &&& !is_acyclic(graph_of(downstreams@))
            },
        },
{
    if let Some(to) = find_unknown_dependent(downstreams) {
        return Err(PlanError::UnknownDependent(to));
    }
    let count: usize = downstreams.len();
    let topo = topological_order(downstreams);
    if topo.len() != count {
        return Err(PlanError::Cycle);
    }
    proof {
        lemma_covers_all(topo@, count as nat);
    }
    let mut depths: Vec<usize> = Vec::new();
    while depths.len() < count
        invariant
            depths@.len() <= count,
        decreases count - depths@.len(),
    {
        depths.push(0);
    }
    let mut place: usize = count;
    while place > 0
        invariant
            lists_are_closed(downstreams@),
            count == downstreams@.len(),
            count == topo@.len(),
            count == depths@.len(),
            place <= count,
            topo@.no_duplicates(),
            sources_stand_before(downstreams@, topo@),
            forall|at: int| 0 <= at < topo@.len() ==> #[trigger] topo@[at] < count,
            forall|node: usize| node < count ==> #[trigger] topo@.contains(node),
            forall|at: int|
                place <= at < count ==> {
                    &&& is_depth(
                        graph_of(downstreams@),
                        #[trigger] topo@[at] as int,
                        depths@[topo@[at] as int] as nat,
                    )
                    &&& depths@[topo@[at] as int] < count - at
                },
        decreases place,
    {
        place -= 1;
        let node: usize = topo[place];
        let ghost list = downstreams@[node as int]@;
        let mut deepest: usize = 0;
        let ghost mut deepest_at: int = -1;
        let mut at: usize = 0;
        while at < downstreams[node].len()
            invariant
                lists_are_closed(downstreams@),
                count == downstreams@.len(),
                count == topo@.len(),
                count == depths@.len(),
                place < count,
                node == topo@[place as int],
                node < count,
                list == downstreams@[node as int]@,
                at <= list.len(),
                sources_stand_before(downstreams@, topo@),
                topo@.no_duplicates(),
                forall|at: int| 0 <= at < topo@.len() ==> #[trigger] topo@[at] < count,
                forall|node: usize| node < count ==> #[trigger] topo@.contains(node),
                forall|later: int|
                    place < later < count ==> {
                        &&& is_depth(
                            graph_of(downstreams@),
                            #[trigger] topo@[later] as int,
                            depths@[topo@[later] as int] as nat,
                        )
                        &&& depths@[topo@[later] as int] < count - later
                    },
                forall|before: int|
                    0 <= before < at ==> {
                        &&& is_depth(
                            graph_of(downstreams@),
                            #[trigger] list[before] as int,
                            depths@[list[before] as int] as nat,
                        )
                        &&& depths@[list[before] as int] <= deepest
                    },
                at > 0 ==> 0 <= deepest_at < at && depths@[list[deepest_at] as int] == deepest,
                at == 0 ==> deepest == 0,
                at > 0 ==> deepest < count - place - 1,
            decreases list.len() - at,
        {
            let to: usize = downstreams[node][at];
            proof {
                assert(downstreams@[node as int]@[at as int] == to);
                assert(topo@.contains(to));
                let later = choose|later: int| 0 <= later < topo@.len() && topo@[later] == to;
                assert(downstreams@[node as int]@.contains(topo@[later]));
                let before = choose|before: int| 0 <= before < later && topo@[before] == node;
                assert(before == place);
            }
            if at == 0 || depths[to] > deepest {
                deepest = depths[to];
                proof {
                    deepest_at = at as int;
                }
            }
            at += 1;
        }
        let next_depth: usize = if downstreams[node].len() > 0 {
            deepest + 1
        } else {
            0
        };
        proof {
            lemma_depth_from_successors(
                downstreams@,
                node as int,
                depths@,
                deepest_at,
                next_depth as nat,
            );
        }
        depths.set(node, next_depth);
    }
    proof {
        assert forall|node: int| 0 <= node < depths@.len() implies is_depth(
            graph_of(downstreams@),
            node,
            #[trigger] depths@[node] as nat,
        ) by {
            assert(topo@.contains(node as usize));
            let at = choose|at: int| 0 <= at < topo@.len() && topo@[at] == node as usize;
            assert(is_depth(
                graph_of(downstreams@),
                topo@[at] as int,
                depths@[topo@[at] as int] as nat,
            ));
        }
    }
    Ok(depths)
}

/// A node lies one step deeper than the deepest of its successors; a node without any has depth 0.
proof fn lemma_depth_from_successors(
    lists: Seq<Vec<usize>>,
    node: int,
    depths: Seq<usize>,
    deepest_at: int,
    edges: nat,
)
    requires
        lists.len() <= usize::MAX,
        lists_are_closed(lists),
        0 <= node < lists.len(),
        forall|at: int|
            0 <= at < lists[node]@.len() ==> is_depth(
                graph_of(lists),
                #[trigger] lists[node]@[at] as int,
                depths[lists[node]@[at] as int] as nat,
            ) && depths[lists[node]@[at] as int] < edges,
        lists[node]@.len() > 0 ==> 0 <= deepest_at < lists[node]@.len()
            && depths[lists[node]@[deepest_at] as int] + 1 == edges,
        lists[node]@.len() == 0 ==> edges == 0,
    ensures
        is_depth(graph_of(lists), node, edges),
{
    let graph = graph_of(lists);
    let list = lists[node]@;
    if list.len() == 0 {
        let walk = seq![node];
        assert(is_walk(graph, walk) && walk.first() == node && walk.len() == 1);
    } else {
        let to = list[deepest_at];
        assert(is_depth(graph, to as int, depths[to as int] as nat));
        let rest = choose|walk: Seq<int>| #[trigger]
            is_walk(graph, walk) && walk.first() == to && walk.len() == depths[to as int] + 1;
        assert(list.contains(to));
        lemma_edge_is_listed(lists, node, to as int);
        lemma_walk_prepend(graph, node, rest);
        let walk = seq![node] + rest;
        assert(is_walk(graph, walk) && walk.first() == node && walk.len() == edges + 1);
    }
    assert forall|walk: Seq<int>| #[trigger]
        is_walk(graph, walk) && walk.first() == node implies walk.len() <= edges + 1 by {
        if walk.len() > 1 {
            assert(is_edge(graph, walk[0], walk[1]));
            lemma_edge_is_listed(lists, node, walk[1]);
            let at = choose|at: int| 0 <= at < list.len() && list[at] == walk[1] as usize;
            lemma_walk_part(graph, walk, 1, walk.len() as int);
            let rest = walk.subrange(1, walk.len() as int);
            assert(rest.first() == walk[1]);
            assert(is_depth(graph, list[at] as int, depths[list[at] as int] as nat));
            assert(rest.len() <= depths[list[at] as int] + 1);
        }
    }
}

/// For every node the number of different ends that one or more steps from it lead to. What is
/// listed as a successor counts, node or not; no step leads on from what is no node.
pub fn compute_downstream_reach(downstreams: &Vec<Vec<usize>>) -> (reaches: Vec<usize>)
    ensures
        reaches@.len() == downstreams@.len(),
        forall|node: int|
            0 <= node < reaches@.len() ==> is_reach(
                graph_of(downstreams@),
                node,
                #[trigger] reaches@[node] as nat,
            ),
{
    let mut reaches: Vec<usize> = Vec::new();
    while reaches.len() < downstreams.len()
        invariant
            reaches@.len() <= downstreams@.len(),
            forall|node: int|
                0 <= node < reaches@.len() ==> is_reach(
                    graph_of(downstreams@),
                    node,
                    #[trigger] reaches@[node] as nat,
                ),
        decreases downstreams@.len() - reaches@.len(),
    {
        let node: usize = reaches.len();
        let reach: usize = reach_of(downstreams, node);
        reaches.push(reach);
    }
    reaches
}

/// The number of different ends that one or more steps from `node` lead to.
fn reach_of(downstreams: &Vec<Vec<usize>>, node: usize) -> (reach: usize)
    requires
        node < downstreams@.len(),
    ensures
        is_reach(graph_of(downstreams@), node as int, reach as nat),
{
    let count: usize = downstreams.len();
    let ghost graph = graph_of(downstreams@);
    let mut seen: Vec<bool> = Vec::new();
    while seen.len() < count
        invariant
            seen@.len() <= count,
            forall|at: int| 0 <= at < seen@.len() ==> !#[trigger] seen@[at],
        decreases count - seen@.len(),
    {
        seen.push(false);
    }
    // What was found so far; the nodes before `head` have had their own successors looked at.
    let mut found: Vec<usize> = Vec::new();
    add_unseen(&downstreams[node], &mut seen, &mut found);
    proof {
        let start = seq![node as int];
        assert(is_walk(graph, start) && start.first() == node && start.last() == node);
        assert forall|place: int| 0 <= place < found@.len() implies is_reachable(
            graph,
            node as int,
            #[trigger] found@[place] as int,
        ) by {
            assert(found@.contains(found@[place]));
            lemma_successor_is_listed(downstreams@, node as int, found@[place] as int);
        }
    }
    let mut head: usize = 0;
    while head < found.len()
        invariant
            graph == graph_of(downstreams@),
            count == downstreams@.len(),
            node < count,
            head <= found@.len(),
            seen@.len() == count,
            found@.no_duplicates(),
            forall|to: usize| to < count ==> (seen@[to as int] <==> #[trigger] found@.contains(to)),
            forall|place: int|
                0 <= place < found@.len() ==> is_reachable(
                    graph,
                    node as int,
                    #[trigger] found@[place] as int,
                ),
            forall|to: usize|
                downstreams@[node as int]@.contains(to) ==> #[trigger] found@.contains(to),
            forall|place: int, to: usize|
                0 <= place < head && found@[place] < count
                    && #[trigger] downstreams@[found@[place] as int]@.contains(to)
                    ==> found@.contains(to),
        decreases usize::MAX - head,
    {
        let current: usize = found[head];
        let ghost before = found@;
        if current < count {
            add_unseen(&downstreams[current], &mut seen, &mut found);
        }
        proof {
            assert(found@.take(before.len() as int) =~= before);
            assert forall|place: int| 0 <= place < found@.len() implies is_reachable(
                graph,
                node as int,
                #[trigger] found@[place] as int,
            ) by {
                let to = found@[place];
                assert(found@.contains(to));
                if before.contains(to) {
                    let earlier = choose|earlier: int|
                        0 <= earlier < before.len() && before[earlier] == to;
                    assert(is_reachable(graph, node as int, before[earlier] as int));
                } else {
                    assert(is_reachable(graph, node as int, before[head as int] as int));
                    let walk = choose|walk: Seq<int>| #[trigger]
                        is_walk(graph, walk) && walk.first() == node && graph[walk.last()].contains(
                            current as int,
                        );
                    assert(0 <= walk[walk.len() - 1] < graph.len());
                    lemma_walk_append(graph, walk, current as int);
                    let longer = walk.push(current as int);
                    lemma_successor_is_listed(downstreams@, current as int, to as int);
                    assert(longer.first() == node && longer.last() == current);
                }
            }
            assert forall|place: int, to: usize|
                0 <= place < head + 1 && found@[place] < count
                    && #[trigger] downstreams@[found@[place] as int]@.contains(
                    to,
                ) implies found@.contains(to) by {
                assert(found@[place] == before[place]);
                if place < head {
                    assert(before.contains(to));
                    let earlier = choose|earlier: int|
                        0 <= earlier < before.len() && before[earlier] == to;
                    assert(found@[earlier] == to);
                }
            }
            assert forall|to: usize| downstreams@[node as int]@.contains(to) implies
                #[trigger] found@.contains(to) by {
                assert(before.contains(to));
            }
        }
        head += 1;
    }
    proof {
        lemma_found_is_reachable(downstreams@, node as int, found@);
    }
    found.len()
}

/// Whether `to` was found. For a node `seen` tells.
fn was_found(to: usize, seen: &Vec<bool>, found: &Vec<usize>) -> (was: bool)
    requires
        forall|to: usize|
            to < seen@.len() ==> (seen@[to as int] <==> #[trigger] found@.contains(to)),
    ensures
        was == found@.contains(to),
{
    if to < seen.len() {
        return seen[to];
    }
    let mut at: usize = 0;
    while at < found.len()
        invariant
            at <= found@.len(),
            forall|before: int| 0 <= before < at ==> #[trigger] found@[before] != to,
        decreases found@.len() - at,
    {
        if found[at] == to {
            assert(found@[at as int] == to);
            return true;
        }
        at += 1;
    }
    false
}

/// Adds what stands in `list` and was not found yet to `found`.
fn add_unseen(list: &Vec<usize>, seen: &mut Vec<bool>, found: &mut Vec<usize>)
    requires
        old(found)@.no_duplicates(),
        forall|to: usize|
            to < old(seen)@.len() ==> (old(seen)@[to as int] <==> #[trigger] old(found)@.contains(
                to,
            )),
    ensures
        final(seen)@.len() == old(seen)@.len(),
        final(found)@.no_duplicates(),
        forall|to: usize|
            to < old(seen)@.len() ==> (final(seen)@[to as int] <==> #[trigger] final(found)@.contains(to)),
        forall|to: usize| #[trigger]
            final(found)@.contains(to) <==> old(found)@.contains(to) || list@.contains(to),
        old(found)@.len() <= final(found)@.len(),
        final(found)@.take(old(found)@.len() as int) == old(found)@,
{
    let ghost first = found@;
    proof {
        assert(list@.take(0) =~= Seq::<usize>::empty());
        assert(first.take(first.len() as int) =~= first);
    }
    let mut at: usize = 0;
    while at < list.len()
        invariant
            at <= list@.len(),
            seen@.len() == old(seen)@.len(),
            found@.no_duplicates(),
            forall|to: usize|
                to < seen@.len() ==> (seen@[to as int] <==> #[trigger] found@.contains(to)),
            forall|to: usize| #[trigger]
                found@.contains(to) <==> first.contains(to) || list@.take(at as int).contains(to),
            first.len() <= found@.len(),
            found@.take(first.len() as int) == first,
            first == old(found)@,
        decreases list@.len() - at,
    {
        let to: usize = list[at];
        proof {
            lemma_take_next(list@, at as int);
        }
        if !was_found(to, seen, found) {
            let ghost before = found@;
            if to < seen.len() {
                seen.set(to, true);
            }
            found.push(to);
            proof {
                lemma_push_member(before, to);
                assert(found@.take(first.len() as int) =~= before.take(first.len() as int));
            }
        }
        at += 1;
    }
    proof {
        assert(list@.take(list@.len() as int) =~= list@);
    }
}

/// A list of what can be reached, if it holds the successors of its start and of its own nodes,
/// holds all that can be reached.
proof fn lemma_found_is_reachable(lists: Seq<Vec<usize>>, node: int, found: Seq<usize>)
    requires
        0 <= node < lists.len(),
        found.no_duplicates(),
        forall|place: int|
            0 <= place < found.len() ==> is_reachable(
                graph_of(lists),
                node,
                #[trigger] found[place] as int,
            ),
        forall|to: usize| lists[node]@.contains(to) ==> #[trigger] found.contains(to),
        forall|place: int, to: usize|
            0 <= place < found.len() && found[place] < lists.len()
                && #[trigger] lists[found[place] as int]@.contains(to) ==> found.contains(to),
    ensures
        is_reach(graph_of(lists), node, found.len()),
{
    let graph = graph_of(lists);
    let numbers = found.map_values(|value: usize| value as int);
    assert(numbers.no_duplicates());
    numbers.unique_seq_to_set();
    assert forall|to: int| reachable_from(graph, node).contains(to) implies
        numbers.to_set().contains(to) by {
        let walk = choose|walk: Seq<int>| #[trigger]
            is_walk(graph, walk) && walk.first() == node && graph[walk.last()].contains(to);
        lemma_end_is_found(lists, node, found, walk, to);
        let place = choose|place: int| 0 <= place < found.len() && found[place] == to as usize;
        assert(numbers[place] == to);
    }
    assert forall|to: int| numbers.to_set().contains(to) implies reachable_from(
        graph,
        node,
    ).contains(to) by {
        let place = choose|place: int| 0 <= place < numbers.len() && numbers[place] == to;
        assert(is_reachable(graph, node, found[place] as int));
    }
    assert(reachable_from(graph, node) =~= numbers.to_set());
}

proof fn lemma_end_is_found(
    lists: Seq<Vec<usize>>,
    node: int,
    found: Seq<usize>,
    walk: Seq<int>,
    to: int,
)
    requires
        forall|to: usize| lists[node]@.contains(to) ==> #[trigger] found.contains(to),
        forall|place: int, to: usize|
            0 <= place < found.len() && found[place] < lists.len()
                && #[trigger] lists[found[place] as int]@.contains(to) ==> found.contains(to),
        is_walk(graph_of(lists), walk),
        walk.first() == node,
        graph_of(lists)[walk.last()].contains(to),
    ensures
        0 <= to <= usize::MAX,
        found.contains(to as usize),
    decreases walk.len(),
{
    let graph = graph_of(lists);
    let from = walk[walk.len() - 1];
    lemma_successor_is_listed(lists, from, to);
    if walk.len() > 1 {
        assert(is_edge(graph, walk[walk.len() - 2], walk[walk.len() - 1]));
        lemma_walk_part(graph, walk, 0, walk.len() - 1);
        let front = walk.subrange(0, walk.len() - 1);
        assert(front.first() == node && front.last() == walk[walk.len() - 2]);
        lemma_end_is_found(lists, node, found, front, from);
        let place = choose|place: int| 0 <= place < found.len() && found[place] == from as usize;
        assert(lists[found[place] as int]@.contains(to as usize));
    }
}

/// The depths of nodes that are given by lists of successors: a node without successors has depth
/// 0, and any other lies one step deeper than the deepest of those that it lists.
pub proof fn law_depths_follow_the_lists(lists: Seq<Vec<usize>>, depths: Seq<usize>, node: int)
    requires
        lists.len() <= usize::MAX,
        lists_are_closed(lists),
        is_acyclic(graph_of(lists)),
        depths.len() == lists.len(),
        forall|at: int|
            0 <= at < depths.len() ==> is_depth(graph_of(lists), at, #[trigger] depths[at] as nat),
        0 <= node < lists.len(),
    ensures
        depths[node] == 0 <==> lists[node]@.len() == 0,
        forall|at: int|
            0 <= at < lists[node]@.len() ==> depths[#[trigger] lists[node]@[at] as int]
                < depths[node],
        depths[node] > 0 ==> exists|at: int|
            0 <= at < lists[node]@.len() && depths[#[trigger] lists[node]@[at] as int] + 1
                == depths[node],
{
    let graph = graph_of(lists);
    let list = lists[node]@;
    assert(is_depth(graph, node, depths[node] as nat));
    law_depth_goes_step_by_step(graph, node, depths[node] as nat);
    assert forall|at: int| 0 <= at < list.len() implies depths[#[trigger] list[at] as int]
        < depths[node] && is_edge(graph, node, list[at] as int) by {
        let to = lists[node]@[at];
        assert(to < lists.len());
        assert(list.contains(to));
        lemma_edge_is_listed(lists, node, to as int);
        assert(is_depth(graph, to as int, depths[to as int] as nat));
    }
    if depths[node] > 0 {
        let next = choose|next: int| #[trigger]
            is_edge(graph, node, next) && is_depth(graph, next, (depths[node] - 1) as nat);
        lemma_edge_is_listed(lists, node, next);
        let at = choose|at: int| 0 <= at < list.len() && list[at] == next as usize;
        assert(is_depth(graph, next, depths[next] as nat));
        lemma_depth_is(graph, next, depths[next] as nat);
        lemma_depth_is(graph, next, (depths[node] - 1) as nat);
        assert(depths[list[at] as int] + 1 == depths[node]);
    } else if list.len() > 0 {
        assert(is_edge(graph, node, list[0] as int));
    }
}

/// What a node reaches, by lists of successors: what it lists, and what that reaches. The reach is
/// the number of it.
pub proof fn law_reaches_follow_the_lists(lists: Seq<Vec<usize>>, reaches: Seq<usize>) -> (sets: Seq<
    Set<int>,
>)
    requires
        reaches.len() == lists.len(),
        forall|at: int|
            0 <= at < reaches.len() ==> is_reach(graph_of(lists), at, #[trigger] reaches[at] as nat),
    ensures
        sets.len() == lists.len(),
        forall|node: int|
            0 <= node < lists.len() ==> (#[trigger] sets[node]).finite() && sets[node].len()
                == reaches[node],
        forall|node: int, to: int|
            0 <= node < lists.len() ==> (#[trigger] sets[node].contains(to) <==> exists|at: int|
                0 <= at < lists[node]@.len() && (#[trigger] lists[node]@[at] == to || (
                lists[node]@[at] < lists.len() && sets[lists[node]@[at] as int].contains(to)))),
{
    let graph = graph_of(lists);
    let sets = Seq::new(lists.len(), |node: int| reachable_from(graph, node));
    assert forall|node: int| 0 <= node < lists.len() implies (#[trigger] sets[node]).finite()
        && sets[node].len() == reaches[node] by {
        assert(is_reach(graph, node, reaches[node] as nat));
    }
    assert forall|node: int, to: int| 0 <= node < lists.len() implies (
    #[trigger] sets[node].contains(to) <==> exists|at: int|
        0 <= at < lists[node]@.len() && (#[trigger] lists[node]@[at] == to || (lists[node]@[at]
            < lists.len() && sets[lists[node]@[at] as int].contains(to)))) by {
        law_reach_goes_step_by_step(graph, node, to);
        if sets[node].contains(to) {
            let next = choose|next: int| #[trigger]
                graph[node].contains(next) && (next == to || (0 <= next < graph.len()
                    && reachable_from(graph, next).contains(to)));
            let at = choose|at: int| 0 <= at < lists[node]@.len() && lists[node]@[at] == next;
            assert(lists[node]@[at] == next);
        }
        if exists|at: int|
            0 <= at < lists[node]@.len() && (#[trigger] lists[node]@[at] == to || (lists[node]@[at]
                < lists.len() && sets[lists[node]@[at] as int].contains(to))) {
            let at = choose|at: int|
                0 <= at < lists[node]@.len() && (#[trigger] lists[node]@[at] == to || (
                lists[node]@[at] < lists.len() && sets[lists[node]@[at] as int].contains(to)));
            assert(graph[node].contains(lists[node]@[at] as int));
        }
    }
    sets
}

} // verus!
