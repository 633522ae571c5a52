//! Graphs that differ in nothing but how their nodes are numbered.

use vstd::prelude::*;

use crate::graph::{
    depth, is_acyclic, is_depth, is_edge, is_reachable, is_walk, lemma_depth_exists, lemma_depth_is,
    reachable_from, reversed, Graph,
};

verus! {

/// Whether `numbers` gives every node of one graph a node of another, and every edge an edge.
pub open spec fn carries(graph: Graph, other: Graph, numbers: Seq<int>) -> bool {
    &&& numbers.len() == graph.len()
    &&& forall|node: int| 0 <= node < numbers.len() ==> 0 <= #[trigger] numbers[node] < other.len()
    &&& forall|from: int, to: int| #[trigger]
        is_edge(graph, from, to) ==> is_edge(other, numbers[from], numbers[to])
}

/// Whether `back` leads from the new number of every node to the old one.
pub open spec fn undoes(numbers: Seq<int>, back: Seq<int>) -> bool {
    forall|node: int| 0 <= node < numbers.len() ==> back[#[trigger] numbers[node]] == node
}

/// Whether no edge leads out of a graph.
pub open spec fn is_closed(graph: Graph) -> bool {
    forall|from: int, to: int|
        0 <= from < graph.len() && #[trigger] graph[from].contains(to) ==> 0 <= to < graph.len()
}

/// Whether `numbers` and `back` renumber the nodes of one graph to those of another and back.
pub open spec fn is_renumbering(
    graph: Graph,
    other: Graph,
    numbers: Seq<int>,
    back: Seq<int>,
) -> bool {
    &&& carries(graph, other, numbers)
    &&& carries(other, graph, back)
    &&& undoes(numbers, back)
    &&& undoes(back, numbers)
}

/// A walk with the new numbers of its nodes.
spec fn carried(walk: Seq<int>, numbers: Seq<int>) -> Seq<int> {
    walk.map_values(|node: int| numbers[node])
}

proof fn lemma_carried_walk(graph: Graph, other: Graph, numbers: Seq<int>, walk: Seq<int>)
    requires
        carries(graph, other, numbers),
        is_walk(graph, walk),
    ensures
        is_walk(other, carried(walk, numbers)),
        carried(walk, numbers).len() == walk.len(),
        carried(walk, numbers).first() == numbers[walk.first()],
        carried(walk, numbers).last() == numbers[walk.last()],
{
    let there = carried(walk, numbers);
    assert forall|at: int| 0 <= at < there.len() implies 0 <= #[trigger] there[at]
        < other.len() by {
        assert(0 <= walk[at] < graph.len());
        assert(there[at] == numbers[walk[at]]);
    }
    assert forall|at: int, next: int| 0 <= at && next == at + 1 && next < there.len() implies
        #[trigger] is_edge(other, there[at], there[next]) by {
        assert(is_edge(graph, walk[at], walk[next]));
    }
}

/// Turning the edges around changes nothing about the numbers.
pub proof fn lemma_reversed_renumbering(
    graph: Graph,
    other: Graph,
    numbers: Seq<int>,
    back: Seq<int>,
)
    requires
        is_renumbering(graph, other, numbers, back),
    ensures
        is_renumbering(reversed(graph), reversed(other), numbers, back),
{
    assert forall|from: int, to: int| #[trigger] is_edge(reversed(graph), from, to) implies is_edge(
        reversed(other),
        numbers[from],
        numbers[to],
    ) by {
        assert(is_edge(graph, to, from));
    }
    assert forall|from: int, to: int| #[trigger] is_edge(reversed(other), from, to) implies is_edge(
        reversed(graph),
        back[from],
        back[to],
    ) by {
        assert(is_edge(other, to, from));
    }
}

/// The numbers of the nodes decide nothing about cycles.
pub proof fn lemma_renumbered_acyclic(graph: Graph, other: Graph, numbers: Seq<int>, back: Seq<int>)
    requires
        is_renumbering(graph, other, numbers, back),
        is_acyclic(graph),
    ensures
        is_acyclic(other),
{
    assert forall|walk: Seq<int>| #[trigger]
        is_walk(other, walk) && walk.len() >= 2 implies walk.first() != walk.last() by {
        lemma_carried_walk(other, graph, back, walk);
        assert(is_walk(graph, carried(walk, back)));
    }
}

/// A node is as deep under its new number as under the old one.
pub proof fn lemma_renumbered_depth(
    graph: Graph,
    other: Graph,
    numbers: Seq<int>,
    back: Seq<int>,
    node: int,
)
    requires
        is_renumbering(graph, other, numbers, back),
        is_acyclic(graph),
        0 <= node < graph.len(),
    ensures
        depth(other, numbers[node]) == depth(graph, node),
{
    let edges = depth(graph, node);
    lemma_depth_exists(graph, node);
    let long = choose|walk: Seq<int>| #[trigger]
        is_walk(graph, walk) && walk.first() == node && walk.len() == edges + 1;
    lemma_carried_walk(graph, other, numbers, long);
    assert(is_walk(other, carried(long, numbers)));
    assert forall|walk: Seq<int>| #[trigger]
        is_walk(other, walk) && walk.first() == numbers[node] implies walk.len() <= edges + 1 by {
        lemma_carried_walk(other, graph, back, walk);
        assert(is_walk(graph, carried(walk, back)));
    }
    assert(is_depth(other, numbers[node], edges));
    lemma_depth_is(other, numbers[node], edges);
}

proof fn lemma_carried_reach(
    graph: Graph,
    other: Graph,
    numbers: Seq<int>,
    node: int,
    to: int,
)
    requires
        carries(graph, other, numbers),
        is_closed(graph),
        0 <= node < graph.len(),
        is_reachable(graph, node, to),
    ensures
        0 <= to < graph.len(),
        is_reachable(other, numbers[node], numbers[to]),
{
    let walk = choose|walk: Seq<int>| #[trigger]
        is_walk(graph, walk) && walk.first() == node && graph[walk.last()].contains(to);
    let last = walk[walk.len() - 1];
    assert(0 <= last < graph.len());
    lemma_carried_walk(graph, other, numbers, walk);
    assert(is_edge(graph, last, to));
    assert(is_edge(other, numbers[last], numbers[to]));
    assert(is_walk(other, carried(walk, numbers)));
}

/// A node reaches as many nodes under its new number as under the old one.
pub proof fn lemma_renumbered_reach(
    graph: Graph,
    other: Graph,
    numbers: Seq<int>,
    back: Seq<int>,
    node: int,
)
    requires
        is_renumbering(graph, other, numbers, back),
        is_closed(graph),
        is_closed(other),
        0 <= node < graph.len(),
    ensures
        reachable_from(other, numbers[node]).len() == reachable_from(graph, node).len(),
{
    let here = reachable_from(graph, node);
    let there = reachable_from(other, numbers[node]);
    let all = vstd::set_lib::set_int_range(0, graph.len() as int);
    vstd::set_lib::lemma_int_range(0, graph.len() as int);
    assert forall|to: int| here.contains(to) implies all.contains(to) by {
        lemma_carried_reach(graph, other, numbers, node, to);
    }
    vstd::set_lib::lemma_set_subset_finite(all, here);
    let onward = |to: int| numbers[to];
    assert(there =~= here.map(onward)) by {
        assert forall|to: int| here.map(onward).contains(to) implies there.contains(to) by {
            let from = choose|from: int| here.contains(from) && to == onward(from);
            lemma_carried_reach(graph, other, numbers, node, from);
        }
        assert forall|to: int| there.contains(to) implies here.map(onward).contains(to) by {
            lemma_carried_reach(other, graph, back, numbers[node], to);
            assert(here.contains(back[to]));
            assert(onward(back[to]) == to);
        }
    }
    assert forall|left: int, right: int|
        here.contains(left) && here.contains(right) && onward(left) == onward(right) implies left
        == right by {
        lemma_carried_reach(graph, other, numbers, node, left);
        lemma_carried_reach(graph, other, numbers, node, right);
        assert(back[numbers[left]] == left);
        assert(back[numbers[right]] == right);
    }
    vstd::set_lib::lemma_map_size(here, there, onward);
}

} // verus!
