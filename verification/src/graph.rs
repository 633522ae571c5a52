//! Walks, depth and reach in directed graphs.

use vstd::prelude::*;

verus! {

/// A directed graph on the nodes `0..len`: for each node the set of its successors.
pub type Graph = Seq<Set<int>>;

/// Whether an edge leads from `from` to `to`.
pub open spec fn is_edge(graph: Graph, from: int, to: int) -> bool {
    &&& 0 <= from < graph.len()
    &&& 0 <= to < graph.len()
    &&& graph[from].contains(to)
}

/// Whether `walk` goes from node to node along edges.
pub open spec fn is_walk(graph: Graph, walk: Seq<int>) -> bool {
    &&& walk.len() >= 1
    &&& forall|at: int| 0 <= at < walk.len() ==> 0 <= #[trigger] walk[at] < graph.len()
    &&& forall|at: int, next: int|
        0 <= at && next == at + 1 && next < walk.len() ==> #[trigger] is_edge(
            graph,
            walk[at],
            walk[next],
        )
}

/// Whether no walk of one or more edges comes back to where it started.
pub open spec fn is_acyclic(graph: Graph) -> bool {
    forall|walk: Seq<int>| #[trigger]
        is_walk(graph, walk) && walk.len() >= 2 ==> walk.first() != walk.last()
}

/// Whether the longest walk that starts at `node` has `edges` edges.
pub open spec fn is_depth(graph: Graph, node: int, edges: nat) -> bool {
    &&& exists|walk: Seq<int>| #[trigger]
        is_walk(graph, walk) && walk.first() == node && walk.len() == edges + 1
    &&& forall|walk: Seq<int>| #[trigger]
        is_walk(graph, walk) && walk.first() == node ==> walk.len() <= edges + 1
}

/// The number of edges of the longest walk that starts at `node`.
pub open spec fn depth(graph: Graph, node: int) -> nat {
    choose|edges: nat| is_depth(graph, node, edges)
}

/// Whether one or more steps lead from `from` to `to`: `to` is a successor of a node at which a
/// walk from `from` ends. The last step may lead to what is no node.
pub open spec fn is_reachable(graph: Graph, from: int, to: int) -> bool {
    exists|walk: Seq<int>| #[trigger]
        is_walk(graph, walk) && walk.first() == from && graph[walk.last()].contains(to)
}

/// What one or more steps from `node` lead to.
pub open spec fn reachable_from(graph: Graph, node: int) -> Set<int> {
    Set::new(|to: int| is_reachable(graph, node, to))
}

/// Whether one or more steps from `node` lead to `count` different ends.
pub open spec fn is_reach(graph: Graph, node: int, count: nat) -> bool {
    &&& reachable_from(graph, node).finite()
    &&& reachable_from(graph, node).len() == count
}

/// The graph with every edge turned around.
pub open spec fn reversed(graph: Graph) -> Graph {
    Seq::new(graph.len(), |to: int| Set::new(|from: int| is_edge(graph, from, to)))
}

/// A node has at most one depth, and `depth` is it.
pub proof fn lemma_depth_is(graph: Graph, node: int, edges: nat)
    requires
        is_depth(graph, node, edges),
    ensures
        depth(graph, node) == edges,
{
    let other = depth(graph, node);
    assert(is_depth(graph, node, other));
    let long = choose|walk: Seq<int>| #[trigger]
        is_walk(graph, walk) && walk.first() == node && walk.len() == edges + 1;
    let other_long = choose|walk: Seq<int>| #[trigger]
        is_walk(graph, walk) && walk.first() == node && walk.len() == other + 1;
    assert(long.len() <= other + 1);
    assert(other_long.len() <= edges + 1);
}

/// Putting a node before a walk that starts at one of its successors gives a walk.
pub proof fn lemma_walk_prepend(graph: Graph, node: int, walk: Seq<int>)
    requires
        is_walk(graph, walk),
        is_edge(graph, node, walk.first()),
    ensures
        is_walk(graph, seq![node] + walk),
{
    let longer = seq![node] + walk;
    assert forall|at: int, next: int| 0 <= at && next == at + 1 && next < longer.len() implies
        #[trigger] is_edge(graph, longer[at], longer[next]) by {
        if at > 0 {
            assert(longer[at] == walk[at - 1]);
            assert(longer[next] == walk[next - 1]);
            assert(is_edge(graph, walk[at - 1], walk[next - 1]));
        } else {
            assert(longer[next] == walk[0]);
        }
    }
}

/// A stretch of a walk is a walk.
pub proof fn lemma_walk_part(graph: Graph, walk: Seq<int>, start: int, end: int)
    requires
        is_walk(graph, walk),
        0 <= start < end <= walk.len(),
    ensures
        is_walk(graph, walk.subrange(start, end)),
{
    let part = walk.subrange(start, end);
    assert forall|at: int, next: int| 0 <= at && next == at + 1 && next < part.len() implies
        #[trigger] is_edge(graph, part[at], part[next]) by {
        assert(part[at] == walk[start + at]);
        assert(part[next] == walk[start + next]);
        assert(is_edge(graph, walk[start + at], walk[start + next]));
    }
    assert forall|at: int| 0 <= at < part.len() implies 0 <= #[trigger] part[at]
        < graph.len() by {
        assert(part[at] == walk[start + at]);
    }
}

/// Putting a node after a walk that ends at one of its predecessors gives a walk.
pub proof fn lemma_walk_append(graph: Graph, walk: Seq<int>, node: int)
    requires
        is_walk(graph, walk),
        is_edge(graph, walk.last(), node),
    ensures
        is_walk(graph, walk.push(node)),
{
    let longer = walk.push(node);
    assert forall|at: int, next: int| 0 <= at && next == at + 1 && next < longer.len() implies
        #[trigger] is_edge(graph, longer[at], longer[next]) by {
        if next < walk.len() {
            assert(is_edge(graph, walk[at], walk[next]));
        }
    }
}

/// A list of more than `count` numbers below `count` holds one of them twice.
pub proof fn lemma_pigeonhole(list: Seq<int>, count: nat)
    requires
        forall|at: int| 0 <= at < list.len() ==> 0 <= #[trigger] list[at] < count,
        list.no_duplicates(),
    ensures
        list.len() <= count,
{
    list.unique_seq_to_set();
    vstd::set_lib::lemma_int_range(0, count as int);
    let all = vstd::set_lib::set_int_range(0, count as int);
    assert(list.to_set().subset_of(all)) by {
        assert forall|value: int| list.to_set().contains(value) implies all.contains(value) by {
            let at = choose|at: int| 0 <= at < list.len() && list[at] == value;
        }
    }
    vstd::set_lib::lemma_len_subset(list.to_set(), all);
}

/// In a graph without cycles a walk never sees a node twice, so it is no longer than the graph
/// has nodes.
pub proof fn lemma_acyclic_walk_is_short(graph: Graph, walk: Seq<int>)
    requires
        is_acyclic(graph),
        is_walk(graph, walk),
    ensures
        walk.no_duplicates(),
        walk.len() <= graph.len(),
{
    assert forall|left: int, right: int|
        0 <= left < walk.len() && 0 <= right < walk.len() && left != right implies walk[left]
        != walk[right] by {
        let (low, high) = if left < right {
            (left, right)
        } else {
            (right, left)
        };
        lemma_walk_part(graph, walk, low, high + 1);
        let part = walk.subrange(low, high + 1);
        assert(part.first() == walk[low]);
        assert(part.last() == walk[high]);
    }
    lemma_pigeonhole(walk, graph.len());
}

/// In a graph without cycles every node has a depth, which is below the number of nodes.
pub proof fn lemma_depth_exists(graph: Graph, node: int)
    requires
        is_acyclic(graph),
        0 <= node < graph.len(),
    ensures
        is_depth(graph, node, depth(graph, node)),
        depth(graph, node) < graph.len(),
{
    assert forall|walk: Seq<int>| #[trigger]
        is_walk(graph, walk) && walk.first() == node implies walk.len() <= graph.len() by {
        lemma_acyclic_walk_is_short(graph, walk);
    }
    lemma_longest_exists(graph, node, graph.len());
}

proof fn lemma_longest_exists(graph: Graph, node: int, bound: nat)
    requires
        0 <= node < graph.len(),
        bound <= graph.len(),
        forall|walk: Seq<int>| #[trigger]
            is_walk(graph, walk) && walk.first() == node ==> walk.len() <= bound,
    ensures
        is_depth(graph, node, depth(graph, node)),
        depth(graph, node) < graph.len(),
    decreases bound,
{
    let alone = seq![node];
    assert(is_walk(graph, alone));
    assert(alone.first() == node);
    if exists|walk: Seq<int>| #[trigger]
        is_walk(graph, walk) && walk.first() == node && walk.len() == bound {
        assert(is_depth(graph, node, (bound - 1) as nat));
        lemma_depth_is(graph, node, (bound - 1) as nat);
    } else {
        lemma_longest_exists(graph, node, (bound - 1) as nat);
    }
}

/// A node lies at least one step deeper than each of its successors.
pub proof fn lemma_depth_grows(graph: Graph, from: int, to: int)
    requires
        is_acyclic(graph),
        is_edge(graph, from, to),
    ensures
        depth(graph, from) > depth(graph, to),
{
    lemma_depth_exists(graph, from);
    lemma_depth_exists(graph, to);
    let walk = choose|walk: Seq<int>| #[trigger]
        is_walk(graph, walk) && walk.first() == to && walk.len() == depth(graph, to) + 1;
    lemma_walk_prepend(graph, from, walk);
    assert((seq![from] + walk).first() == from);
}

/// A node that is not a dead end has a successor that lies exactly one step less deep.
pub proof fn lemma_depth_steps_down(graph: Graph, node: int) -> (next: int)
    requires
        is_acyclic(graph),
        0 <= node < graph.len(),
        depth(graph, node) > 0,
    ensures
        is_edge(graph, node, next),
        depth(graph, next) + 1 == depth(graph, node),
{
    lemma_depth_exists(graph, node);
    let walk = choose|walk: Seq<int>| #[trigger]
        is_walk(graph, walk) && walk.first() == node && walk.len() == depth(graph, node) + 1;
    let next = walk[1];
    assert(is_edge(graph, walk[0], walk[1]));
    lemma_walk_part(graph, walk, 1, walk.len() as int);
    let rest = walk.subrange(1, walk.len() as int);
    assert(rest.first() == next);
    lemma_depth_exists(graph, next);
    lemma_depth_grows(graph, node, next);
    next
}

/// Turning every edge around twice gives the edges back.
pub proof fn lemma_reversed_edge(graph: Graph, from: int, to: int)
    ensures
        is_edge(reversed(graph), to, from) == is_edge(graph, from, to),
{
}

/// A graph and its reverse either both have cycles or both have none.
pub proof fn lemma_reversed_acyclic(graph: Graph)
    requires
        is_acyclic(graph),
    ensures
        is_acyclic(reversed(graph)),
{
    assert forall|walk: Seq<int>| #[trigger]
        is_walk(reversed(graph), walk) && walk.len() >= 2 implies walk.first() != walk.last() by {
        let back = walk.reverse();
        assert forall|at: int, next: int| 0 <= at && next == at + 1 && next < back.len() implies
            #[trigger] is_edge(graph, back[at], back[next]) by {
            let mirror = walk.len() - 1 - next;
            assert(back[at] == walk[mirror + 1]);
            assert(back[next] == walk[mirror]);
            assert(is_edge(reversed(graph), walk[mirror], walk[mirror + 1]));
        }
        assert(is_walk(graph, back));
        assert(back.first() == walk.last());
        assert(back.last() == walk.first());
    }
}

/// What can be reached from a node is a successor of it, or can be reached from one.
pub proof fn law_reach_goes_step_by_step(graph: Graph, node: int, to: int)
    requires
        0 <= node < graph.len(),
    ensures
        reachable_from(graph, node).contains(to) <==> exists|next: int| #[trigger]
            graph[node].contains(next) && (next == to || (0 <= next < graph.len()
                && reachable_from(graph, next).contains(to))),
{
    if is_reachable(graph, node, to) {
        let walk = choose|walk: Seq<int>| #[trigger]
            is_walk(graph, walk) && walk.first() == node && graph[walk.last()].contains(to);
        if walk.len() == 1 {
            assert(graph[node].contains(to));
        } else {
            let next = walk[1];
            assert(is_edge(graph, walk[0], walk[1]));
            lemma_walk_part(graph, walk, 1, walk.len() as int);
            let rest = walk.subrange(1, walk.len() as int);
            assert(rest.first() == next && rest.last() == walk.last());
            assert(is_reachable(graph, next, to));
            assert(graph[node].contains(next));
        }
    }
    if exists|next: int| #[trigger]
        graph[node].contains(next) && (next == to || (0 <= next < graph.len() && reachable_from(
            graph,
            next,
        ).contains(to))) {
        let next = choose|next: int| #[trigger]
            graph[node].contains(next) && (next == to || (0 <= next < graph.len()
                && reachable_from(graph, next).contains(to)));
        if next == to {
            let start = seq![node];
            assert(is_walk(graph, start) && start.first() == node && start.last() == node);
        } else {
            assert(is_reachable(graph, next, to));
            let walk = choose|walk: Seq<int>| #[trigger]
                is_walk(graph, walk) && walk.first() == next && graph[walk.last()].contains(to);
            assert(is_edge(graph, node, next));
            lemma_walk_prepend(graph, node, walk);
            let longer = seq![node] + walk;
            assert(longer.first() == node && longer.last() == walk.last());
        }
    }
}

/// A node without edges has depth 0; any other lies one step deeper than the deepest node that an
/// edge leads to.
pub proof fn law_depth_goes_step_by_step(graph: Graph, node: int, edges: nat)
    requires
        is_acyclic(graph),
        is_depth(graph, node, edges),
    ensures
        edges == 0 <==> forall|next: int| !#[trigger] is_edge(graph, node, next),
        forall|next: int, below: nat|
            is_edge(graph, node, next) && #[trigger] is_depth(graph, next, below) ==> below < edges,
        edges > 0 ==> exists|next: int| #[trigger]
            is_edge(graph, node, next) && is_depth(graph, next, (edges - 1) as nat),
{
    let walk = choose|walk: Seq<int>| #[trigger]
        is_walk(graph, walk) && walk.first() == node && walk.len() == edges + 1;
    assert(0 <= walk[0] < graph.len());
    lemma_depth_is(graph, node, edges);
    assert forall|next: int, below: nat|
        is_edge(graph, node, next) && #[trigger] is_depth(graph, next, below) implies below
        < edges by {
        lemma_depth_is(graph, next, below);
        lemma_depth_grows(graph, node, next);
    }
    if edges > 0 {
        let next = lemma_depth_steps_down(graph, node);
        lemma_depth_exists(graph, next);
        assert(is_edge(graph, node, next) && is_depth(graph, next, (edges - 1) as nat));
    } else {
        assert forall|next: int| !#[trigger] is_edge(graph, node, next) by {
            if is_edge(graph, node, next) {
                lemma_depth_grows(graph, node, next);
            }
        }
    }
}

/// A graph has no cycle exactly where its nodes can be ranked so that every edge leads to a lower
/// rank.
pub proof fn law_ranked_graph_has_no_cycle(graph: Graph, ranks: Seq<int>)
    requires
        ranks.len() == graph.len(),
        forall|from: int, to: int| #[trigger]
            is_edge(graph, from, to) ==> ranks[from] > ranks[to],
    ensures
        is_acyclic(graph),
{
    assert forall|walk: Seq<int>| #[trigger]
        is_walk(graph, walk) && walk.len() >= 2 implies walk.first() != walk.last() by {
        lemma_ranks_fall(graph, ranks, walk);
    }
}

proof fn lemma_ranks_fall(graph: Graph, ranks: Seq<int>, walk: Seq<int>)
    requires
        forall|from: int, to: int| #[trigger]
            is_edge(graph, from, to) ==> ranks[from] > ranks[to],
        is_walk(graph, walk),
    ensures
        walk.len() >= 2 ==> ranks[walk.first()] > ranks[walk.last()],
    decreases walk.len(),
{
    if walk.len() >= 2 {
        assert(is_edge(graph, walk[walk.len() - 2], walk[walk.len() - 1]));
        lemma_walk_part(graph, walk, 0, walk.len() - 1);
        let front = walk.subrange(0, walk.len() - 1);
        assert(front.first() == walk.first() && front.last() == walk[walk.len() - 2]);
        lemma_ranks_fall(graph, ranks, front);
    }
}

/// A graph without cycles can be ranked so that every edge leads to a lower rank.
pub proof fn law_graph_without_cycle_is_ranked(graph: Graph) -> (ranks: Seq<int>)
    requires
        is_acyclic(graph),
    ensures
        ranks.len() == graph.len(),
        forall|from: int, to: int| #[trigger]
            is_edge(graph, from, to) ==> ranks[from] > ranks[to],
{
    let ranks = Seq::new(graph.len(), |node: int| depth(graph, node) as int);
    assert forall|from: int, to: int| #[trigger] is_edge(graph, from, to) implies ranks[from]
        > ranks[to] by {
        lemma_depth_grows(graph, from, to);
    }
    ranks
}

} // verus!
