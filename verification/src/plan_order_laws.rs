//! That the order in which a graph is written down does not matter.

use vstd::prelude::*;

use crate::graph::{is_acyclic, is_edge, lemma_reversed_acyclic, reversed};
use crate::planner::{
    belongs_to_phase, depends_on, describes, downstream_graph, is_listed, is_phase, is_plan,
    is_well_formed, node_ids, phase_of, GraphInput, MigrationPlan, PlannedNode,
};
use crate::planner_laws::{law_the_plan_is_unique, same_plan};
use crate::renumbering::{
    carries, is_closed, is_renumbering, lemma_renumbered_acyclic, lemma_renumbered_depth,
    lemma_renumbered_reach, lemma_reversed_renumbering, undoes,
};

verus! {

/// Whether the graph says that the node `from` depends on the node `to`.
pub open spec fn has_edge(input: GraphInput, from: Seq<char>, to: Seq<char>) -> bool {
    exists|edge: int|
        0 <= edge < input.edges@.len() && (#[trigger] input.edges@[edge]).from@ == from
            && input.edges@[edge].to@ == to
}

/// Whether two graphs have the same target, the same nodes and the same edges, in whatever order
/// and however often the edges are listed.
pub open spec fn same_graph(one: GraphInput, other: GraphInput) -> bool {
    &&& one.target@ == other.target@
    &&& forall|id: Seq<char>| #[trigger]
        node_ids(one).contains(id) == #[trigger] node_ids(other).contains(id)
    &&& forall|from: Seq<char>, to: Seq<char>| #[trigger]
        has_edge(one, from, to) == #[trigger] has_edge(other, from, to)
}

/// The place of a node.
spec fn place_of(input: GraphInput, id: Seq<char>) -> int {
    choose|place: int| 0 <= place < input.nodes@.len() && (#[trigger] input.nodes@[place])@ == id
}

/// For each node of one graph its place in the other.
spec fn places(one: GraphInput, other: GraphInput) -> Seq<int> {
    Seq::new(one.nodes@.len(), |node: int| place_of(other, one.nodes@[node]@))
}

proof fn lemma_place(one: GraphInput, other: GraphInput, node: int)
    requires
        same_graph(one, other),
        0 <= node < one.nodes@.len(),
    ensures
        0 <= places(one, other)[node] < other.nodes@.len(),
        other.nodes@[places(one, other)[node]]@ == one.nodes@[node]@,
{
    let id = one.nodes@[node]@;
    assert(node_ids(one)[node] == id);
    assert(node_ids(one).contains(id));
    assert(node_ids(other).contains(id));
    let place = choose|place: int|
        0 <= place < node_ids(other).len() && node_ids(other)[place] == id;
    assert(other.nodes@[place]@ == id);
}

proof fn lemma_places_carry(one: GraphInput, other: GraphInput)
    requires
        same_graph(one, other),
    ensures
        carries(downstream_graph(one), downstream_graph(other), places(one, other)),
{
    let numbers = places(one, other);
    let graph = downstream_graph(one);
    assert forall|node: int| 0 <= node < numbers.len() implies 0 <= #[trigger] numbers[node]
        < downstream_graph(other).len() by {
        lemma_place(one, other, node);
    }
    assert forall|from: int, to: int| #[trigger] is_edge(graph, from, to) implies is_edge(
        downstream_graph(other),
        numbers[from],
        numbers[to],
    ) by {
        lemma_place(one, other, from);
        lemma_place(one, other, to);
        assert(depends_on(one, to, from));
        assert(has_edge(one, one.nodes@[to]@, one.nodes@[from]@));
        assert(has_edge(other, one.nodes@[to]@, one.nodes@[from]@));
        assert(depends_on(other, numbers[to], numbers[from]));
    }
}

proof fn lemma_places_are_undone(one: GraphInput, other: GraphInput)
    requires
        same_graph(one, other),
        same_graph(other, one),
        node_ids(one).no_duplicates(),
    ensures
        undoes(places(one, other), places(other, one)),
{
    let numbers = places(one, other);
    let back = places(other, one);
    assert forall|node: int| 0 <= node < numbers.len() implies back[#[trigger] numbers[node]]
        == node by {
        lemma_place(one, other, node);
        lemma_place(other, one, numbers[node]);
        let again = back[numbers[node]];
        assert(node_ids(one)[again] == node_ids(one)[node]);
    }
}

proof fn lemma_is_renumbering(one: GraphInput, other: GraphInput)
    requires
        same_graph(one, other),
        is_well_formed(one),
        is_well_formed(other),
    ensures
        same_graph(other, one),
        is_renumbering(
            downstream_graph(one),
            downstream_graph(other),
            places(one, other),
            places(other, one),
        ),
{
    assert forall|id: Seq<char>| #[trigger]
        node_ids(other).contains(id) == #[trigger] node_ids(one).contains(id) by {}
    assert forall|from: Seq<char>, to: Seq<char>| #[trigger]
        has_edge(other, from, to) == #[trigger] has_edge(one, from, to) by {}
    lemma_places_carry(one, other);
    lemma_places_carry(other, one);
    lemma_places_are_undone(one, other);
    lemma_places_are_undone(other, one);
}

/// What is said of a node in one graph holds of it in the other.
proof fn lemma_same_description(one: GraphInput, other: GraphInput, planned: PlannedNode, node: int)
    requires
        same_graph(one, other),
        is_well_formed(one),
        is_well_formed(other),
        is_acyclic(downstream_graph(one)),
        describes(one, planned, node),
    ensures
        describes(other, planned, places(one, other)[node]),
{
    let graph = downstream_graph(one);
    let numbers = places(one, other);
    let back = places(other, one);
    lemma_is_renumbering(one, other);
    lemma_place(one, other, node);
    lemma_renumbered_depth(graph, downstream_graph(other), numbers, back, node);
    assert(is_closed(graph) && is_closed(downstream_graph(other)));
    lemma_renumbered_reach(graph, downstream_graph(other), numbers, back, node);
}

/// A node goes in the same phase in both graphs.
proof fn lemma_same_phase(one: GraphInput, other: GraphInput, node: int)
    requires
        same_graph(one, other),
        is_well_formed(one),
        is_well_formed(other),
        is_acyclic(downstream_graph(one)),
        0 <= node < one.nodes@.len(),
    ensures
        phase_of(other, places(one, other)[node]) == phase_of(one, node),
{
    let graph = downstream_graph(one);
    let numbers = places(one, other);
    let back = places(other, one);
    lemma_is_renumbering(one, other);
    lemma_reversed_renumbering(graph, downstream_graph(other), numbers, back);
    lemma_reversed_acyclic(graph);
    lemma_renumbered_depth(reversed(graph), reversed(downstream_graph(other)), numbers, back, node);
}

/// A phase of one graph is one of the other.
proof fn lemma_same_phase_nodes(
    one: GraphInput,
    other: GraphInput,
    planned: Seq<PlannedNode>,
    phase: nat,
)
    requires
        same_graph(one, other),
        is_well_formed(one),
        is_well_formed(other),
        is_acyclic(downstream_graph(one)),
        is_phase(one, planned, phase),
    ensures
        is_phase(other, planned, phase),
{
    let numbers = places(one, other);
    let back = places(other, one);
    lemma_is_renumbering(one, other);
    assert forall|at: int| 0 <= at < planned.len() implies belongs_to_phase(
        other,
        #[trigger] planned[at],
        phase,
    ) by {
        assert(belongs_to_phase(one, planned[at], phase));
        let node = choose|node: int| #[trigger]
            describes(one, planned[at], node) && phase_of(one, node) == phase;
        lemma_same_description(one, other, planned[at], node);
        lemma_same_phase(one, other, node);
        assert(describes(other, planned[at], numbers[node]));
    }
    assert forall|node: int|
        0 <= node < other.nodes@.len() && phase_of(other, node) == phase implies #[trigger] is_listed(
        other,
        planned,
        node,
    ) by {
        lemma_place(other, one, node);
        let before = back[node];
        assert(numbers[before] == node);
        lemma_same_phase(one, other, before);
        assert(is_listed(one, planned, before));
        let at = choose|at: int|
            0 <= at < planned.len() && #[trigger] describes(one, planned[at], before);
        lemma_same_description(one, other, planned[at], before);
        assert(describes(other, planned[at], node));
    }
}

/// A plan of one graph is one of the other.
proof fn lemma_same_plans(one: GraphInput, other: GraphInput, plan: MigrationPlan)
    requires
        same_graph(one, other),
        is_well_formed(one),
        is_well_formed(other),
        is_acyclic(downstream_graph(one)),
        is_plan(one, plan),
    ensures
        is_plan(other, plan),
{
    let numbers = places(one, other);
    let back = places(other, one);
    lemma_is_renumbering(one, other);
    assert forall|node: int| 0 <= node < other.nodes@.len() implies #[trigger] phase_of(other, node)
        < plan.phases@.len() by {
        lemma_place(other, one, node);
        assert(numbers[back[node]] == node);
        lemma_same_phase(one, other, back[node]);
        assert(phase_of(one, back[node]) < plan.phases@.len());
    }
    let last = choose|node: int|
        0 <= node < one.nodes@.len() && #[trigger] phase_of(one, node) + 1 == plan.phases@.len();
    lemma_place(one, other, last);
    lemma_same_phase(one, other, last);
    assert(phase_of(other, numbers[last]) + 1 == plan.phases@.len());
    assert forall|at: int| 0 <= at < plan.phases@.len() implies (#[trigger] plan.phases@[at]).phase
        == at + 1 && is_phase(other, plan.phases@[at].nodes@, at as nat) by {
        lemma_same_phase_nodes(one, other, plan.phases@[at].nodes@, at as nat);
    }
}

/// The order in which the nodes and the edges of a graph are listed does not matter, and neither
/// does an edge that is listed twice: the plans say the same.
pub proof fn law_order_does_not_matter(
    one: GraphInput,
    other: GraphInput,
    plan: MigrationPlan,
    other_plan: MigrationPlan,
)
    requires
        same_graph(one, other),
        is_well_formed(one),
        is_well_formed(other),
        is_acyclic(downstream_graph(one)),
        is_plan(one, plan),
        is_plan(other, other_plan),
    ensures
        same_plan(plan, other_plan),
{
    law_order_makes_no_cycle(one, other);
    lemma_same_plans(one, other, plan);
    law_the_plan_is_unique(other, plan, other_plan);
}

/// The order in which the nodes and the edges of a graph are listed decides nothing about cycles.
pub proof fn law_order_makes_no_cycle(one: GraphInput, other: GraphInput)
    requires
        same_graph(one, other),
        is_well_formed(one),
        is_well_formed(other),
        is_acyclic(downstream_graph(one)),
    ensures
        is_acyclic(downstream_graph(other)),
{
    lemma_is_renumbering(one, other);
    lemma_renumbered_acyclic(
        downstream_graph(one),
        downstream_graph(other),
        places(one, other),
        places(other, one),
    );
}

} // verus!
