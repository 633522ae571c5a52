//! What every migration plan promises.

use vstd::prelude::*;

use crate::graph::{
    is_acyclic, is_depth, is_edge, is_walk, law_depth_goes_step_by_step,
    law_graph_without_cycle_is_ranked, law_ranked_graph_has_no_cycle, law_reach_goes_step_by_step,
    lemma_depth_exists, lemma_depth_is, reachable_from, reversed, Graph,
};
use crate::graph::{
    depth, lemma_depth_grows, lemma_depth_steps_down, lemma_reversed_acyclic, lemma_reversed_edge,
    lemma_walk_append, lemma_walk_prepend,
};
use crate::planner::{
    belongs_to_phase, depends_on, describes, downstream_graph, edge_is_known, goes_first,
    is_first_unknown_edge, is_listed, is_phase, is_plan, is_well_formed, node_ids, phase_of,
    GraphInput, MigrationPlan, PlannedNode,
};
use crate::text::{
    head_before, is_smaller_at, law_first_difference_decides, law_parts_make_up_the_text,
    lemma_text_antisymmetric, tail_after,
};

verus! {

/// Whether the plan lists `node` at place `at` of its phase `phase`, both counted from 0.
pub open spec fn is_planned_at(
    input: GraphInput,
    plan: MigrationPlan,
    phase: int,
    at: int,
    node: int,
) -> bool {
    &&& 0 <= phase < plan.phases@.len()
    &&& 0 <= at < plan.phases@[phase].nodes@.len()
    &&& describes(input, plan.phases@[phase].nodes@[at], node)
}

/// Whether the plan lists `node` in its phase `phase`, counted from 0.
pub open spec fn is_planned_in(
    input: GraphInput,
    plan: MigrationPlan,
    phase: int,
    node: int,
) -> bool {
    exists|at: int| is_planned_at(input, plan, phase, at, node)
}

/// A node is planned in the phase that its dependencies ask for.
proof fn lemma_planned_in_its_phase(
    input: GraphInput,
    plan: MigrationPlan,
    phase: int,
    at: int,
    node: int,
)
    requires
        is_well_formed(input),
        is_plan(input, plan),
        is_planned_at(input, plan, phase, at, node),
    ensures
        phase_of(input, node) == phase,
{
    let nodes = plan.phases@[phase].nodes@;
    assert(is_phase(input, nodes, phase as nat));
    assert(belongs_to_phase(input, nodes[at], phase as nat));
    let other = choose|other: int| #[trigger]
        describes(input, nodes[at], other) && phase_of(input, other) == phase;
    assert(node_ids(input)[node] == node_ids(input)[other]);
}

/// Every node stands in the plan exactly once.
pub proof fn law_every_node_is_planned_once(input: GraphInput, plan: MigrationPlan, node: int)
    requires
        is_well_formed(input),
        is_plan(input, plan),
        0 <= node < input.nodes@.len(),
    ensures
        exists|phase: int, at: int| is_planned_at(input, plan, phase, at, node),
        forall|phase: int, at: int, other_phase: int, other_at: int|
            #![trigger is_planned_at(input, plan, phase, at, node), is_planned_at(input, plan, other_phase, other_at, node)]
            is_planned_at(input, plan, phase, at, node) && is_planned_at(
                input,
                plan,
                other_phase,
                other_at,
                node,
            ) ==> phase == other_phase && at == other_at,
{
    let own = phase_of(input, node) as int;
    let nodes = plan.phases@[own].nodes@;
    assert(is_phase(input, nodes, own as nat));
    assert(is_listed(input, nodes, node));
    let place = choose|place: int|
        0 <= place < nodes.len() && #[trigger] describes(input, nodes[place], node);
    assert(is_planned_at(input, plan, own, place, node));
    assert forall|phase: int, at: int, other_phase: int, other_at: int|
        #![trigger is_planned_at(input, plan, phase, at, node), is_planned_at(input, plan, other_phase, other_at, node)]
        is_planned_at(input, plan, phase, at, node) && is_planned_at(
            input,
            plan,
            other_phase,
            other_at,
            node,
        ) implies phase == other_phase && at == other_at by {
        lemma_planned_in_its_phase(input, plan, phase, at, node);
        lemma_planned_in_its_phase(input, plan, other_phase, other_at, node);
        let listed = plan.phases@[phase].nodes@;
        assert(is_phase(input, listed, phase as nat));
        if at < other_at {
            assert(goes_first(listed[at], listed[other_at]));
        } else if other_at < at {
            assert(goes_first(listed[other_at], listed[at]));
        }
    }
}

/// A node is planned in a later phase than every node it depends on.
pub proof fn law_prerequisites_go_first(
    input: GraphInput,
    plan: MigrationPlan,
    downstream: int,
    downstream_phase: int,
    downstream_at: int,
    upstream: int,
    upstream_phase: int,
    upstream_at: int,
)
    requires
        is_well_formed(input),
        is_acyclic(downstream_graph(input)),
        is_plan(input, plan),
        is_planned_at(input, plan, downstream_phase, downstream_at, downstream),
        is_planned_at(input, plan, upstream_phase, upstream_at, upstream),
        depends_on(input, downstream, upstream),
    ensures
        upstream_phase < downstream_phase,
{
    let graph = downstream_graph(input);
    lemma_planned_in_its_phase(input, plan, downstream_phase, downstream_at, downstream);
    lemma_planned_in_its_phase(input, plan, upstream_phase, upstream_at, upstream);
    lemma_reversed_acyclic(graph);
    assert(is_edge(graph, upstream, downstream));
    lemma_reversed_edge(graph, upstream, downstream);
    lemma_depth_grows(reversed(graph), downstream, upstream);
}

/// No node waits longer than it has to: one that is not in the first phase depends on a node of
/// the phase before.
pub proof fn law_no_node_waits_in_vain(
    input: GraphInput,
    plan: MigrationPlan,
    node: int,
    phase: int,
    at: int,
) -> (upstream: int)
    requires
        is_well_formed(input),
        is_acyclic(downstream_graph(input)),
        is_plan(input, plan),
        is_planned_at(input, plan, phase, at, node),
        phase > 0,
    ensures
        0 <= upstream < input.nodes@.len(),
        depends_on(input, node, upstream),
        is_planned_in(input, plan, phase - 1, upstream),
{
    let graph = downstream_graph(input);
    lemma_planned_in_its_phase(input, plan, phase, at, node);
    lemma_reversed_acyclic(graph);
    let upstream = lemma_depth_steps_down(reversed(graph), node);
    lemma_reversed_edge(graph, upstream, node);
    assert(is_edge(graph, upstream, node));
    let nodes = plan.phases@[phase - 1].nodes@;
    assert(is_phase(input, nodes, (phase - 1) as nat));
    assert(phase_of(input, upstream) == phase - 1);
    assert(is_listed(input, nodes, upstream));
    let place = choose|place: int|
        0 <= place < nodes.len() && #[trigger] describes(input, nodes[place], upstream);
    assert(is_planned_at(input, plan, phase - 1, place, upstream));
    upstream
}

/// No phase is empty.
pub proof fn law_no_phase_is_empty(input: GraphInput, plan: MigrationPlan, phase: int)
    requires
        is_well_formed(input),
        is_acyclic(downstream_graph(input)),
        is_plan(input, plan),
        0 <= phase < plan.phases@.len(),
    ensures
        plan.phases@[phase].nodes@.len() > 0,
    decreases plan.phases@.len() - phase,
{
    let nodes = plan.phases@[phase].nodes@;
    assert(is_phase(input, nodes, phase as nat));
    if phase == plan.phases@.len() - 1 {
        let node = choose|node: int|
            0 <= node < input.nodes@.len() && #[trigger] phase_of(input, node) + 1
                == plan.phases@.len();
        assert(is_listed(input, nodes, node));
    } else {
        law_no_phase_is_empty(input, plan, phase + 1);
        let later = plan.phases@[phase + 1].nodes@;
        assert(is_phase(input, later, (phase + 1) as nat));
        assert(belongs_to_phase(input, later[0], (phase + 1) as nat));
        let node = choose|node: int| #[trigger]
            describes(input, later[0], node) && phase_of(input, node) == phase + 1;
        assert(is_planned_at(input, plan, phase + 1, 0, node));
        let upstream = law_no_node_waits_in_vain(input, plan, node, phase + 1, 0);
    }
}

/// A node has a longer chain of dependents, and more dependents, than a node that depends on it.
pub proof fn law_upstream_ranks_higher(input: GraphInput, downstream: int, upstream: int)
    requires
        is_well_formed(input),
        is_acyclic(downstream_graph(input)),
        0 <= downstream < input.nodes@.len(),
        0 <= upstream < input.nodes@.len(),
        depends_on(input, downstream, upstream),
    ensures
        depth(downstream_graph(input), upstream) > depth(downstream_graph(input), downstream),
        reachable_from(downstream_graph(input), downstream).finite(),
        reachable_from(downstream_graph(input), upstream).finite(),
        reachable_from(downstream_graph(input), upstream).len() > reachable_from(
            downstream_graph(input),
            downstream,
        ).len(),
{
    let graph = downstream_graph(input);
    assert(is_edge(graph, upstream, downstream));
    lemma_depth_grows(graph, upstream, downstream);
    let near = reachable_from(graph, downstream);
    let far = reachable_from(graph, upstream);
    let all = vstd::set_lib::set_int_range(0, graph.len() as int);
    vstd::set_lib::lemma_int_range(0, graph.len() as int);
    assert forall|to: int| far.contains(to) implies all.contains(to) by {
        let walk = choose|walk: Seq<int>| #[trigger]
            is_walk(graph, walk) && walk.first() == upstream && graph[walk.last()].contains(to);
        assert(0 <= walk[walk.len() - 1] < graph.len());
    }
    assert forall|to: int| near.contains(to) implies far.contains(to) by {
        let walk = choose|walk: Seq<int>| #[trigger]
            is_walk(graph, walk) && walk.first() == downstream && graph[walk.last()].contains(to);
        lemma_walk_prepend(graph, upstream, walk);
        let longer = seq![upstream] + walk;
        assert(longer.first() == upstream && longer.last() == walk.last());
    }
    let start = seq![upstream];
    assert(is_walk(graph, start) && start.first() == upstream && start.last() == upstream);
    assert(far.contains(downstream));
    assert(!near.contains(downstream)) by {
        if near.contains(downstream) {
            let walk = choose|walk: Seq<int>| #[trigger]
                is_walk(graph, walk) && walk.first() == downstream
                    && graph[walk.last()].contains(downstream);
            assert(0 <= walk[walk.len() - 1] < graph.len());
            lemma_walk_append(graph, walk, downstream);
            let round = walk.push(downstream);
            assert(round.first() == downstream && round.last() == downstream);
        }
    }
    vstd::set_lib::lemma_set_subset_finite(all, far);
    vstd::set_lib::lemma_set_subset_finite(all, near);
    assert(near.subset_of(far.remove(downstream)));
    vstd::set_lib::lemma_len_subset(near, far.remove(downstream));
}

/// A graph has one migration plan only: two plans of it agree in every phase on the ids, and so on
/// all that they say of the nodes.
pub proof fn law_the_plan_is_unique(input: GraphInput, one: MigrationPlan, other: MigrationPlan)
    requires
        is_well_formed(input),
        is_acyclic(downstream_graph(input)),
        is_plan(input, one),
        is_plan(input, other),
    ensures
        same_plan(one, other),
{
    let last = choose|node: int|
        0 <= node < input.nodes@.len() && #[trigger] phase_of(input, node) + 1
            == one.phases@.len();
    let other_last = choose|node: int|
        0 <= node < input.nodes@.len() && #[trigger] phase_of(input, node) + 1
            == other.phases@.len();
    assert(phase_of(input, last) < other.phases@.len());
    assert(phase_of(input, other_last) < one.phases@.len());
    assert forall|phase: int| 0 <= phase < one.phases@.len() implies same_nodes(
        (#[trigger] one.phases@[phase]).nodes@,
        other.phases@[phase].nodes@,
    ) && one.phases@[phase].phase == other.phases@[phase].phase by {
        assert(other.phases@[phase].phase == phase + 1);
        lemma_phase_is_unique(
            input,
            one.phases@[phase].nodes@,
            other.phases@[phase].nodes@,
            phase as nat,
        );
    }
}

/// Whether two plans say the same.
pub open spec fn same_plan(one: MigrationPlan, other: MigrationPlan) -> bool {
    &&& one.target@ == other.target@
    &&& one.phases@.len() == other.phases@.len()
    &&& forall|phase: int|
        0 <= phase < one.phases@.len() ==> same_nodes(
            (#[trigger] one.phases@[phase]).nodes@,
            other.phases@[phase].nodes@,
        ) && one.phases@[phase].phase == other.phases@[phase].phase
}

/// Whether two lists say the same of the same nodes, in the same order.
pub open spec fn same_nodes(one: Seq<PlannedNode>, other: Seq<PlannedNode>) -> bool {
    &&& one.len() == other.len()
    &&& forall|at: int| 0 <= at < one.len() ==> same_node(#[trigger] one[at], other[at])
}

/// Whether two entries say the same.
pub open spec fn same_node(one: PlannedNode, other: PlannedNode) -> bool {
    &&& one.id@ == other.id@
    &&& one.repository@ == other.repository@
    &&& one.component@ == other.component@
    &&& one.is_target == other.is_target
    &&& one.downstream_depth == other.downstream_depth
    &&& one.downstream_reach == other.downstream_reach
}

/// Two lists of one phase agree up to any place.
proof fn lemma_phase_fronts_agree(
    input: GraphInput,
    one: Seq<PlannedNode>,
    other: Seq<PlannedNode>,
    phase: nat,
    count: nat,
)
    requires
        is_well_formed(input),
        is_phase(input, one, phase),
        is_phase(input, other, phase),
        count <= one.len(),
    ensures
        count <= other.len(),
        forall|at: int| 0 <= at < count ==> same_node(#[trigger] one[at], other[at]),
    decreases count,
{
    if count > 0 {
        let last = count - 1;
        lemma_phase_fronts_agree(input, one, other, phase, last as nat);
        let in_other = lemma_found_in_other(input, one, other, phase, last);
        if in_other < last {
            assert(same_node(one[in_other], other[in_other]));
            assert(goes_first(one[in_other], one[last]));
        }
        if in_other > last {
            let in_one = lemma_found_in_other(input, other, one, phase, last);
            if in_one < last {
                assert(same_node(one[in_one], other[in_one]));
                assert(goes_first(other[in_one], other[last]));
            }
            if in_one == last {
                assert(goes_first(other[last], other[in_other]));
            }
            if in_one > last {
                assert(goes_first(one[last], one[in_one]));
                assert(goes_first(other[last], other[in_other]));
                if one[last].id@ != other[last].id@ && crate::text::text_at_most(
                    one[last].id@,
                    other[last].id@,
                ) && crate::text::text_at_most(other[last].id@, one[last].id@) {
                    lemma_text_antisymmetric(one[last].id@, other[last].id@);
                }
            }
        }
    }
}

/// Where one list of a phase stands in another.
proof fn lemma_found_in_other(
    input: GraphInput,
    one: Seq<PlannedNode>,
    other: Seq<PlannedNode>,
    phase: nat,
    at: int,
) -> (place: int)
    requires
        is_well_formed(input),
        is_phase(input, one, phase),
        is_phase(input, other, phase),
        0 <= at < one.len(),
    ensures
        0 <= place < other.len(),
        same_node(one[at], other[place]),
{
    assert(belongs_to_phase(input, one[at], phase));
    let node = choose|node: int| #[trigger]
        describes(input, one[at], node) && phase_of(input, node) == phase;
    assert(is_listed(input, other, node));
    choose|place: int| 0 <= place < other.len() && #[trigger] describes(input, other[place], node)
}

proof fn lemma_phase_is_unique(
    input: GraphInput,
    one: Seq<PlannedNode>,
    other: Seq<PlannedNode>,
    phase: nat,
)
    requires
        is_well_formed(input),
        is_phase(input, one, phase),
        is_phase(input, other, phase),
    ensures
        same_nodes(one, other),
{
    lemma_phase_fronts_agree(input, one, other, phase, one.len());
    lemma_phase_fronts_agree(input, other, one, phase, other.len());
}

/// Within a phase the deeper node stands first, of two equally deep nodes the one that reaches
/// further, and of two that are equal in both the one whose id is smaller at the first difference.
pub proof fn law_phases_are_ranked(
    input: GraphInput,
    plan: MigrationPlan,
    phase: int,
    left: int,
    right: int,
)
    requires
        is_plan(input, plan),
        0 <= phase < plan.phases@.len(),
        0 <= left < right < plan.phases@[phase].nodes@.len(),
    ensures
        ({
            let nodes = plan.phases@[phase].nodes@;
            let deep = nodes[left].downstream_depth;
            let far = nodes[left].downstream_reach;
            &&& deep >= nodes[right].downstream_depth
            &&& deep == nodes[right].downstream_depth ==> far >= nodes[right].downstream_reach
            &&& deep == nodes[right].downstream_depth && far == nodes[right].downstream_reach
                ==> exists|at: int| is_smaller_at(nodes[left].id@, nodes[right].id@, at)
        }),
{
    let nodes = plan.phases@[phase].nodes@;
    assert(is_phase(input, nodes, phase as nat));
    assert(goes_first(nodes[left], nodes[right]));
    law_first_difference_decides(nodes[left].id@, nodes[right].id@);
}

/// A plan says the target and counts its phases from 1.
pub proof fn law_phases_are_counted(input: GraphInput, plan: MigrationPlan, phase: int)
    requires
        is_plan(input, plan),
        0 <= phase < plan.phases@.len(),
    ensures
        plan.target@ == input.target@,
        plan.phases@[phase].phase == phase + 1,
{
}

/// An entry of a plan is one of the nodes: it has its id, and the repository and the component are
/// the parts of the id around its first bar. It is marked exactly where its id is the target.
pub proof fn law_entries_are_nodes(
    input: GraphInput,
    plan: MigrationPlan,
    phase: int,
    at: int,
) -> (node: int)
    requires
        is_plan(input, plan),
        0 <= phase < plan.phases@.len(),
        0 <= at < plan.phases@[phase].nodes@.len(),
    ensures
        ({
            let planned = plan.phases@[phase].nodes@[at];
            let id = planned.id@;
            &&& 0 <= node < input.nodes@.len()
            &&& id == input.nodes@[node]@
            &&& planned.is_target <==> id == input.target@
            &&& !planned.repository@.contains('|')
            &&& !id.contains('|') ==> planned.repository@ == id && planned.component@ == "root"@
            &&& id.contains('|') ==> id == planned.repository@ + seq!['|'] + planned.component@ || (
            id == planned.repository@ + seq!['|'] && planned.component@ == "root"@)
        }),
        is_planned_at(input, plan, phase, at, node),
{
    let nodes = plan.phases@[phase].nodes@;
    assert(is_phase(input, nodes, phase as nat));
    assert(belongs_to_phase(input, nodes[at], phase as nat));
    let node = choose|node: int| #[trigger]
        describes(input, nodes[at], node) && phase_of(input, node) == phase;
    let id = nodes[at].id@;
    law_parts_make_up_the_text(id, '|');
    if id.contains('|') && tail_after(id, '|').len() == 0 {
        assert(id =~= head_before(id, '|') + seq!['|']);
    }
    node
}

/// Every id of the graph stands in the plan, at one place only.
pub proof fn law_every_id_is_planned_once(input: GraphInput, plan: MigrationPlan, node: int) -> (
    place: (int, int))
    requires
        is_well_formed(input),
        is_plan(input, plan),
        0 <= node < input.nodes@.len(),
    ensures
        0 <= place.0 < plan.phases@.len(),
        0 <= place.1 < plan.phases@[place.0].nodes@.len(),
        plan.phases@[place.0].nodes@[place.1].id@ == input.nodes@[node]@,
        forall|phase: int, at: int|
            0 <= phase < plan.phases@.len() && 0 <= at < plan.phases@[phase].nodes@.len()
                && #[trigger] plan.phases@[phase].nodes@[at].id@ == input.nodes@[node]@ ==> phase
                == place.0 && at == place.1,
{
    law_every_node_is_planned_once(input, plan, node);
    let (own, place) = choose|phase: int, at: int| is_planned_at(input, plan, phase, at, node);
    assert forall|phase: int, at: int|
        0 <= phase < plan.phases@.len() && 0 <= at < plan.phases@[phase].nodes@.len()
            && #[trigger] plan.phases@[phase].nodes@[at].id@ == input.nodes@[node]@ implies phase
        == own && at == place by {
        let other = law_entries_are_nodes(input, plan, phase, at);
        assert(node_ids(input)[other] == node_ids(input)[node]);
        assert(is_planned_at(input, plan, phase, at, node));
    }
    (own, place)
}

/// Of the two ends of an edge, the one that is depended on stands in an earlier phase, lies deeper
/// and reaches further.
pub proof fn law_edges_lead_to_earlier_phases(
    input: GraphInput,
    plan: MigrationPlan,
    edge: int,
    from: (int, int),
    to: (int, int),
)
    requires
        is_well_formed(input),
        is_acyclic(downstream_graph(input)),
        is_plan(input, plan),
        0 <= edge < input.edges@.len(),
        0 <= from.0 < plan.phases@.len(),
        0 <= from.1 < plan.phases@[from.0].nodes@.len(),
        0 <= to.0 < plan.phases@.len(),
        0 <= to.1 < plan.phases@[to.0].nodes@.len(),
        plan.phases@[from.0].nodes@[from.1].id@ == input.edges@[edge].from@,
        plan.phases@[to.0].nodes@[to.1].id@ == input.edges@[edge].to@,
    ensures
        to.0 < from.0,
        plan.phases@[to.0].nodes@[to.1].downstream_depth
            > plan.phases@[from.0].nodes@[from.1].downstream_depth,
        plan.phases@[to.0].nodes@[to.1].downstream_reach
            > plan.phases@[from.0].nodes@[from.1].downstream_reach,
{
    let downstream = law_entries_are_nodes(input, plan, from.0, from.1);
    let upstream = law_entries_are_nodes(input, plan, to.0, to.1);
    assert(input.edges@[edge].from@ == input.nodes@[downstream]@);
    assert(depends_on(input, downstream, upstream));
    law_prerequisites_go_first(
        input,
        plan,
        downstream,
        from.0,
        from.1,
        upstream,
        to.0,
        to.1,
    );
    law_upstream_ranks_higher(input, downstream, upstream);
}

/// An entry behind the first phase has an edge to an entry of the phase before.
pub proof fn law_later_phases_wait_for_the_one_before(
    input: GraphInput,
    plan: MigrationPlan,
    phase: int,
    at: int,
) -> (found: (int, int))
    requires
        is_well_formed(input),
        is_acyclic(downstream_graph(input)),
        is_plan(input, plan),
        0 < phase < plan.phases@.len(),
        0 <= at < plan.phases@[phase].nodes@.len(),
    ensures
        0 <= found.0 < input.edges@.len(),
        input.edges@[found.0].from@ == plan.phases@[phase].nodes@[at].id@,
        0 <= found.1 < plan.phases@[phase - 1].nodes@.len(),
        input.edges@[found.0].to@ == plan.phases@[phase - 1].nodes@[found.1].id@,
{
    let node = law_entries_are_nodes(input, plan, phase, at);
    let upstream = law_no_node_waits_in_vain(input, plan, node, phase, at);
    let edge = choose|edge: int|
        0 <= edge < input.edges@.len() && (#[trigger] input.edges@[edge]).from@
            == input.nodes@[node]@ && input.edges@[edge].to@ == input.nodes@[upstream]@;
    let before = phase - 1;
    assert(is_planned_in(input, plan, before, upstream));
    let place = choose|place: int| is_planned_at(input, plan, before, place, upstream);
    (edge, place)
}

/// A node that nothing depends on has depth 0; any other has an edge to it from a node that is
/// exactly one less deep.
pub proof fn law_depth_comes_from_a_dependent(
    input: GraphInput,
    plan: MigrationPlan,
    phase: int,
    at: int,
) -> (found: (int, int, int))
    requires
        is_well_formed(input),
        is_acyclic(downstream_graph(input)),
        is_plan(input, plan),
        0 <= phase < plan.phases@.len(),
        0 <= at < plan.phases@[phase].nodes@.len(),
    ensures
        ({
            let planned = plan.phases@[phase].nodes@[at];
            let (edge, from_phase, from_at) = found;
            &&& planned.downstream_depth == 0 <==> forall|other: int|
                0 <= other < input.edges@.len() ==> (#[trigger] input.edges@[other]).to@
                    != planned.id@
            &&& planned.downstream_depth == 0 <==> planned.downstream_reach == 0
            &&& planned.downstream_depth > 0 ==> {
                &&& 0 <= edge < input.edges@.len()
                &&& input.edges@[edge].to@ == planned.id@
                &&& 0 <= from_phase < plan.phases@.len()
                &&& 0 <= from_at < plan.phases@[from_phase].nodes@.len()
                &&& input.edges@[edge].from@ == plan.phases@[from_phase].nodes@[from_at].id@
                &&& plan.phases@[from_phase].nodes@[from_at].downstream_depth + 1
                    == planned.downstream_depth
            }
        }),
{
    let graph = downstream_graph(input);
    let node = law_entries_are_nodes(input, plan, phase, at);
    let planned = plan.phases@[phase].nodes@[at];
    lemma_depth_exists(graph, node);
    law_depth_goes_step_by_step(graph, node, planned.downstream_depth as nat);
    lemma_reach_is_finite(graph, node);
    if planned.downstream_depth == 0 {
        assert forall|other: int| 0 <= other < input.edges@.len() implies (
        #[trigger] input.edges@[other]).to@ != planned.id@ by {
            if input.edges@[other].to@ == planned.id@ {
                assert(edge_is_known(input, other));
                let next = choose|next: int|
                    0 <= next < node_ids(input).len() && node_ids(input)[next]
                        == input.edges@[other].from@;
                assert(input.nodes@[next]@ == input.edges@[other].from@);
                assert(depends_on(input, next, node));
                assert(is_edge(graph, node, next));
            }
        }
        assert forall|to: int| !reachable_from(graph, node).contains(to) by {
            law_reach_goes_step_by_step(graph, node, to);
            if reachable_from(graph, node).contains(to) {
                let next = choose|next: int| #[trigger]
                    graph[node].contains(next) && (next == to || (0 <= next < graph.len()
                        && reachable_from(graph, next).contains(to)));
                assert(is_edge(graph, node, next));
            }
        }
        assert(reachable_from(graph, node) =~= Set::empty());
        (0, 0, 0)
    } else {
        let next = choose|next: int| #[trigger]
            is_edge(graph, node, next) && is_depth(
                graph,
                next,
                (planned.downstream_depth - 1) as nat,
            );
        lemma_depth_is(graph, next, (planned.downstream_depth - 1) as nat);
        assert(depends_on(input, next, node));
        let edge = choose|edge: int|
            0 <= edge < input.edges@.len() && (#[trigger] input.edges@[edge]).from@
                == input.nodes@[next]@ && input.edges@[edge].to@ == input.nodes@[node]@;
        law_every_node_is_planned_once(input, plan, next);
        let (own, place) = choose|phase: int, at: int| is_planned_at(input, plan, phase, at, next);
        law_reach_goes_step_by_step(graph, node, next);
        assert(graph[node].contains(next));
        assert(reachable_from(graph, node).contains(next));
        assert(reachable_from(graph, node).len() > 0);
        (edge, own, place)
    }
}

proof fn lemma_reach_is_finite(graph: Graph, node: int)
    requires
        forall|from: int, to: int|
            0 <= from < graph.len() && #[trigger] graph[from].contains(to) ==> 0 <= to
                < graph.len(),
    ensures
        reachable_from(graph, node).finite(),
{
    let far = reachable_from(graph, node);
    let all = vstd::set_lib::set_int_range(0, graph.len() as int);
    vstd::set_lib::lemma_int_range(0, graph.len() as int);
    assert forall|to: int| far.contains(to) implies all.contains(to) by {
        let walk = choose|walk: Seq<int>| #[trigger]
            is_walk(graph, walk) && walk.first() == node && graph[walk.last()].contains(to);
        assert(0 <= walk[walk.len() - 1] < graph.len());
    }
    vstd::set_lib::lemma_set_subset_finite(all, far);
}

/// Whether an edge leads to the node `upstream` from a node that is `to`, or behind which `to`
/// stands among those of `sets`.
pub open spec fn is_behind_an_edge(
    input: GraphInput,
    sets: Seq<Set<int>>,
    upstream: int,
    to: int,
) -> bool {
    exists|edge: int, next: int|
        #![trigger input.edges@[edge], input.nodes@[next]]
        0 <= edge < input.edges@.len() && 0 <= next < input.nodes@.len()
            && input.edges@[edge].to@ == input.nodes@[upstream]@ && input.edges@[edge].from@
            == input.nodes@[next]@ && (next == to || sets[next].contains(to))
}

/// The reach of a node is the number of nodes that depend on it, straight or by way of others:
/// those at the other end of an edge to it, and all that depend on those.
pub proof fn law_reach_counts_all_dependents(input: GraphInput, plan: MigrationPlan) -> (sets: Seq<
    Set<int>,
>)
    requires
        is_well_formed(input),
        is_plan(input, plan),
    ensures
        sets.len() == input.nodes@.len(),
        forall|node: int, to: int|
            0 <= node < sets.len() ==> (#[trigger] sets[node].contains(to) <==> is_behind_an_edge(
                input,
                sets,
                node,
                to,
            )),
        forall|node: int| 0 <= node < sets.len() ==> (#[trigger] sets[node]).finite(),
        forall|phase: int, at: int, node: int|
            #![trigger plan.phases@[phase].nodes@[at], sets[node]]
            0 <= phase < plan.phases@.len() && 0 <= at < plan.phases@[phase].nodes@.len() && 0
                <= node < sets.len() && plan.phases@[phase].nodes@[at].id@ == input.nodes@[node]@
                ==> plan.phases@[phase].nodes@[at].downstream_reach == sets[node].len(),
{
    let graph = downstream_graph(input);
    let sets = Seq::new(input.nodes@.len(), |node: int| reachable_from(graph, node));
    assert forall|node: int, to: int| 0 <= node < sets.len() implies (
    #[trigger] sets[node].contains(to) <==> is_behind_an_edge(input, sets, node, to)) by {
        law_reach_goes_step_by_step(graph, node, to);
        if sets[node].contains(to) {
            let next = choose|next: int| #[trigger]
                graph[node].contains(next) && (next == to || (0 <= next < graph.len()
                    && reachable_from(graph, next).contains(to)));
            assert(depends_on(input, next, node));
            let edge = choose|edge: int|
                0 <= edge < input.edges@.len() && (#[trigger] input.edges@[edge]).from@
                    == input.nodes@[next]@ && input.edges@[edge].to@ == input.nodes@[node]@;
            assert(input.edges@[edge].from@ == input.nodes@[next]@ && (next == to
                || sets[next].contains(to)));
        }
        if is_behind_an_edge(input, sets, node, to) {
            let (edge, next) = choose|edge: int, next: int|
                #![trigger input.edges@[edge], input.nodes@[next]]
                0 <= edge < input.edges@.len() && 0 <= next < input.nodes@.len()
                    && input.edges@[edge].to@ == input.nodes@[node]@ && input.edges@[edge].from@
                    == input.nodes@[next]@ && (next == to || sets[next].contains(to));
            assert(depends_on(input, next, node));
            assert(graph[node].contains(next));
        }
    }
    assert forall|node: int| 0 <= node < sets.len() implies (#[trigger] sets[node]).finite() by {
        lemma_reach_is_finite(graph, node);
    }
    assert forall|phase: int, at: int, node: int|
        #![trigger plan.phases@[phase].nodes@[at], sets[node]]
        0 <= phase < plan.phases@.len() && 0 <= at < plan.phases@[phase].nodes@.len() && 0 <= node
            < sets.len() && plan.phases@[phase].nodes@[at].id@
            == input.nodes@[node]@ implies plan.phases@[phase].nodes@[at].downstream_reach
        == sets[node].len() by {
        let other = law_entries_are_nodes(input, plan, phase, at);
        assert(node_ids(input)[other] == node_ids(input)[node]);
    }
    sets
}

/// Dependencies go round in a circle only where no ranks can be given to the ids so that every edge
/// leads from a higher to a lower rank.
pub proof fn law_ranked_ids_have_no_cycle(input: GraphInput, ranks: Map<Seq<char>, int>)
    requires
        forall|edge: int|
            0 <= edge < input.edges@.len() ==> ranks[(#[trigger] input.edges@[edge]).from@]
                > ranks[input.edges@[edge].to@],
    ensures
        is_acyclic(downstream_graph(input)),
{
    let graph = downstream_graph(input);
    let levels = Seq::new(graph.len(), |node: int| -ranks[input.nodes@[node]@]);
    assert forall|from: int, to: int| #[trigger] is_edge(graph, from, to) implies levels[from]
        > levels[to] by {
        assert(depends_on(input, to, from));
        let edge = choose|edge: int|
            0 <= edge < input.edges@.len() && (#[trigger] input.edges@[edge]).from@
                == input.nodes@[to]@ && input.edges@[edge].to@ == input.nodes@[from]@;
        assert(ranks[input.edges@[edge].from@] > ranks[input.edges@[edge].to@]);
    }
    law_ranked_graph_has_no_cycle(graph, levels);
}

/// Where the dependencies do not go round in a circle, the ids have such ranks.
pub proof fn law_ids_without_cycle_are_ranked(input: GraphInput) -> (ranks: Map<Seq<char>, int>)
    requires
        is_well_formed(input),
        is_acyclic(downstream_graph(input)),
    ensures
        forall|edge: int|
            0 <= edge < input.edges@.len() ==> ranks[(#[trigger] input.edges@[edge]).from@]
                > ranks[input.edges@[edge].to@],
{
    let graph = downstream_graph(input);
    let levels = law_graph_without_cycle_is_ranked(graph);
    let ids = node_ids(input);
    let ranks = Map::new(
        |id: Seq<char>| ids.contains(id),
        |id: Seq<char>| -levels[ids.index_of(id)],
    );
    assert forall|edge: int| 0 <= edge < input.edges@.len() implies ranks[(
    #[trigger] input.edges@[edge]).from@] > ranks[input.edges@[edge].to@] by {
        assert(edge_is_known(input, edge));
        let from = ids.index_of(input.edges@[edge].from@);
        let to = ids.index_of(input.edges@[edge].to@);
        assert(ids[from] == input.edges@[edge].from@ && ids[to] == input.edges@[edge].to@);
        assert(depends_on(input, from, to));
        assert(is_edge(graph, to, from));
    }
    ranks
}

/// Whether one of the nodes has the id `id`.
pub open spec fn is_node_id(input: GraphInput, id: Seq<char>) -> bool {
    exists|at: int| 0 <= at < input.nodes@.len() && (#[trigger] input.nodes@[at])@ == id
}

proof fn lemma_node_ids(input: GraphInput, id: Seq<char>)
    ensures
        node_ids(input).contains(id) <==> is_node_id(input, id),
{
    let ids = node_ids(input);
    if is_node_id(input, id) {
        let at = choose|at: int|
            0 <= at < input.nodes@.len() && (#[trigger] input.nodes@[at])@ == id;
        assert(ids[at] == id);
    }
    if ids.contains(id) {
        let at = choose|at: int| 0 <= at < ids.len() && ids[at] == id;
        assert(input.nodes@[at]@ == id);
    }
}

/// A graph is well-formed exactly where no two ids are the same, one of them is the target, and
/// both ends of every edge are among them.
pub proof fn law_well_formed_graphs(input: GraphInput)
    ensures
        is_well_formed(input) <==> {
            &&& forall|one: int, other: int|
                0 <= one < other < input.nodes@.len() ==> (#[trigger] input.nodes@[one])@ != (
                #[trigger] input.nodes@[other])@
            &&& is_node_id(input, input.target@)
            &&& forall|edge: int|
                0 <= edge < input.edges@.len() ==> is_node_id(
                    input,
                    (#[trigger] input.edges@[edge]).from@,
                ) && is_node_id(input, input.edges@[edge].to@)
        },
{
    let ids = node_ids(input);
    lemma_node_ids(input, input.target@);
    assert forall|edge: int| 0 <= edge < input.edges@.len() implies (#[trigger] edge_is_known(
        input,
        edge,
    ) <==> is_node_id(input, input.edges@[edge].from@) && is_node_id(
        input,
        input.edges@[edge].to@,
    )) by {
        lemma_node_ids(input, input.edges@[edge].from@);
        lemma_node_ids(input, input.edges@[edge].to@);
    }
    if is_well_formed(input) {
        assert forall|edge: int| 0 <= edge < input.edges@.len() implies is_node_id(
            input,
            (#[trigger] input.edges@[edge]).from@,
        ) && is_node_id(input, input.edges@[edge].to@) by {
            assert(edge_is_known(input, edge));
        }
        assert forall|one: int, other: int| 0 <= one < other < input.nodes@.len() implies (
        #[trigger] input.nodes@[one])@ != (#[trigger] input.nodes@[other])@ by {
            assert(ids[one] != ids[other]);
        }
    }
}

/// The edge that an error names is the first with an end that is no node.
pub proof fn law_first_unknown_edge_is_named(input: GraphInput, edge: int)
    requires
        is_first_unknown_edge(input, edge),
    ensures
        0 <= edge < input.edges@.len(),
        !(is_node_id(input, input.edges@[edge].from@) && is_node_id(input, input.edges@[edge].to@)),
        forall|before: int|
            0 <= before < edge ==> is_node_id(input, (#[trigger] input.edges@[before]).from@)
                && is_node_id(input, input.edges@[before].to@),
{
    lemma_node_ids(input, input.edges@[edge].from@);
    lemma_node_ids(input, input.edges@[edge].to@);
    assert forall|before: int| 0 <= before < edge implies is_node_id(
        input,
        (#[trigger] input.edges@[before]).from@,
    ) && is_node_id(input, input.edges@[before].to@) by {
        assert(edge_is_known(input, before));
        lemma_node_ids(input, input.edges@[before].from@);
        lemma_node_ids(input, input.edges@[before].to@);
    }
}

} // verus!
