//! Upstream-first migration planning.
//!
//! A plan orders the nodes of a dependency graph in phases, so that every node stands in a later
//! phase than all nodes it depends on.

use vstd::prelude::*;

use crate::graph::{depth, is_acyclic, is_depth, is_reach, reachable_from, reversed, Graph};
use crate::graph::{lemma_depth_exists, lemma_depth_is, lemma_reversed_acyclic};
use crate::order::{comes_before, is_stable_order, lemma_covers_all, stable_order, SortKey};
use crate::ranking::{
    compute_downstream_depth, compute_downstream_reach, graph_of, lemma_edge_is_listed,
    lemma_listed_is_node, lemma_push_member, lists_are_closed,
};
use crate::text::{
    chars_of, head_before, is_text_at_most, owned, same_text, split_first, tail_after,
    text_at_most,
};
use crate::text::{lemma_text_total, lemma_text_transitive};

verus! {

/// A dependency graph: node ids, and edges that lead from a node to one it depends on.
#[derive(Debug)]
pub struct GraphInput {
    pub target: String,
    pub nodes: Vec<String>,
    pub edges: Vec<GraphEdge>,
}

/// One dependency: `from` depends on `to`.
#[derive(Debug)]
pub struct GraphEdge {
    pub from: String,
    pub to: String,
}

/// The nodes of a graph in the order in which to migrate them.
#[derive(Debug, PartialEq, Eq)]
pub struct MigrationPlan {
    pub target: String,
    pub phases: Vec<MigrationPhase>,
}

/// Nodes that can be migrated together; phases are counted from 1.
#[derive(Debug, PartialEq, Eq)]
pub struct MigrationPhase {
    pub phase: usize,
    pub nodes: Vec<PlannedNode>,
}

/// One node of a plan.
#[derive(Debug, PartialEq, Eq)]
pub struct PlannedNode {
    pub id: String,
    pub repository: String,
    pub component: String,
    pub is_target: bool,
    pub downstream_reach: usize,
    pub downstream_depth: usize,
}

/// The two parts of a node id.
#[derive(Debug, PartialEq, Eq)]
pub struct NodeDescriptor {
    pub repository: String,
    pub component: String,
}

/// How far upstream a node lies.
#[derive(Debug, Clone, Copy, PartialEq, Eq)]
pub struct NodePriority {
    pub downstream_depth: usize,
    pub downstream_reach: usize,
}

/// Why no migration plan could be made.
#[derive(Debug, PartialEq, Eq)]
pub enum PlanError {
    /// A node id is listed more than once.
    DuplicateNodes,
    /// The target is not one of the nodes.
    MissingTarget,
    /// An edge starts at an id that is not one of the nodes.
    UnknownFromNode(String),
    /// An edge ends at an id that is not one of the nodes.
    UnknownToNode(String),
    /// A list of dependents names a node that does not exist.
    UnknownDependent(usize),
    /// The dependencies go round in a circle.
    Cycle,
}

/// The ids of the nodes.
pub open spec fn node_ids(input: GraphInput) -> Seq<Seq<char>> {
    Seq::new(input.nodes@.len(), |node: int| input.nodes@[node]@)
}

/// Whether an edge says that `downstream` depends on `upstream`.
pub open spec fn depends_on(input: GraphInput, downstream: int, upstream: int) -> bool {
    exists|edge: int|
        0 <= edge < input.edges@.len() && (#[trigger] input.edges@[edge]).from@
            == input.nodes@[downstream]@ && input.edges@[edge].to@ == input.nodes@[upstream]@
}

/// The graph that leads from every node to the nodes that depend on it.
pub open spec fn downstream_graph(input: GraphInput) -> Graph {
    Seq::new(
        input.nodes@.len(),
        |upstream: int|
            Set::new(
                |downstream: int|
                    0 <= downstream < input.nodes@.len() && depends_on(input, downstream, upstream),
            ),
    )
}

/// The number of dependencies on the longest way from `node` to a node that depends on nothing:
/// the phase in which the node can go, counted from 0.
pub open spec fn phase_of(input: GraphInput, node: int) -> nat {
    depth(reversed(downstream_graph(input)), node)
}

/// Whether both ends of an edge are nodes.
pub open spec fn edge_is_known(input: GraphInput, edge: int) -> bool {
    &&& node_ids(input).contains(input.edges@[edge].from@)
    &&& node_ids(input).contains(input.edges@[edge].to@)
}

/// Whether `edge` is the first one with an end that is no node.
pub open spec fn is_first_unknown_edge(input: GraphInput, edge: int) -> bool {
    &&& 0 <= edge < input.edges@.len()
    &&& !edge_is_known(input, edge)
    &&& forall|before: int| 0 <= before < edge ==> #[trigger] edge_is_known(input, before)
}

/// Whether the node ids differ and the target is one of them.
pub open spec fn nodes_are_valid(input: GraphInput) -> bool {
    &&& node_ids(input).no_duplicates()
    &&& node_ids(input).contains(input.target@)
}

/// Whether the graph names only its own nodes.
pub open spec fn is_well_formed(input: GraphInput) -> bool {
    &&& nodes_are_valid(input)
    &&& forall|edge: int| 0 <= edge < input.edges@.len() ==> #[trigger] edge_is_known(input, edge)
}

/// The repository part of a node id: what stands before the first `|`.
pub open spec fn repository_of(id: Seq<char>) -> Seq<char> {
    head_before(id, '|')
}

/// The component part of a node id: what stands behind the first `|`, or `root` if that is
/// nothing.
pub open spec fn component_of(id: Seq<char>) -> Seq<char> {
    if tail_after(id, '|').len() == 0 {
        "root"@
    } else {
        tail_after(id, '|')
    }
}

/// Whether `planned` says what holds of `node`.
pub open spec fn describes(input: GraphInput, planned: PlannedNode, node: int) -> bool {
    &&& 0 <= node < input.nodes@.len()
    &&& planned.id@ == input.nodes@[node]@
    &&& planned.repository@ == repository_of(planned.id@)
    &&& planned.component@ == component_of(planned.id@)
    &&& planned.is_target == (planned.id@ == input.target@)
    &&& planned.downstream_depth == depth(downstream_graph(input), node)
    &&& planned.downstream_reach == reachable_from(downstream_graph(input), node).len()
}

/// Whether `left` goes before `right` in one phase: the deeper node first, then the one that
/// reaches further, then by id.
pub open spec fn goes_first(left: PlannedNode, right: PlannedNode) -> bool {
    ||| left.downstream_depth > right.downstream_depth
    ||| left.downstream_depth == right.downstream_depth && left.downstream_reach
        > right.downstream_reach
    ||| left.downstream_depth == right.downstream_depth && left.downstream_reach
        == right.downstream_reach && left.id@ != right.id@ && text_at_most(left.id@, right.id@)
}

/// Whether `planned` describes a node that goes in phase `phase`, counted from 0.
pub open spec fn belongs_to_phase(input: GraphInput, planned: PlannedNode, phase: nat) -> bool {
    exists|node: int| #[trigger]
        describes(input, planned, node) && phase_of(input, node) == phase
}

/// Whether one of `planned` describes `node`.
pub open spec fn is_listed(input: GraphInput, planned: Seq<PlannedNode>, node: int) -> bool {
    exists|at: int| 0 <= at < planned.len() && #[trigger] describes(input, planned[at], node)
}

/// Whether `planned` holds exactly the nodes that go in phase `phase`, counted from 0, in order.
pub open spec fn is_phase(input: GraphInput, planned: Seq<PlannedNode>, phase: nat) -> bool {
    &&& forall|at: int|
        0 <= at < planned.len() ==> belongs_to_phase(input, #[trigger] planned[at], phase)
    &&& forall|node: int|
        0 <= node < input.nodes@.len() && phase_of(input, node) == phase ==> #[trigger] is_listed(
            input,
            planned,
            node,
        )
    &&& forall|left: int, right: int|
        0 <= left < right < planned.len() ==> goes_first(
            #[trigger] planned[left],
            #[trigger] planned[right],
        )
}

/// Whether `plan` is the migration plan of the graph.
pub open spec fn is_plan(input: GraphInput, plan: MigrationPlan) -> bool {
    &&& plan.target@ == input.target@
    &&& forall|node: int|
        0 <= node < input.nodes@.len() ==> #[trigger] phase_of(input, node) < plan.phases@.len()
    &&& exists|node: int|
        0 <= node < input.nodes@.len() && #[trigger] phase_of(input, node) + 1
            == plan.phases@.len()
    &&& forall|at: int|
        0 <= at < plan.phases@.len() ==> (#[trigger] plan.phases@[at]).phase == at + 1 && is_phase(
            input,
            plan.phases@[at].nodes@,
            at as nat,
        )
}

/// Splits a node id at the first `|`.
pub fn parse_node_descriptor(node: &str) -> (descriptor: NodeDescriptor)
    ensures
        descriptor.repository@ == repository_of(node@),
        descriptor.component@ == component_of(node@),
{
    let (repository, component) = split_first(&chars_of(node), '|');
    NodeDescriptor {
        repository,
        component: if component.as_str().is_empty() {
            owned("root")
        } else {
            component
        },
    }
}

/// How far upstream `node` lies; a node without an entry does not lie upstream at all.
pub fn priority_for(
    node: usize,
    downstream_depth: &Vec<usize>,
    downstream_reach: &Vec<usize>,
) -> (priority: NodePriority)
    ensures
        priority.downstream_depth == if node < downstream_depth@.len() {
            downstream_depth@[node as int]
        } else {
            0
        },
        priority.downstream_reach == if node < downstream_reach@.len() {
            downstream_reach@[node as int]
        } else {
            0
        },
{
    NodePriority {
        downstream_depth: if node < downstream_depth.len() {
            downstream_depth[node]
        } else {
            0
        },
        downstream_reach: if node < downstream_reach.len() {
            downstream_reach[node]
        } else {
            0
        },
    }
}

/// The sort key of a node within its phase.
struct RankKey {
    priority: NodePriority,
    id: Vec<char>,
}

impl SortKey for RankKey {
    closed spec fn at_most(self, other: Self) -> bool {
        let mine = self.priority;
        let theirs = other.priority;
        ||| mine.downstream_depth > theirs.downstream_depth
        ||| mine.downstream_depth == theirs.downstream_depth && mine.downstream_reach
            > theirs.downstream_reach
        ||| mine.downstream_depth == theirs.downstream_depth && mine.downstream_reach
            == theirs.downstream_reach && text_at_most(self.id@, other.id@)
    }

    proof fn lemma_total(left: Self, right: Self) {
        lemma_text_total(left.id@, right.id@);
    }

    proof fn lemma_transitive(left: Self, middle: Self, right: Self) {
        if text_at_most(left.id@, middle.id@) && text_at_most(middle.id@, right.id@) {
            lemma_text_transitive(left.id@, middle.id@, right.id@);
        }
    }

    fn is_at_most(&self, other: &Self) -> (answer: bool) {
        let mine = self.priority;
        let theirs = other.priority;
        if mine.downstream_depth != theirs.downstream_depth {
            mine.downstream_depth > theirs.downstream_depth
        } else if mine.downstream_reach != theirs.downstream_reach {
            mine.downstream_reach > theirs.downstream_reach
        } else {
            is_text_at_most(&self.id, &other.id)
        }
    }
}

/// The position of `id` among `nodes`, if it is one of them.
fn position_of(nodes: &Vec<String>, id: &str) -> (position: Option<usize>)
    ensures
        match position {
            Some(at) => at < nodes@.len() && nodes@[at as int]@ == id@ && forall|before: int|
                0 <= before < at ==> (#[trigger] nodes@[before])@ != id@,
            None => forall|at: int| 0 <= at < nodes@.len() ==> (#[trigger] nodes@[at])@ != id@,
        },
{
    let mut at: usize = 0;
    while at < nodes.len()
        invariant
            at <= nodes@.len(),
            forall|before: int| 0 <= before < at ==> (#[trigger] nodes@[before])@ != id@,
        decreases nodes@.len() - at,
    {
        if same_text(nodes[at].as_str(), id) {
            return Some(at);
        }
        at += 1;
    }
    None
}

/// Whether no id stands twice among `nodes`.
fn ids_differ(nodes: &Vec<String>) -> (answer: bool)
    ensures
        answer == Seq::new(nodes@.len(), |node: int| nodes@[node]@).no_duplicates(),
{
    let ghost ids = Seq::new(nodes@.len(), |node: int| nodes@[node]@);
    let mut at: usize = 0;
    while at < nodes.len()
        invariant
            at <= nodes@.len(),
            ids == Seq::new(nodes@.len(), |node: int| nodes@[node]@),
            forall|left: int, right: int| 0 <= left < right < at ==> ids[left] != ids[right],
        decreases nodes@.len() - at,
    {
        if let Some(first) = position_of(nodes, nodes[at].as_str()) {
            if first < at {
                assert(ids[first as int] == ids[at as int]);
                return false;
            }
            assert forall|left: int, right: int| 0 <= left < right < at + 1 implies ids[left]
                != ids[right] by {
                if right == at {
                    assert(nodes@[left]@ != nodes@[at as int]@);
                }
            }
        }
        at += 1;
    }
    true
}

/// `count` empty lists.
fn empty_lists(count: usize) -> (lists: Vec<Vec<usize>>)
    ensures
        lists@.len() == count,
        forall|at: int| 0 <= at < count ==> (#[trigger] lists@[at])@.len() == 0,
{
    let mut lists: Vec<Vec<usize>> = Vec::new();
    while lists.len() < count
        invariant
            lists@.len() <= count,
            forall|at: int| 0 <= at < lists@.len() ==> (#[trigger] lists@[at])@.len() == 0,
        decreases count - lists@.len(),
    {
        lists.push(Vec::new());
    }
    lists
}

/// Whether `list` holds `item`.
fn holds(list: &Vec<usize>, item: usize) -> (answer: bool)
    ensures
        answer == list@.contains(item),
{
    let mut at: usize = 0;
    while at < list.len()
        invariant
            at <= list@.len(),
            forall|before: int| 0 <= before < at ==> list@[before] != item,
        decreases list@.len() - at,
    {
        if list[at] == item {
            assert(list@[at as int] == item);
            return true;
        }
        at += 1;
    }
    false
}

/// Adds `item` to `lists[at]` unless it is there already.
fn add_once(lists: &mut Vec<Vec<usize>>, at: usize, item: usize)
    requires
        at < old(lists)@.len(),
        item < old(lists)@.len(),
        lists_are_closed(old(lists)@),
    ensures
        final(lists)@.len() == old(lists)@.len(),
        lists_are_closed(final(lists)@),
        forall|node: int, to: usize|
            0 <= node < old(lists)@.len() ==> (#[trigger] final(lists)@[node]@.contains(to) <==> old(
                lists,
            )@[node]@.contains(to) || (node == at && to == item)),
{
    if !holds(&lists[at], item) {
        let ghost before = lists@;
        lists[at].push(item);
        proof {
            let list = before[at as int]@;
            assert(lists@[at as int]@ == list.push(item));
            assert forall|node: int, to: usize| 0 <= node < before.len() implies (
            #[trigger] lists@[node]@.contains(to) <==> before[node]@.contains(to) || (node == at
                && to == item)) by {
                if node == at {
                    let longer = list.push(item);
                    if list.contains(to) {
                        let place = choose|place: int| 0 <= place < list.len() && list[place] == to;
                        assert(longer[place] == to);
                    }
                    if to == item {
                        assert(longer[list.len() as int] == to);
                    }
                }
            }
            assert forall|node: int, place: int|
                0 <= node < lists@.len() && 0 <= place < lists@[node]@.len() implies
                #[trigger] lists@[node]@[place] < lists@.len() by {
                if node != at || place < list.len() {
                    assert(before[node]@[place] < before.len());
                }
            }
        }
    }
}

/// Whether one of the first `count` edges says that `downstream` depends on `upstream`.
spec fn depends_by(input: GraphInput, count: int, downstream: int, upstream: int) -> bool {
    exists|edge: int|
        0 <= edge < count && (#[trigger] input.edges@[edge]).from@ == input.nodes@[downstream]@
            && input.edges@[edge].to@ == input.nodes@[upstream]@
}

/// For every node the nodes that depend on it, and the nodes it depends on.
fn link_nodes(input: &GraphInput) -> (result: Result<(Vec<Vec<usize>>, Vec<Vec<usize>>), PlanError>)
    requires
        nodes_are_valid(*input),
    ensures
        match result {
            Ok((downstreams, prerequisites)) => {
                &&& is_well_formed(*input)
                &&& downstreams@.len() == input.nodes@.len()
                &&& prerequisites@.len() == input.nodes@.len()
                &&& lists_are_closed(downstreams@)
                &&& lists_are_closed(prerequisites@)
                &&& graph_of(downstreams@) == downstream_graph(*input)
                &&& graph_of(prerequisites@) == reversed(downstream_graph(*input))
            },
            Err(PlanError::UnknownFromNode(id)) => exists|edge: int| #[trigger]
                is_first_unknown_edge(*input, edge) && !node_ids(*input).contains(
                    input.edges@[edge].from@,
                ) && id@ == input.edges@[edge].from@,
            Err(PlanError::UnknownToNode(id)) => exists|edge: int| #[trigger]
                is_first_unknown_edge(*input, edge) && node_ids(*input).contains(
                    input.edges@[edge].from@,
                ) && id@ == input.edges@[edge].to@,
            Err(_) => false,
        },
{
    let count: usize = input.nodes.len();
    let mut downstreams = empty_lists(count);
    let mut prerequisites = empty_lists(count);
    let mut edge: usize = 0;
    while edge < input.edges.len()
        invariant
            nodes_are_valid(*input),
            edge <= input.edges@.len(),
            count == input.nodes@.len(),
            downstreams@.len() == count,
            prerequisites@.len() == count,
            lists_are_closed(downstreams@),
            lists_are_closed(prerequisites@),
            forall|before: int| 0 <= before < edge ==> #[trigger] edge_is_known(*input, before),
            forall|upstream: int, downstream: usize|
                0 <= upstream < count && downstream < count ==> (
                #[trigger] downstreams@[upstream]@.contains(downstream) <==> depends_by(
                    *input,
                    edge as int,
                    downstream as int,
                    upstream,
                )),
            forall|downstream: int, upstream: usize|
                0 <= downstream < count && upstream < count ==> (
                #[trigger] prerequisites@[downstream]@.contains(upstream) <==> depends_by(
                    *input,
                    edge as int,
                    downstream,
                    upstream as int,
                )),
        decreases input.edges@.len() - edge,
    {
        let from_id = input.edges[edge].from.as_str();
        let to_id = input.edges[edge].to.as_str();
        let from = match position_of(&input.nodes, from_id) {
            Some(from) => from,
            None => {
                assert(!node_ids(*input).contains(input.edges@[edge as int].from@));
                assert(is_first_unknown_edge(*input, edge as int));
                return Err(PlanError::UnknownFromNode(owned(from_id)));
            },
        };
        assert(node_ids(*input)[from as int] == input.edges@[edge as int].from@);
        let to = match position_of(&input.nodes, to_id) {
            Some(to) => to,
            None => {
                assert(!node_ids(*input).contains(input.edges@[edge as int].to@));
                assert(is_first_unknown_edge(*input, edge as int));
                return Err(PlanError::UnknownToNode(owned(to_id)));
            },
        };
        assert(node_ids(*input)[to as int] == input.edges@[edge as int].to@);
        add_once(&mut downstreams, to, from);
        add_once(&mut prerequisites, from, to);
        proof {
            assert forall|downstream: int, upstream: int|
                0 <= downstream < count && 0 <= upstream < count implies #[trigger] depends_by(
                *input,
                edge + 1,
                downstream,
                upstream,
            ) == (depends_by(*input, edge as int, downstream, upstream) || (downstream == from
                && upstream == to)) by {
                lemma_one_more_edge(
                    *input,
                    edge as int,
                    downstream,
                    upstream,
                    from as int,
                    to as int,
                );
            }
        }
        edge += 1;
    }
    proof {
        lemma_lists_match(*input, downstreams@, prerequisites@);
    }
    Ok((downstreams, prerequisites))
}

proof fn lemma_one_more_edge(
    input: GraphInput,
    edge: int,
    downstream: int,
    upstream: int,
    from: int,
    to: int,
)
    requires
        node_ids(input).no_duplicates(),
        0 <= edge < input.edges@.len(),
        0 <= downstream < input.nodes@.len(),
        0 <= upstream < input.nodes@.len(),
        0 <= from < input.nodes@.len(),
        0 <= to < input.nodes@.len(),
        input.edges@[edge].from@ == input.nodes@[from]@,
        input.edges@[edge].to@ == input.nodes@[to]@,
    ensures
        depends_by(input, edge + 1, downstream, upstream) == (depends_by(
            input,
            edge,
            downstream,
            upstream,
        ) || (downstream == from && upstream == to)),
{
    let ids = node_ids(input);
    assert(ids[downstream] == input.nodes@[downstream]@);
    assert(ids[upstream] == input.nodes@[upstream]@);
    assert(ids[from] == input.nodes@[from]@);
    assert(ids[to] == input.nodes@[to]@);
    if depends_by(input, edge + 1, downstream, upstream) && !depends_by(
        input,
        edge,
        downstream,
        upstream,
    ) {
        let known = choose|known: int|
            0 <= known < edge + 1 && (#[trigger] input.edges@[known]).from@
                == input.nodes@[downstream]@ && input.edges@[known].to@ == input.nodes@[upstream]@;
        assert(known == edge);
    }
    if depends_by(input, edge, downstream, upstream) {
        let known = choose|known: int|
            0 <= known < edge && (#[trigger] input.edges@[known]).from@
                == input.nodes@[downstream]@ && input.edges@[known].to@ == input.nodes@[upstream]@;
        assert(0 <= known < edge + 1);
    }
}

proof fn lemma_lists_match(
    input: GraphInput,
    downstreams: Seq<Vec<usize>>,
    prerequisites: Seq<Vec<usize>>,
)
    requires
        input.nodes@.len() <= usize::MAX,
        downstreams.len() == input.nodes@.len(),
        prerequisites.len() == input.nodes@.len(),
        lists_are_closed(downstreams),
        lists_are_closed(prerequisites),
        forall|upstream: int, downstream: usize|
            0 <= upstream < input.nodes@.len() && downstream < input.nodes@.len() ==> (
            #[trigger] downstreams[upstream]@.contains(downstream) <==> depends_by(
                input,
                input.edges@.len() as int,
                downstream as int,
                upstream,
            )),
        forall|downstream: int, upstream: usize|
            0 <= downstream < input.nodes@.len() && upstream < input.nodes@.len() ==> (
            #[trigger] prerequisites[downstream]@.contains(upstream) <==> depends_by(
                input,
                input.edges@.len() as int,
                downstream,
                upstream as int,
            )),
    ensures
        graph_of(downstreams) == downstream_graph(input),
        graph_of(prerequisites) == reversed(downstream_graph(input)),
{
    let graph = downstream_graph(input);
    assert forall|node: int| 0 <= node < graph.len() implies #[trigger] graph_of(downstreams)[node]
        == graph[node] by {
        assert forall|to: int| graph_of(downstreams)[node].contains(to) == graph[node].contains(
            to,
        ) by {
            lemma_edge_is_listed(downstreams, node, to);
            lemma_listed_is_node(downstreams, node, to);
            if 0 <= to < graph.len() {
                assert(downstreams[node]@.contains(to as usize) <==> depends_on(input, to, node));
            }
        }
        assert(graph_of(downstreams)[node] =~= graph[node]);
    }
    assert(graph_of(downstreams) =~= graph);
    assert forall|node: int| 0 <= node < graph.len() implies #[trigger] graph_of(
        prerequisites,
    )[node] == reversed(graph)[node] by {
        assert forall|to: int| graph_of(prerequisites)[node].contains(to) == reversed(
            graph,
        )[node].contains(to) by {
            lemma_edge_is_listed(prerequisites, node, to);
            lemma_listed_is_node(prerequisites, node, to);
            if 0 <= to < graph.len() {
                assert(prerequisites[node]@.contains(to as usize) <==> depends_on(input, node, to));
            }
        }
        assert(graph_of(prerequisites)[node] =~= reversed(graph)[node]);
    }
    assert(graph_of(prerequisites) =~= reversed(graph));
}

/// Whether the lists say how deep every node lies, how far it reaches and in which phase it goes.
spec fn figures_are_right(
    input: GraphInput,
    depths: Seq<usize>,
    reaches: Seq<usize>,
    phases: Seq<usize>,
) -> bool {
    &&& depths.len() == input.nodes@.len()
    &&& reaches.len() == input.nodes@.len()
    &&& phases.len() == input.nodes@.len()
    &&& forall|node: int|
        0 <= node < depths.len() ==> #[trigger] depths[node] == depth(downstream_graph(input), node)
    &&& forall|node: int|
        0 <= node < reaches.len() ==> #[trigger] reaches[node] == reachable_from(
            downstream_graph(input),
            node,
        ).len()
    &&& forall|node: int|
        0 <= node < phases.len() ==> #[trigger] phases[node] == phase_of(input, node)
}

/// What the plan says of one node.
fn plan_node(
    input: &GraphInput,
    depths: &Vec<usize>,
    reaches: &Vec<usize>,
    Ghost(phases): Ghost<Seq<usize>>,
    node: usize,
) -> (planned: PlannedNode)
    requires
        figures_are_right(*input, depths@, reaches@, phases),
        node < input.nodes@.len(),
    ensures
        describes(*input, planned, node as int),
{
    let id = input.nodes[node].clone();
    let descriptor = parse_node_descriptor(id.as_str());
    let priority = priority_for(node, depths, reaches);
    PlannedNode {
        repository: descriptor.repository,
        component: descriptor.component,
        is_target: same_text(id.as_str(), input.target.as_str()),
        downstream_reach: priority.downstream_reach,
        downstream_depth: priority.downstream_depth,
        id,
    }
}

/// The nodes that go in phase `phase`, counted from 0, in order.
fn plan_phase(
    input: &GraphInput,
    depths: &Vec<usize>,
    reaches: &Vec<usize>,
    phases: &Vec<usize>,
    phase: usize,
) -> (planned: Vec<PlannedNode>)
    requires
        node_ids(*input).no_duplicates(),
        figures_are_right(*input, depths@, reaches@, phases@),
    ensures
        is_phase(*input, planned@, phase as nat),
{
    let mut members: Vec<usize> = Vec::new();
    let mut keys: Vec<RankKey> = Vec::new();
    let mut node: usize = 0;
    while node < input.nodes.len()
        invariant
            figures_are_right(*input, depths@, reaches@, phases@),
            node <= input.nodes@.len(),
            members@.len() == keys@.len(),
            members@.no_duplicates(),
            forall|at: int|
                0 <= at < members@.len() ==> {
                    &&& #[trigger] members@[at] < node
                    &&& phases@[members@[at] as int] == phase
                    &&& keys@[at].priority.downstream_depth == depths@[members@[at] as int]
                    &&& keys@[at].priority.downstream_reach == reaches@[members@[at] as int]
                    &&& keys@[at].id@ == input.nodes@[members@[at] as int]@
                },
            forall|earlier: usize|
                earlier < node && phases@[earlier as int] == phase ==> #[trigger] members@.contains(
                    earlier,
                ),
        decreases input.nodes@.len() - node,
    {
        if phases[node] == phase {
            let ghost before = members@;
            members.push(node);
            keys.push(
                RankKey {
                    priority: priority_for(node, depths, reaches),
                    id: chars_of(input.nodes[node].as_str()),
                },
            );
            proof {
                lemma_push_member(before, node);
            }
        }
        node += 1;
    }
    let order = stable_order(&keys);
    let mut planned: Vec<PlannedNode> = Vec::new();
    while planned.len() < order.len()
        invariant
            figures_are_right(*input, depths@, reaches@, phases@),
            is_stable_order(keys@, order@),
            members@.len() == keys@.len(),
            forall|at: int| 0 <= at < members@.len() ==> #[trigger] members@[at] < input.nodes@.len(),
            planned@.len() <= order@.len(),
            forall|at: int|
                0 <= at < planned@.len() ==> describes(
                    *input,
                    #[trigger] planned@[at],
                    members@[order@[at] as int] as int,
                ),
        decreases order@.len() - planned@.len(),
    {
        let node: usize = members[order[planned.len()]];
        planned.push(plan_node(input, depths, reaches, Ghost(phases@), node));
    }
    proof {
        lemma_phase_is_complete(
            *input,
            depths@,
            reaches@,
            phases@,
            phase,
            members@,
            keys@,
            order@,
            planned@,
        );
    }
    planned
}

proof fn lemma_phase_is_complete(
    input: GraphInput,
    depths: Seq<usize>,
    reaches: Seq<usize>,
    phases: Seq<usize>,
    phase: usize,
    members: Seq<usize>,
    keys: Seq<RankKey>,
    order: Seq<usize>,
    planned: Seq<PlannedNode>,
)
    requires
        input.nodes@.len() <= usize::MAX,
        members.len() <= usize::MAX,
        node_ids(input).no_duplicates(),
        figures_are_right(input, depths, reaches, phases),
        members.len() == keys.len(),
        members.no_duplicates(),
        forall|at: int|
            0 <= at < members.len() ==> {
                &&& #[trigger] members[at] < input.nodes@.len()
                &&& phases[members[at] as int] == phase
                &&& keys[at].priority.downstream_depth == depths[members[at] as int]
                &&& keys[at].priority.downstream_reach == reaches[members[at] as int]
                &&& keys[at].id@ == input.nodes@[members[at] as int]@
            },
        forall|node: usize|
            node < input.nodes@.len() && phases[node as int] == phase
                ==> #[trigger] members.contains(node),
        is_stable_order(keys, order),
        planned.len() == order.len(),
        forall|at: int|
            0 <= at < planned.len() ==> describes(
                input,
                #[trigger] planned[at],
                members[order[at] as int] as int,
            ),
    ensures
        is_phase(input, planned, phase as nat),
{
    lemma_covers_all(order, keys.len());
    assert forall|at: int| 0 <= at < planned.len() implies belongs_to_phase(
        input,
        #[trigger] planned[at],
        phase as nat,
    ) by {
        let node = members[order[at] as int] as int;
        assert(describes(input, planned[at], node));
        assert(phases[node] == phase_of(input, node));
    }
    assert forall|node: int|
        0 <= node < input.nodes@.len() && phase_of(input, node) == phase as nat implies
        #[trigger] is_listed(input, planned, node) by {
        assert(phases[node] == phase_of(input, node));
        assert(members.contains(node as usize));
        let member = choose|member: int|
            0 <= member < members.len() && members[member] == node as usize;
        assert(order.contains(member as usize));
        let at = choose|at: int| 0 <= at < order.len() && order[at] == member as usize;
        assert(describes(input, planned[at], members[order[at] as int] as int));
    }
    assert forall|left: int, right: int| 0 <= left < right < planned.len() implies goes_first(
        #[trigger] planned[left],
        #[trigger] planned[right],
    ) by {
        let first = order[left] as int;
        let second = order[right] as int;
        assert(comes_before(keys, first, second));
        assert(describes(input, planned[left], members[first] as int));
        assert(describes(input, planned[right], members[second] as int));
        assert(first != second);
        assert(members[first] != members[second]);
        assert(node_ids(input)[members[first] as int] != node_ids(input)[members[second] as int]);
    }
}

/// Plans an upstream-first migration.
///
/// Nodes that depend on nothing go first, and every other node goes one phase after the last of
/// the nodes it depends on. Within a phase the nodes with the longest chain of dependents come
/// first, then those with the most dependents, then by id.
pub fn build_plan(input: GraphInput) -> (result: Result<MigrationPlan, PlanError>)
    ensures
        match result {
            Ok(plan) => {
                &&& is_well_formed(input)
                &&& is_acyclic(downstream_graph(input))
                &&& is_plan(input, plan)
            },
            Err(PlanError::DuplicateNodes) => !node_ids(input).no_duplicates(),
            Err(PlanError::MissingTarget) => node_ids(input).no_duplicates() && !node_ids(
                input,
            ).contains(input.target@),
            Err(PlanError::UnknownFromNode(id)) => nodes_are_valid(input) && exists|edge: int|
                #[trigger] is_first_unknown_edge(input, edge) && !node_ids(input).contains(
                    input.edges@[edge].from@,
                ) && id@ == input.edges@[edge].from@,
            Err(PlanError::UnknownToNode(id)) => nodes_are_valid(input) && exists|edge: int|
                #[trigger] is_first_unknown_edge(input, edge) && node_ids(input).contains(
                    input.edges@[edge].from@,
                ) && id@ == input.edges@[edge].to@,
            Err(PlanError::Cycle) => is_well_formed(input) && !is_acyclic(downstream_graph(input)),
            Err(PlanError::UnknownDependent(_)) => false,
        },
{
    if !ids_differ(&input.nodes) {
        return Err(PlanError::DuplicateNodes);
    }
    match position_of(&input.nodes, input.target.as_str()) {
        Some(at) => {
            assert(node_ids(input)[at as int] == input.target@);
        },
        None => {
            return Err(PlanError::MissingTarget);
        },
    }
    let (downstreams, prerequisites) = match link_nodes(&input) {
        Ok(lists) => lists,
        Err(error) => {
            return Err(error);
        },
    };
    let depths = match compute_downstream_depth(&downstreams) {
        Ok(depths) => depths,
        Err(error) => {
            return Err(error);
        },
    };
    let reaches = compute_downstream_reach(&downstreams);
    proof {
        lemma_reversed_acyclic(downstream_graph(input));
    }
    let levels = match compute_downstream_depth(&prerequisites) {
        Ok(levels) => levels,
        Err(error) => {
            return Err(error);
        },
    };
    proof {
        lemma_figures(input, depths@, reaches@, levels@);
    }
    let mut last: usize = levels[0];
    let mut node: usize = 1;
    let ghost mut last_node: int = 0;
    while node < levels.len()
        invariant
            1 <= node <= levels@.len(),
            0 <= last_node < levels@.len(),
            levels@[last_node] == last,
            forall|before: int| 0 <= before < node ==> #[trigger] levels@[before] <= last,
        decreases levels@.len() - node,
    {
        if levels[node] > last {
            last = levels[node];
            proof {
                last_node = node as int;
            }
        }
        node += 1;
    }
    proof {
        lemma_depth_exists(reversed(downstream_graph(input)), last_node);
        assert(levels@[last_node] == phase_of(input, last_node));
    }
    let mut phases: Vec<MigrationPhase> = Vec::new();
    while phases.len() <= last
        invariant
            node_ids(input).no_duplicates(),
            figures_are_right(input, depths@, reaches@, levels@),
            last < input.nodes@.len(),
            phases@.len() <= last + 1,
            forall|at: int|
                0 <= at < phases@.len() ==> (#[trigger] phases@[at]).phase == at + 1 && is_phase(
                    input,
                    phases@[at].nodes@,
                    at as nat,
                ),
        decreases last + 1 - phases@.len(),
    {
        let phase: usize = phases.len();
        assert(last < input.nodes.len());
        let nodes = plan_phase(&input, &depths, &reaches, &levels, phase);
        phases.push(MigrationPhase { phase: phase + 1, nodes });
    }
    proof {
        assert forall|node: int| 0 <= node < input.nodes@.len() implies #[trigger] phase_of(
            input,
            node,
        ) < phases@.len() by {
            assert(levels@[node] == phase_of(input, node));
        }
    }
    let plan = MigrationPlan { target: input.target, phases };
    assert(phase_of(input, last_node) + 1 == plan.phases@.len());
    Ok(plan)
}

proof fn lemma_figures(
    input: GraphInput,
    depths: Seq<usize>,
    reaches: Seq<usize>,
    levels: Seq<usize>,
)
    requires
        depths.len() == input.nodes@.len(),
        reaches.len() == input.nodes@.len(),
        levels.len() == input.nodes@.len(),
        forall|node: int|
            0 <= node < depths.len() ==> is_depth(
                downstream_graph(input),
                node,
                #[trigger] depths[node] as nat,
            ),
        forall|node: int|
            0 <= node < reaches.len() ==> is_reach(
                downstream_graph(input),
                node,
                #[trigger] reaches[node] as nat,
            ),
        forall|node: int|
            0 <= node < levels.len() ==> is_depth(
                reversed(downstream_graph(input)),
                node,
                #[trigger] levels[node] as nat,
            ),
    ensures
        figures_are_right(input, depths, reaches, levels),
{
    assert forall|node: int| 0 <= node < depths.len() implies #[trigger] depths[node] == depth(
        downstream_graph(input),
        node,
    ) by {
        lemma_depth_is(downstream_graph(input), node, depths[node] as nat);
    }
    assert forall|node: int| 0 <= node < levels.len() implies #[trigger] levels[node] == phase_of(
        input,
        node,
    ) by {
        lemma_depth_is(reversed(downstream_graph(input)), node, levels[node] as nat);
    }
    assert forall|node: int| 0 <= node < reaches.len() implies #[trigger] reaches[node]
        == reachable_from(downstream_graph(input), node).len() by {
        assert(is_reach(downstream_graph(input), node, reaches[node] as nat));
    }
}

} // verus!
