use on9au_tools::plan_text::{has_input, print_text_plan};
use on9au_tools::planner::{
    build_plan, parse_node_descriptor, priority_for, GraphEdge, GraphInput, MigrationPlan,
    PlanError,
};
use on9au_tools::ranking::{compute_downstream_depth, compute_downstream_reach};

fn node(id: &str) -> String {
    id.to_string()
}

fn edge(from: &str, to: &str) -> GraphEdge {
    GraphEdge { from: node(from), to: node(to) }
}

fn ids(plan: &MigrationPlan) -> Vec<Vec<String>> {
    plan.phases
        .iter()
        .map(|phase| phase.nodes.iter().map(|planned| planned.id.clone()).collect())
        .collect()
}

#[test]
fn plans_prerequisites_before_dependents() {
    let plan = build_plan(GraphInput {
        target: node("repo|Framework"),
        nodes: vec![
            node("repo|Common"),
            node("repo|Framework"),
            node("repo|ConnectorA"),
            node("repo|ConnectorB"),
        ],
        edges: vec![
            GraphEdge { from: node("repo|Framework"), to: node("repo|Common") },
            GraphEdge { from: node("repo|ConnectorA"), to: node("repo|Framework") },
            GraphEdge { from: node("repo|ConnectorB"), to: node("repo|Framework") },
        ],
    })
    .expect("plan should build");

    assert_eq!(plan.phases.len(), 3);
    assert_eq!(plan.phases[0].nodes[0].component, "Common");
    assert_eq!(plan.phases[1].nodes[0].component, "Framework");
    assert_eq!(plan.phases[2].nodes.len(), 2);
}

#[test]
fn the_order_of_nodes_and_edges_does_not_matter() {
    let names = ["a|x", "b|x", "c|x", "d|x", "e|x"];
    let links = [("b|x", "a|x"), ("c|x", "a|x"), ("d|x", "b|x"), ("d|x", "c|x"), ("e|x", "a|x")];
    let plan_of = |turn: usize| {
        let mut nodes: Vec<String> = names.iter().map(|name| node(name)).collect();
        let mut edges: Vec<GraphEdge> = links.iter().map(|(from, to)| edge(from, to)).collect();
        edges.push(edge("d|x", "c|x"));
        nodes.rotate_left(turn % 5);
        edges.rotate_left(turn);
        build_plan(GraphInput { target: node("d|x"), nodes, edges }).unwrap()
    };
    let first = plan_of(0);
    assert_eq!(ids(&first), vec![vec!["a|x"], vec!["b|x", "c|x", "e|x"], vec!["d|x"]]);
    for turn in 1..6 {
        assert_eq!(plan_of(turn), first);
    }
}

#[test]
fn prefers_more_upstream_nodes_within_a_phase() {
    let plan = build_plan(GraphInput {
        target: node("repo|Target"),
        nodes: vec![
            node("repo|BaseA"),
            node("repo|BaseB"),
            node("repo|LeafA"),
            node("repo|LeafB"),
            node("repo|Target"),
        ],
        edges: vec![
            GraphEdge { from: node("repo|LeafA"), to: node("repo|BaseA") },
            GraphEdge { from: node("repo|Target"), to: node("repo|BaseA") },
            GraphEdge { from: node("repo|LeafB"), to: node("repo|BaseB") },
        ],
    })
    .expect("plan should build");

    let phase_one = &plan.phases[0].nodes;
    assert_eq!(phase_one[0].component, "BaseA");
    assert_eq!(phase_one[1].component, "BaseB");
}

#[test]
fn rejects_cycles() {
    let error = build_plan(GraphInput {
        target: node("repo|A"),
        nodes: vec![node("repo|A"), node("repo|B")],
        edges: vec![
            GraphEdge { from: node("repo|A"), to: node("repo|B") },
            GraphEdge { from: node("repo|B"), to: node("repo|A") },
        ],
    })
    .expect_err("cycle should fail");

    assert!(error.message().contains("cycle"));
}

#[test]
fn nodes_have_to_be_unique_and_known() {
    let duplicate = build_plan(GraphInput {
        target: node("r|A"),
        nodes: vec![node("r|A"), node("r|A")],
        edges: Vec::new(),
    })
    .unwrap_err();
    assert_eq!(duplicate, PlanError::DuplicateNodes);
    assert_eq!(
        duplicate.message(),
        "nodes list contains duplicates; each node id must be unique"
    );

    let missing = build_plan(GraphInput {
        target: node("r|X"),
        nodes: vec![node("r|A")],
        edges: Vec::new(),
    })
    .unwrap_err();
    assert_eq!(missing.message(), "target node is not present in the nodes list");

    let from = build_plan(GraphInput {
        target: node("r|A"),
        nodes: vec![node("r|A")],
        edges: vec![edge("r|X", "r|A")],
    })
    .unwrap_err();
    assert_eq!(from.message(), "edge references unknown from-node: r|X");

    let to = build_plan(GraphInput {
        target: node("r|A"),
        nodes: vec![node("r|A")],
        edges: vec![edge("r|A", "r|Y")],
    })
    .unwrap_err();
    assert_eq!(to.message(), "edge references unknown to-node: r|Y");
}

#[test]
fn every_node_is_planned_once() {
    let plan = build_plan(GraphInput {
        target: node("r|D"),
        nodes: vec![node("r|D"), node("r|C"), node("r|B"), node("r|A")],
        edges: vec![edge("r|D", "r|B"), edge("r|D", "r|C"), edge("r|B", "r|A"), edge("r|C", "r|A")],
    })
    .unwrap();
    let planned = ids(&plan);
    assert_eq!(
        planned,
        vec![vec![node("r|A")], vec![node("r|B"), node("r|C")], vec![node("r|D")]]
    );
    assert_eq!(plan.phases[0].phase, 1);
    assert_eq!(plan.phases[2].phase, 3);
    assert!(plan.phases[2].nodes[0].is_target);
    assert_eq!(plan.phases[0].nodes[0].downstream_depth, 2);
    assert_eq!(plan.phases[0].nodes[0].downstream_reach, 3);
}

#[test]
fn repeated_edges_count_once() {
    let plan = build_plan(GraphInput {
        target: node("r|B"),
        nodes: vec![node("r|A"), node("r|B")],
        edges: vec![edge("r|B", "r|A"), edge("r|B", "r|A")],
    })
    .unwrap();
    assert_eq!(ids(&plan), vec![vec![node("r|A")], vec![node("r|B")]]);
    assert_eq!(plan.phases[0].nodes[0].downstream_reach, 1);
}

#[test]
fn an_edge_to_itself_is_a_cycle() {
    let error = build_plan(GraphInput {
        target: node("r|A"),
        nodes: vec![node("r|A")],
        edges: vec![edge("r|A", "r|A")],
    })
    .unwrap_err();
    assert_eq!(error, PlanError::Cycle);
    assert_eq!(error.message(), "graph contains a cycle; unable to rank upstream depth");
}

#[test]
fn descriptors_split_at_the_first_bar() {
    let both = parse_node_descriptor("repo|part|rest");
    assert_eq!(both.repository, "repo");
    assert_eq!(both.component, "part|rest");
    let alone = parse_node_descriptor("repo");
    assert_eq!(alone.repository, "repo");
    assert_eq!(alone.component, "root");
    assert_eq!(parse_node_descriptor("repo|").component, "root");
}

#[test]
fn depth_and_reach_count_dependents() {
    // 0 <- 1 <- 2, and 3 stands alone.
    let downstreams = vec![vec![1], vec![2], Vec::new(), Vec::new()];
    assert_eq!(compute_downstream_depth(&downstreams), Ok(vec![2, 1, 0, 0]));
    assert_eq!(compute_downstream_reach(&downstreams), vec![2, 1, 0, 0]);
    assert_eq!(compute_downstream_depth(&vec![vec![1], vec![0]]), Err(PlanError::Cycle));
    let repeated = vec![vec![1, 2, 1], vec![2, 2], vec![]];
    assert_eq!(compute_downstream_depth(&repeated), Ok(vec![2, 1, 0]));
    assert_eq!(compute_downstream_reach(&repeated), vec![2, 1, 0]);
    assert_eq!(compute_downstream_reach(&vec![vec![1], vec![0, 7, 9, 7]]), vec![4, 4]);
    assert_eq!(compute_downstream_reach(&vec![vec![1], vec![]]), vec![1, 0]);
    assert_eq!(
        compute_downstream_depth(&vec![vec![5]]).unwrap_err().message(),
        "unknown node in downstream graph: 5"
    );
}

#[test]
fn priority_is_depth_and_reach() {
    let priority = priority_for(1, &vec![4, 2], &vec![9, 5]);
    assert_eq!(priority.downstream_depth, 2);
    assert_eq!(priority.downstream_reach, 5);
}

#[test]
fn plan_as_text() {
    let plan = build_plan(GraphInput {
        target: node("repo|B"),
        nodes: vec![node("repo|A"), node("repo|B")],
        edges: vec![edge("repo|B", "repo|A")],
    })
    .unwrap();
    assert_eq!(
        print_text_plan(&plan),
        "Target: repo|B\nPhases: 2\n\nPhase 1\n- repo | A (depth=1, reach=1)\n\nPhase 2\n- repo | B [target] (depth=0, reach=0)\n"
    );
}

#[test]
fn blank_input_is_none() {
    assert!(!has_input(" \n\t "));
    assert!(has_input(" {}"));
}
